//! The stream supervisor's reconciliation rule. A loop outside the crate
//! wakes on a fixed tick, snapshots the orchestrator's live feeds, and
//! calls `open` for exactly the feeds this decision returns. The rule is
//! level-triggered: it is recomputed from scratch each tick, and `open`'s
//! idempotence by id makes repeating it harmless. It never closes
//! anything.

use vstd::prelude::*;
use crate::stream::StreamMeta;

verus! {

/// Some meta in `s` carries `symbol`.
pub open spec fn contains_symbol(s: Seq<StreamMeta>, symbol: Seq<char>) -> bool {
    exists|i: int| 0 <= i < s.len() && s[i].symbol@ == symbol
}

/// Whether some meta in `metas` carries `symbol`.
fn has_symbol(metas: &Vec<StreamMeta>, symbol: &String) -> (r: bool)
    ensures
        r == contains_symbol(metas@, symbol@),
{
    let mut i: usize = 0;
    while i < metas.len()
        invariant
            i <= metas@.len(),
            forall|j: int| 0 <= j < i ==> metas@[j].symbol@ != symbol@,
        decreases metas@.len() - i,
    {
        if metas[i].symbol == *symbol {
            return true;
        }
        i = i + 1;
    }
    false
}

/// The reconciliation decision: of the declared needed feeds, those whose
/// symbol has no live match, in declaration order. The caller re-opens
/// exactly these.
pub fn streams_to_open(needed: &Vec<StreamMeta>, active: &Vec<StreamMeta>) -> (r: Vec<StreamMeta>)
    ensures
        r@ == needed@.filter((|m: StreamMeta| !contains_symbol(active@, m.symbol@))),
{
    let ghost pred = |m: StreamMeta| !contains_symbol(active@, m.symbol@);
    let mut out: Vec<StreamMeta> = Vec::new();
    proof {
        assert(needed@.take(0).filter(pred) =~= out@);
    }
    let mut i: usize = 0;
    while i < needed.len()
        invariant
            i <= needed@.len(),
            out@ == needed@.take(i as int).filter(pred),
            pred == (|m: StreamMeta| !contains_symbol(active@, m.symbol@)),
        decreases needed@.len() - i,
    {
        let live = has_symbol(active, &needed[i].symbol);
        if !live {
            out.push(needed[i].clone());
        }
        proof {
            let prefix = needed@.take(i as int);
            prefix.lemma_filter_push(needed@[i as int], pred);
            assert(needed@.take(i + 1 as int) =~= prefix.push(needed@[i as int]));
            assert(!live == pred(needed@[i as int]));
        }
        i = i + 1;
    }
    proof {
        assert(needed@.take(needed@.len() as int) =~= needed@);
    }
    out
}

/// Law: reconciliation covers every dead needed feed. A needed meta whose
/// symbol has no live match is among the feeds the decision re-opens —
/// so a feed that silently died is reopened on the next tick.
pub proof fn lemma_reconcile_covers(needed: Seq<StreamMeta>, active: Seq<StreamMeta>, i: int)
    requires
        0 <= i < needed.len(),
        !contains_symbol(active, needed[i].symbol@),
    ensures
        needed.filter((|m: StreamMeta| !contains_symbol(active, m.symbol@))).contains(needed[i]),
{
    needed.lemma_filter_contains((|m: StreamMeta| !contains_symbol(active, m.symbol@)), i);
}

/// Law: reconciliation opens nothing that is already live. Every feed the
/// decision returns has a symbol with no live match.
pub proof fn lemma_reconcile_skips_live(needed: Seq<StreamMeta>, active: Seq<StreamMeta>, i: int)
    requires
        0 <= i < needed.filter((|m: StreamMeta| !contains_symbol(active, m.symbol@))).len(),
    ensures
        !contains_symbol(
            active,
            needed.filter((|m: StreamMeta| !contains_symbol(active, m.symbol@)))[i].symbol@,
        ),
{
    needed.lemma_filter_pred((|m: StreamMeta| !contains_symbol(active, m.symbol@)), i);
}

} // verus!
