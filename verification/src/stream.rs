//! Stream identity and the orchestrator's bookkeeping: which feeds are
//! tracked, under which deterministic id, and what `open` / `close` do to
//! that set. The polling tasks themselves run outside the crate; the
//! orchestrator state here is the single source of truth they are keyed by.

use vstd::prelude::*;
use vstd::string::{StrSliceExecFns, StringExecFns};

verus! {

/// The two kinds of feed a stream can carry.
#[derive(Clone, Copy, PartialEq, Eq, Structural, Debug)]
pub enum StreamType {
    Ticker,
    Kline,
}

/// Tracked metadata of one feed: identity plus runtime state.
#[derive(Debug)]
pub struct StreamMeta {
    pub id: String,
    pub url: String,
    pub symbol: String,
    pub stream_type: StreamType,
    pub interval: Option<String>,
    pub open: bool,
    pub last_update: u64,
    pub created_at: u64,
}

impl Clone for StreamMeta {
    fn clone(&self) -> (r: Self)
        ensures
            r == *self,
    {
        StreamMeta {
            id: self.id.clone(),
            url: self.url.clone(),
            symbol: self.symbol.clone(),
            stream_type: self.stream_type,
            interval: match &self.interval {
                Some(i) => Some(i.clone()),
                None => None,
            },
            open: self.open,
            last_update: self.last_update,
            created_at: self.created_at,
        }
    }
}

impl StreamMeta {
    /// Fresh metadata for a feed opened at `now`.
    pub fn new(
        stream_id: &str,
        url: &str,
        symbol: &str,
        stream_type: StreamType,
        interval: Option<String>,
        now: u64,
    ) -> (r: Self)
        ensures
            r.id@ == stream_id@,
            r.url@ == url@,
            r.symbol@ == symbol@,
            r.stream_type == stream_type,
            r.interval == interval,
            r.open,
            r.last_update == now,
            r.created_at == now,
    {
        StreamMeta {
            id: stream_id.to_owned(),
            url: url.to_owned(),
            symbol: symbol.to_owned(),
            stream_type,
            interval,
            open: true,
            last_update: now,
            created_at: now,
        }
    }
}

/// The view of an optional interval string.
pub open spec fn opt_str_view(o: Option<&str>) -> Option<Seq<char>> {
    match o {
        Some(s) => Some(s@),
        None => None,
    }
}

/// The view of an optional owned interval string.
pub open spec fn opt_string_view(o: Option<String>) -> Option<Seq<char>> {
    match o {
        Some(s) => Some(s@),
        None => None,
    }
}

/// The deterministic stream id of a symbol and optional interval:
/// `"{symbol}@{interval}"` for kline feeds, `"{symbol}@ticker"` otherwise.
/// The same logical feed therefore always maps to the same id.
pub open spec fn stream_id_spec(symbol: Seq<char>, interval: Option<Seq<char>>) -> Seq<char> {
    match interval {
        Some(i) => symbol + seq!['@'] + i,
        None => symbol + seq!['@', 't', 'i', 'c', 'k', 'e', 'r'],
    }
}

/// Derives the stream id of `(symbol, interval)`.
pub fn build_stream_id(symbol: &str, interval: Option<&str>) -> (r: String)
    ensures
        r@ == stream_id_spec(symbol@, opt_str_view(interval)),
{
    let mut id = symbol.to_owned();
    match interval {
        Some(i) => {
            id.append("@");
            proof {
                reveal_strlit("@");
            }
            id.append(i);
        },
        None => {
            id.append("@ticker");
            proof {
                reveal_strlit("@ticker");
                assert("@ticker"@ =~= seq!['@', 't', 'i', 'c', 'k', 'e', 'r']);
            }
        },
    }
    id
}

/// Normalizes an exchange interval string: a `"{number}min"`-style
/// suffix collapses to `"{number}m"` (the last two characters are
/// dropped whenever the string ends in `'n'`); anything else passes
/// through unchanged.
pub fn normalize_interval(interval: &str) -> (r: String)
    ensures
        r@ == (if interval@.len() >= 1 && interval@.last() == 'n' {
            interval@.take(
                (if interval@.len() >= 2 {
                    interval@.len() - 2
                } else {
                    0
                }) as int,
            )
        } else {
            interval@
        }),
{
    let l = interval.unicode_len();
    if l >= 1 && interval.get_char(l - 1) == 'n' {
        let end = if l >= 2 {
            l - 2
        } else {
            0
        };
        let r = interval.substring_char(0, end).to_owned();
        proof {
            assert(r@ =~= interval@.take(end as int));
        }
        r
    } else {
        interval.to_owned()
    }
}

/// Some tracked meta carries this id.
pub open spec fn contains_id(s: Seq<StreamMeta>, id: Seq<char>) -> bool {
    exists|i: int| 0 <= i < s.len() && s[i].id@ == id
}

/// No two tracked metas share an id.
pub open spec fn unique_ids(s: Seq<StreamMeta>) -> bool {
    forall|i: int, j: int| 0 <= i < j < s.len() ==> s[i].id@ != s[j].id@
}

/// What `open` does to the tracked set: registers the meta unless its id is
/// already tracked, in which case the set is left as it is.
pub open spec fn open_transition(s: Seq<StreamMeta>, meta: StreamMeta) -> Seq<StreamMeta> {
    if contains_id(s, meta.id@) {
        s
    } else {
        s.push(meta)
    }
}

/// Law: `open` is idempotent by id. A second `open` whose meta carries the
/// same id leaves the tracked set unchanged, the set still holds no two
/// feeds with one id, and exactly the opened id is tracked — so repeating an
/// `open` can never produce a second live feed for the same stream.
pub proof fn lemma_open_idempotent(s: Seq<StreamMeta>, m1: StreamMeta, m2: StreamMeta)
    requires
        unique_ids(s),
        m1.id@ == m2.id@,
    ensures
        open_transition(open_transition(s, m1), m2) == open_transition(s, m1),
        unique_ids(open_transition(s, m1)),
        contains_id(open_transition(s, m1), m1.id@),
{
    let s1 = open_transition(s, m1);
    if contains_id(s, m1.id@) {
    } else {
        assert(s1[s.len() as int].id@ == m1.id@);
        assert forall|i: int, j: int| 0 <= i < j < s1.len() implies s1[i].id@ != s1[j].id@ by {
            if j < s.len() {
            } else {
                assert(s1[j] == m1);
                assert(!contains_id(s, m1.id@));
            }
        }
    }
}

/// The orchestrator's tracked set of feeds, keyed by stream id.
///
/// The task handles that poll the exchange are owned by the runtime outside
/// this crate; they are registered and cancelled keyed by the ids tracked
/// here, so this state decides which feeds exist.
pub struct StreamManager {
    pub metas: Vec<StreamMeta>,
}

impl StreamManager {
    /// The tracked set is well formed: ids are pairwise distinct.
    pub open spec fn wf(&self) -> bool {
        unique_ids(self.metas@)
    }

    /// An empty orchestrator: nothing tracked.
    pub fn new() -> (r: Self)
        ensures
            r.wf(),
            r.metas@ == Seq::<StreamMeta>::empty(),
    {
        StreamManager { metas: Vec::new() }
    }

    /// Whether some tracked meta carries `id`; `Some(i)` gives its index.
    fn index_of_id(&self, id: &String) -> (r: Option<usize>)
        ensures
            match r {
                Some(i) => i < self.metas@.len() && self.metas@[i as int].id@ == id@,
                None => !contains_id(self.metas@, id@),
            },
    {
        let mut i: usize = 0;
        while i < self.metas.len()
            invariant
                i <= self.metas@.len(),
                forall|j: int| 0 <= j < i ==> self.metas@[j].id@ != id@,
            decreases self.metas@.len() - i,
        {
            if self.metas[i].id == *id {
                return Some(i);
            }
            i = i + 1;
        }
        None
    }

    /// Registers a feed under its id; idempotent by id. Returns the id
    /// whether the feed was newly registered or already tracked.
    pub fn open_stream(&mut self, meta: StreamMeta) -> (r: String)
        requires
            old(self).wf(),
        ensures
            final(self).wf(),
            r@ == meta.id@,
            final(self).metas@ == open_transition(old(self).metas@, meta),
            contains_id(final(self).metas@, meta.id@),
    {
        let id = meta.id.clone();
        match self.index_of_id(&id) {
            Some(_) => {},
            None => {
                self.metas.push(meta);
                proof {
                    let s = old(self).metas@;
                    assert(self.metas@[s.len() as int].id@ == meta.id@);
                    assert forall|i: int, j: int| 0 <= i < j < self.metas@.len() implies self
                        .metas@[i].id@ != self.metas@[j].id@ by {
                        if j < s.len() {
                        } else {
                            assert(self.metas@[j] == meta);
                        }
                    }
                }
            },
        }
        id
    }

    /// Removes the feed tracked under `id` and returns its meta; on an
    /// unknown id returns `None` and leaves the set untouched.
    pub fn close_stream(&mut self, stream_id: &str) -> (r: Option<StreamMeta>)
        requires
            old(self).wf(),
        ensures
            final(self).wf(),
            match r {
                None => !contains_id(old(self).metas@, stream_id@) && *final(self) == *old(self),
                Some(meta) => exists|i: int|
                    0 <= i < old(self).metas@.len() && old(self).metas@[i].id@ == stream_id@
                        && meta == old(self).metas@[i] && final(self).metas@ == old(
                    self,
                ).metas@.remove(i),
            },
            !contains_id(final(self).metas@, stream_id@),
    {
        let wanted = stream_id.to_owned();
        match self.index_of_id(&wanted) {
            Some(i) => {
                let meta = self.metas.remove(i);
                proof {
                    let s = old(self).metas@;
                    assert(meta == s[i as int]);
                    assert forall|a: int, b: int| 0 <= a < b < self.metas@.len() implies self
                        .metas@[a].id@ != self.metas@[b].id@ by {
                        let sa = if a < i { a } else { a + 1 };
                        let sb = if b < i { b } else { b + 1 };
                        assert(self.metas@[a] == s[sa]);
                        assert(self.metas@[b] == s[sb]);
                    }
                    assert forall|a: int| 0 <= a < self.metas@.len() implies self.metas@[a].id@
                        != stream_id@ by {
                        let sa = if a < i { a } else { a + 1 };
                        assert(self.metas@[a] == s[sa]);
                    }
                }
                Some(meta)
            },
            None => None,
        }
    }

    /// A snapshot of every tracked feed, in tracking order.
    pub fn active_streams(&self) -> (r: Vec<StreamMeta>)
        ensures
            r@ == self.metas@,
    {
        let mut out: Vec<StreamMeta> = Vec::new();
        let mut i: usize = 0;
        while i < self.metas.len()
            invariant
                i <= self.metas@.len(),
                out@ == self.metas@.take(i as int),
            decreases self.metas@.len() - i,
        {
            out.push(self.metas[i].clone());
            proof {
                assert(out@ =~= self.metas@.take(i + 1 as int));
            }
            i = i + 1;
        }
        proof {
            assert(out@ =~= self.metas@);
        }
        out
    }
}

} // verus!
