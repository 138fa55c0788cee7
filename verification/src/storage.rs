//! The durable store of flushed klines, modelled as a verified map from a
//! storage key (cache key plus month) to the batch persisted under it.
//! `save` appends to the batch under a key; `load` hands the batch back.
//! The byte-level encoding and the actual disk writes live outside the
//! crate and mirror exactly this key/record contract.

use vstd::prelude::*;
use crate::kline::{append_klines, clone_klines, Kline};
use crate::table::{
    assoc_map, contains_str_key, lemma_assoc_at, lemma_assoc_contains,
    lemma_assoc_map_values_congruent, lemma_assoc_push, lemma_assoc_update, Table,
};

verus! {

/// The persisted batches, keyed by storage key.
pub struct StorageManager {
    pub files: Table<Vec<Kline>>,
}

impl View for StorageManager {
    type V = Map<Seq<char>, Seq<Kline>>;

    /// The store maps each storage key to the sequence persisted under it.
    open spec fn view(&self) -> Map<Seq<char>, Seq<Kline>> {
        assoc_map(self.files.entries@).map_values(|v: Vec<Kline>| v@)
    }
}

impl Clone for StorageManager {
    fn clone(&self) -> (r: Self)
        ensures
            r@ == self@,
            self.wf() ==> r.wf(),
    {
        let mut entries: Vec<(String, Vec<Kline>)> = Vec::new();
        let mut i: usize = 0;
        while i < self.files.entries.len()
            invariant
                i <= self.files.entries@.len(),
                entries@.len() == i,
                forall|j: int|
                    0 <= j < i ==> (#[trigger] entries@[j]).0 == self.files.entries@[j].0
                        && entries@[j].1@ == self.files.entries@[j].1@,
            decreases self.files.entries@.len() - i,
        {
            let ck = self.files.entries[i].0.clone();
            let cv = clone_klines(&self.files.entries[i].1);
            let ghost gk = ck;
            let ghost gv = cv;
            let ghost pre = entries@;
            entries.push((ck, cv));
            proof {
                assert(entries@ == pre.push((gk, gv)));
                assert forall|j: int|
                    0 <= j < i + 1 implies (#[trigger] entries@[j]).0 == self.files.entries@[j].0
                        && entries@[j].1@ == self.files.entries@[j].1@ by {
                    if j < i {
                        assert(entries@[j] == pre[j]);
                    } else {
                        assert(entries@[j] == (gk, gv));
                    }
                }
            }
            i = i + 1;
        }
        let r = StorageManager { files: Table { entries } };
        proof {
            lemma_assoc_map_values_congruent(
                r.files.entries@,
                self.files.entries@,
                |v: Vec<Kline>| v@,
            );
            if self.wf() {
                assert forall|a: int, b: int| 0 <= a < b < r.files.entries@.len() implies r
                    .files.entries@[a].0@ != r.files.entries@[b].0@ by {
                    assert((r.files.entries@[a]).0 == self.files.entries@[a].0);
                    assert((r.files.entries@[b]).0 == self.files.entries@[b].0);
                    assert(self.files.entries@[a].0@ != self.files.entries@[b].0@);
                }
            }
        }
        r
    }
}

impl StorageManager {
    /// The store is well formed: storage keys are pairwise distinct.
    pub open spec fn wf(&self) -> bool {
        self.files.wf()
    }

    /// An empty store.
    pub fn new() -> (r: Self)
        ensures
            r.wf(),
            r@ == Map::<Seq<char>, Seq<Kline>>::empty(),
    {
        let r = StorageManager { files: Table::new() };
        proof {
            assert(r@ =~= Map::<Seq<char>, Seq<Kline>>::empty());
        }
        r
    }

    /// Appends `klines` to the batch persisted under `key`; a key not yet
    /// stored starts from the empty batch.
    pub fn save_klines(&mut self, klines: &Vec<Kline>, key: &String)
        requires
            old(self).wf(),
        ensures
            final(self).wf(),
            final(self)@ == old(self)@.insert(
                key@,
                (if old(self)@.contains_key(key@) {
                    old(self)@[key@]
                } else {
                    Seq::<Kline>::empty()
                }) + klines@,
            ),
    {
        proof {
            lemma_assoc_contains(self.files.entries@, key@);
        }
        match self.files.index_of(key) {
            Some(i) => {
                proof {
                    lemma_assoc_at(self.files.entries@, i as int);
                }
                let mut batch = clone_klines(&self.files.entries[i].1);
                append_klines(&mut batch, klines);
                let stored_key = self.files.entries[i].0.clone();
                let ghost gk = stored_key;
                let ghost gv = batch;
                self.files.entries[i] = (stored_key, batch);
                proof {
                    assert(self.files.entries@ == old(self).files.entries@.update(
                        i as int,
                        (gk, gv),
                    ));
                    lemma_assoc_update(old(self).files.entries@, i as int, gk, gv);
                    assert(self@ =~= old(self)@.insert(key@, old(self)@[key@] + klines@));
                }
            },
            None => {
                let stored_key = key.clone();
                let batch = clone_klines(klines);
                let ghost gk = stored_key;
                let ghost gv = batch;
                self.files.entries.push((stored_key, batch));
                proof {
                    let t = old(self).files.entries@;
                    assert(self.files.entries@ == t.push((gk, gv)));
                    lemma_assoc_push(t, gk, gv);
                    assert(Seq::<Kline>::empty() + klines@ =~= klines@);
                    assert(self@ =~= old(self)@.insert(key@, Seq::<Kline>::empty() + klines@));
                }
            },
        }
    }

    /// The batch persisted under `kline_filename`, or `None` if that key
    /// was never saved to.
    pub fn load_klines(&self, kline_filename: &String) -> (r: Option<Vec<Kline>>)
        requires
            self.wf(),
        ensures
            match r {
                Some(v) => self@.contains_key(kline_filename@) && v@ == self@[kline_filename@],
                None => !self@.contains_key(kline_filename@),
            },
    {
        proof {
            lemma_assoc_contains(self.files.entries@, kline_filename@);
        }
        match self.files.index_of(kline_filename) {
            Some(i) => {
                proof {
                    lemma_assoc_at(self.files.entries@, i as int);
                }
                Some(clone_klines(&self.files.entries[i].1))
            },
            None => None,
        }
    }
}

} // verus!
