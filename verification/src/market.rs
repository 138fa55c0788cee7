//! The market cache: the hybrid memory/durable store of klines and tickers
//! behind the query surface, and the single-writer ingestion step that
//! applies channel updates to it.

use vstd::prelude::*;
use vstd::string::StringExecFns;
use crate::calendar::{
    month_chars_of_ts, month_index_of_ts, month_of_ts, year_month_chars, year_month_of_ts,
    year_month_string, year_of_ts, lemma_month_index_parts,
};
use crate::kline::{
    append_klines, clone_klines, sort_klines_by_open_time, sorted_by_open_time, Kline, KlineData,
    KlineMeta,
};
use crate::messages::MarketMessage;
use crate::storage::StorageManager;
use crate::stream::{
    build_stream_id, opt_str_view, opt_string_view, stream_id_spec, StreamMeta, StreamType,
};
use crate::table::{
    assoc_map, contains_str_key, lemma_assoc_at, lemma_assoc_contains,
    lemma_assoc_map_values_congruent, lemma_assoc_push, lemma_assoc_update, Table,
};
use crate::ticker::{Ticker, TickerData, TickerMeta};

verus! {

/// Anything that belongs to one market symbol.
pub trait MarketDataSymbol {
    /// The symbol this value belongs to.
    spec fn symbol_spec(&self) -> Seq<char>;

    /// Returns the symbol this value belongs to.
    fn symbol(&self) -> (r: String)
        ensures
            r@ == self.symbol_spec(),
    ;
}

/// Milliseconds between opportunistic flushes of the in-memory buffers to
/// the durable store.
pub const BACKUP_INTERVAL_MS: u64 = 20000;

/// The in-memory cache key of a kline series: `"{symbol}@kline_{interval}"`.
pub open spec fn kline_key_chars(symbol: Seq<char>, interval: Seq<char>) -> Seq<char> {
    symbol + seq!['@', 'k', 'l', 'i', 'n', 'e', '_'] + interval
}

/// The in-memory cache key of a ticker: `"{symbol}@ticker"`.
pub open spec fn ticker_key_chars(symbol: Seq<char>) -> Seq<char> {
    symbol + seq!['@', 't', 'i', 'c', 'k', 'e', 'r']
}

/// The month suffix of a storage key: `"-{YYYY}-{MM}.csv"`.
pub open spec fn month_tail_chars(y: int, m: int) -> Seq<char> {
    seq!['-'] + year_month_chars(y, m) + seq!['.', 'c', 's', 'v']
}

/// The storage key of one cache key and month:
/// `"{key}-{YYYY}-{MM}.csv"`.
pub open spec fn filename_chars(key: Seq<char>, y: int, m: int) -> Seq<char> {
    key + month_tail_chars(y, m)
}

/// The storage key of the month a timestamp falls in.
pub open spec fn filename_of_ts(key: Seq<char>, ts: u64) -> Seq<char> {
    filename_chars(key, year_of_ts(ts), month_of_ts(ts))
}

/// The storage key of a month given by its month index.
pub open spec fn filename_of_month_index(key: Seq<char>, idx: int) -> Seq<char> {
    filename_chars(key, idx / 12, idx % 12 + 1)
}

/// Appending a common tail keeps strings apart: equal results force equal
/// prefixes.
pub proof fn lemma_append_tail_injective(a: Seq<char>, b: Seq<char>, t: Seq<char>)
    requires
        a + t == b + t,
    ensures
        a == b,
{
    assert((a + t).len() == a.len() + t.len());
    assert((b + t).len() == b.len() + t.len());
    assert(a.len() == b.len());
    assert forall|i: int| 0 <= i < a.len() implies a[i] == b[i] by {
        assert((a + t)[i] == a[i]);
        assert((b + t)[i] == b[i]);
    }
    assert(a =~= b);
}

/// Distinct cache keys flush to distinct storage keys of the same month.
pub proof fn lemma_filename_injective(k1: Seq<char>, k2: Seq<char>, y: int, m: int)
    requires
        k1 != k2,
    ensures
        filename_chars(k1, y, m) != filename_chars(k2, y, m),
{
    if filename_chars(k1, y, m) == filename_chars(k2, y, m) {
        lemma_append_tail_injective(k1, k2, month_tail_chars(y, m));
    }
}

/// Whether a kline passes the optional time bounds. Bounds apply only
/// when `from_ts` is given; `to_ts` alone filters nothing.
pub open spec fn in_time_range(k: Kline, from_ts: Option<u64>, to_ts: Option<u64>) -> bool {
    match from_ts {
        Some(f) => k.open_time >= f && (match to_ts {
            Some(t) => k.open_time <= t,
            None => true,
        }),
        None => true,
    }
}

/// The batch stored under `f`, or nothing: a month with no stored batch
/// contributes nothing to a range query.
pub open spec fn stored_or_empty(store: Map<Seq<char>, Seq<Kline>>, f: Seq<char>) -> Seq<Kline> {
    if store.contains_key(f) {
        store[f]
    } else {
        Seq::<Kline>::empty()
    }
}

/// The concatenation, month by month, of the batches stored for `key`
/// over `n` months starting at month index `lo`.
pub open spec fn disk_months(
    store: Map<Seq<char>, Seq<Kline>>,
    key: Seq<char>,
    lo: int,
    n: nat,
) -> Seq<Kline>
    decreases n,
{
    if n == 0 {
        Seq::<Kline>::empty()
    } else {
        disk_months(store, key, lo, (n - 1) as nat) + stored_or_empty(
            store,
            filename_of_month_index(key, lo + n - 1),
        )
    }
}

/// How many monthly storage keys `[from_ts, to_ts]` spans; a range that
/// ends before it starts still touches its starting month.
pub open spec fn month_span(from_ts: u64, to_ts: u64) -> nat {
    if month_index_of_ts(to_ts) >= month_index_of_ts(from_ts) {
        (month_index_of_ts(to_ts) - month_index_of_ts(from_ts) + 1) as nat
    } else {
        1 as nat
    }
}

/// `s` is the ascending prefix of some sorted permutation of `of`: what
/// "the first entries of the ascending sort" means where equal
/// `open_time`s make the sort non-unique.
pub open spec fn sorted_prefix_of(s: Seq<Kline>, of: Seq<Kline>) -> bool {
    exists|rest: Seq<Kline>|
        (#[trigger] (s + rest)).to_multiset() == of.to_multiset() && sorted_by_open_time(s + rest)
}

/// How many entries an optional result-count limit leaves of `kept`
/// survivors.
pub open spec fn cut_count(kept: Seq<Kline>, limit: Option<usize>) -> int {
    match limit {
        Some(l) => if (l as int) < kept.len() as int {
            l as int
        } else {
            kept.len() as int
        },
        None => kept.len() as int,
    }
}

/// The klines of `v` that pass the optional time bounds, in order.
pub fn filter_klines_in_range(v: &Vec<Kline>, from_ts: Option<u64>, to_ts: Option<u64>) -> (r: Vec<
    Kline>)
    ensures
        r@ == v@.filter(|k: Kline| in_time_range(k, from_ts, to_ts)),
{
    let ghost pred = |k: Kline| in_time_range(k, from_ts, to_ts);
    let mut out: Vec<Kline> = Vec::new();
    proof {
        assert(v@.take(0).filter(pred) =~= out@);
    }
    let mut i: usize = 0;
    while i < v.len()
        invariant
            i <= v@.len(),
            out@ == v@.take(i as int).filter(pred),
            pred == (|k: Kline| in_time_range(k, from_ts, to_ts)),
        decreases v@.len() - i,
    {
        let keep = match from_ts {
            Some(f) => v[i].open_time >= f && (match to_ts {
                Some(t) => v[i].open_time <= t,
                None => true,
            }),
            None => true,
        };
        if keep {
            out.push(v[i].clone());
        }
        proof {
            let prefix = v@.take(i as int);
            prefix.lemma_filter_push(v@[i as int], pred);
            assert(v@.take(i + 1 as int) =~= prefix.push(v@[i as int]));
            assert(keep == pred(v@[i as int]));
        }
        i = i + 1;
    }
    proof {
        assert(v@.take(v@.len() as int) =~= v@);
    }
    out
}

/// The market cache. Kline series buffer in memory what arrived since the
/// last flush; older klines live in the durable store under monthly
/// storage keys; tickers keep only the latest value per symbol.
pub struct MarketData {
    pub all_klines: Table<KlineData>,
    pub all_tickers: Table<TickerData>,
    pub storage_manager: StorageManager,
    pub last_backup: u64,
}

impl MarketData {
    /// The klines a range query keeps, before sorting and the limit: the
    /// stored batches of every spanned month, then the in-memory buffer,
    /// filtered to the optional bounds.
    pub open spec fn query_kept(
        pre: MarketData,
        symbol: Seq<char>,
        interval: Seq<char>,
        from_ts: Option<u64>,
        to_ts: Option<u64>,
        now: u64,
    ) -> Seq<Kline> {
        let key = kline_key_chars(symbol, interval);
        let mem = if pre.buffers().contains_key(key) {
            pre.buffers()[key]
        } else {
            Seq::<Kline>::empty()
        };
        let disk = match from_ts {
            Some(f) => disk_months(
                pre.store(),
                key,
                month_index_of_ts(f),
                month_span(f, match to_ts {
                    Some(t) => t,
                    None => now,
                }),
            ),
            None => Seq::<Kline>::empty(),
        };
        (disk + mem).filter(|k: Kline| in_time_range(k, from_ts, to_ts))
    }

    /// Internal consistency: distinct keys throughout, each series counts
    /// its buffer, and every entry sits under the key derived from its own
    /// symbol (and interval).
    pub open spec fn wf(&self) -> bool {
        &&& self.all_klines.wf()
        &&& self.all_tickers.wf()
        &&& self.storage_manager.wf()
        &&& forall|i: int|
            0 <= i < self.all_klines.entries@.len() ==> {
                let e = #[trigger] self.all_klines.entries@[i];
                e.1.wf() && e.0@ == kline_key_chars(e.1.meta.symbol@, e.1.meta.interval@)
            }
        &&& forall|i: int|
            0 <= i < self.all_tickers.entries@.len() ==> {
                let e = #[trigger] self.all_tickers.entries@[i];
                e.0@ == ticker_key_chars(e.1.meta.symbol@)
            }
    }

    /// The in-memory kline buffers, by cache key.
    pub open spec fn buffers(&self) -> Map<Seq<char>, Seq<Kline>> {
        assoc_map(self.all_klines.entries@).map_values(|kd: KlineData| kd.klines@)
    }

    /// The latest tickers, by cache key.
    pub open spec fn tickers(&self) -> Map<Seq<char>, TickerData> {
        assoc_map(self.all_tickers.entries@)
    }

    /// The durable store's contents, by storage key.
    pub open spec fn store(&self) -> Map<Seq<char>, Seq<Kline>> {
        self.storage_manager@
    }

    /// Whether an ingestion at `now` triggers the opportunistic flush.
    pub open spec fn flush_due(&self, now: u64) -> bool {
        now as int >= self.last_backup as int + BACKUP_INTERVAL_MS as int
    }

    /// An empty cache over `storage_manager`, with the flush clock started
    /// at `now`.
    pub fn new(storage_manager: StorageManager, now: u64) -> (r: Self)
        requires
            storage_manager.wf(),
        ensures
            r.wf(),
            r.buffers() == Map::<Seq<char>, Seq<Kline>>::empty(),
            r.tickers() == Map::<Seq<char>, TickerData>::empty(),
            r.store() == storage_manager@,
            r.last_backup == now,
    {
        let r = MarketData {
            all_klines: Table::new(),
            all_tickers: Table::new(),
            storage_manager,
            last_backup: now,
        };
        proof {
            assert(r.buffers() =~= Map::<Seq<char>, Seq<Kline>>::empty());
            assert(r.tickers() =~= Map::<Seq<char>, TickerData>::empty());
        }
        r
    }

    /// What one ticker update does: the entry of `ticker`'s symbol now
    /// holds exactly `ticker`, every other ticker, every kline buffer, the
    /// store and the flush clock stand as they were.
    pub open spec fn ticker_updated(pre: MarketData, post: MarketData, ticker: Ticker, now: u64) -> bool {
        let key = ticker_key_chars(ticker.symbol@);
        &&& post.tickers().dom() == pre.tickers().dom().insert(key)
        &&& post.tickers()[key].ticker == ticker
        &&& post.tickers()[key].meta.last_update == now
        &&& post.tickers()[key].meta.symbol@ == ticker.symbol@
        &&& forall|k2: Seq<char>|
            #![auto]
            k2 != key && pre.tickers().contains_key(k2) ==> post.tickers().contains_key(k2)
                && post.tickers()[k2] == pre.tickers()[k2]
        &&& post.buffers() == pre.buffers()
        &&& post.store() == pre.store()
        &&& post.last_backup == pre.last_backup
    }

    /// Replaces the ticker stored for `ticker`'s symbol (creating the entry
    /// on first sight); no history is kept, and nothing else changes.
    pub fn update_ticker(&mut self, ticker: Ticker, now: u64)
        requires
            old(self).wf(),
        ensures
            final(self).wf(),
            Self::ticker_updated(*old(self), *final(self), ticker, now),
    {
        let ticker_key = Self::build_ticker_key(ticker.symbol.as_str());
        let sym = ticker.symbol.clone();
        let td = TickerData { meta: TickerMeta { symbol: sym, last_update: now }, ticker };
        let ghost gtd = td;
        proof {
            lemma_assoc_contains(self.all_tickers.entries@, ticker_key@);
        }
        match self.all_tickers.index_of(&ticker_key) {
            Some(i) => {
                let ghost pre = self.all_tickers.entries@;
                let ghost gk = ticker_key;
                self.all_tickers.entries[i] = (ticker_key, td);
                proof {
                    assert(self.all_tickers.entries@ == pre.update(i as int, (gk, gtd)));
                    lemma_assoc_update(pre, i as int, gk, gtd);
                }
            },
            None => {
                let ghost pre = self.all_tickers.entries@;
                let ghost gk = ticker_key;
                self.all_tickers.entries.push((ticker_key, td));
                proof {
                    assert(self.all_tickers.entries@ == pre.push((gk, gtd)));
                    lemma_assoc_push(pre, gk, gtd);
                }
            },
        }
    }

    /// Writes every buffered series to the durable store under its storage
    /// key for the month `now` falls in (appending to whatever that month
    /// already holds), then empties every buffer and restarts the flush
    /// clock. Series identities and tickers are untouched.
    fn flush_all(&mut self, now: u64)
        requires
            old(self).wf(),
        ensures
            final(self).wf(),
            final(self).tickers() == old(self).tickers(),
            final(self).last_backup == now,
            final(self).buffers().dom() == old(self).buffers().dom(),
            forall|k: Seq<char>| #![auto]
                old(self).buffers().contains_key(k) ==> final(self).buffers()[k] == Seq::<
                    Kline,
                >::empty(),
            forall|k: Seq<char>| #![auto]
                old(self).buffers().contains_key(k) ==> final(self).store().contains_key(
                    filename_of_ts(k, now),
                ) && final(self).store()[filename_of_ts(k, now)] == (if old(self).store().contains_key(filename_of_ts(k, now)) {
                    old(self).store()[filename_of_ts(k, now)]
                } else {
                    Seq::<Kline>::empty()
                }) + old(self).buffers()[k],
            forall|f: Seq<char>| #![auto]
                final(self).store().contains_key(f) <==> old(self).store().contains_key(f) || (
                exists|k: Seq<char>|
                    old(self).buffers().contains_key(k) && f == filename_of_ts(k, now)),
            forall|f: Seq<char>| #![auto]
                old(self).store().contains_key(f) && !(exists|k: Seq<char>|
                    old(self).buffers().contains_key(k) && f == filename_of_ts(k, now)) ==> final(self).store()[f] == old(self).store()[f],
    {
        let ghost entries0 = self.all_klines.entries@;
        let ghost store0 = self.store();
        let mut j: usize = 0;
        while j < self.all_klines.entries.len()
            invariant
                old(self).wf(),
                j <= entries0.len(),
                self.all_klines == old(self).all_klines,
                self.all_tickers == old(self).all_tickers,
                self.last_backup == old(self).last_backup,
                entries0 == old(self).all_klines.entries@,
                store0 == old(self).store(),
                self.storage_manager.wf(),
                forall|jj: int|
                    0 <= jj < j ==> {
                        let k = (#[trigger] entries0[jj]).0@;
                        self.store().contains_key(filename_of_ts(k, now)) && self.store()[
                            filename_of_ts(k, now)] == (if store0.contains_key(
                            filename_of_ts(k, now),
                        ) {
                            store0[filename_of_ts(k, now)]
                        } else {
                            Seq::<Kline>::empty()
                        }) + entries0[jj].1.klines@
                    },
                forall|f: Seq<char>| #![auto]
                    self.store().contains_key(f) <==> store0.contains_key(f) || (exists|jj: int|
                        0 <= jj < j && f == filename_of_ts(entries0[jj].0@, now)),
                forall|f: Seq<char>| #![auto]
                    store0.contains_key(f) && !(exists|jj: int|
                        0 <= jj < j && f == filename_of_ts(entries0[jj].0@, now)) ==> self.store()[
                        f] == store0[f],
            decreases entries0.len() - j,
        {
            let fname = Self::build_kline_filename(self.all_klines.entries[j].0.as_str(), now);
            let ghost pre_store = self.store();
            self.storage_manager.save_klines(&self.all_klines.entries[j].1.klines, &fname);
            proof {
                assert forall|jj: int| 0 <= jj < j implies filename_of_ts(entries0[jj].0@, now)
                    != fname@ by {
                    assert(entries0[jj].0@ != entries0[j as int].0@);
                    lemma_filename_injective(
                        entries0[jj].0@,
                        entries0[j as int].0@,
                        year_of_ts(now),
                        month_of_ts(now),
                    );
                }
                assert(pre_store.contains_key(fname@) <==> store0.contains_key(fname@));
                if store0.contains_key(fname@) {
                    assert(pre_store[fname@] == store0[fname@]);
                }
            }
            j = j + 1;
        }
        let ghost store1 = self.store();
        let ghost sm1 = self.storage_manager;
        let mut j2: usize = 0;
        while j2 < self.all_klines.entries.len()
            invariant
                old(self).wf(),
                j2 <= entries0.len(),
                self.all_klines.entries@.len() == entries0.len(),
                entries0 == old(self).all_klines.entries@,
                self.all_tickers == old(self).all_tickers,
                self.last_backup == old(self).last_backup,
                self.storage_manager == sm1,
                sm1.wf(),
                forall|jj: int|
                    j2 <= jj < entries0.len() ==> #[trigger] self.all_klines.entries@[jj]
                        == entries0[jj],
                forall|jj: int|
                    0 <= jj < j2 ==> {
                        let e = #[trigger] self.all_klines.entries@[jj];
                        e.0 == entries0[jj].0 && e.1.klines@ == Seq::<Kline>::empty() && e.1.wf()
                            && e.1.meta.symbol == entries0[jj].1.meta.symbol && e.1.meta.interval
                            == entries0[jj].1.meta.interval
                    },
            decreases entries0.len() - j2,
        {
            let stored_key = self.all_klines.entries[j2].0.clone();
            let mut kd = self.all_klines.entries[j2].1.clone();
            kd.clear_klines();
            let ghost gk = stored_key;
            let ghost gkd = kd;
            let ghost pre_entries = self.all_klines.entries@;
            self.all_klines.entries[j2] = (stored_key, kd);
            proof {
                assert(self.all_klines.entries@ == pre_entries.update(j2 as int, (gk, gkd)));
            }
            j2 = j2 + 1;
        }
        self.last_backup = now;
        proof {
            let fin = self.all_klines.entries@;
            assert forall|a: int, b: int| 0 <= a < b < fin.len() implies fin[a].0@ != fin[b].0@ by {
                assert(fin[a].0 == entries0[a].0);
                assert(fin[b].0 == entries0[b].0);
                assert(entries0[a].0@ != entries0[b].0@);
            }
            assert forall|k: Seq<char>|
                self.buffers().contains_key(k) <==> old(self).buffers().contains_key(k) by {
                lemma_assoc_contains(fin, k);
                lemma_assoc_contains(entries0, k);
                assert(contains_str_key(fin, k) <==> contains_str_key(entries0, k)) by {
                    if contains_str_key(fin, k) {
                        let i = choose|i: int| 0 <= i < fin.len() && fin[i].0@ == k;
                        assert(entries0[i].0@ == k);
                    }
                    if contains_str_key(entries0, k) {
                        let i = choose|i: int| 0 <= i < entries0.len() && entries0[i].0@ == k;
                        assert(fin[i].0@ == k);
                    }
                }
            }
            assert(self.buffers().dom() =~= old(self).buffers().dom());
            assert forall|k: Seq<char>| #![auto]
                old(self).buffers().contains_key(k) implies self.buffers()[k] == Seq::<
                Kline,
            >::empty() by {
                lemma_assoc_contains(fin, k);
                let i = choose|i: int| 0 <= i < fin.len() && fin[i].0@ == k;
                lemma_assoc_at(fin, i);
            }
            assert forall|k: Seq<char>| #![auto]
                old(self).buffers().contains_key(k) implies self.store().contains_key(
                filename_of_ts(k, now),
            ) && self.store()[filename_of_ts(k, now)] == (if old(self).store().contains_key(
                filename_of_ts(k, now),
            ) {
                old(self).store()[filename_of_ts(k, now)]
            } else {
                Seq::<Kline>::empty()
            }) + old(self).buffers()[k] by {
                lemma_assoc_contains(entries0, k);
                let i = choose|i: int| 0 <= i < entries0.len() && entries0[i].0@ == k;
                lemma_assoc_at(entries0, i);
            }
            assert forall|f: Seq<char>| #![auto]
                self.store().contains_key(f) <==> old(self).store().contains_key(f) || (exists|
                k: Seq<char>,
            |
                old(self).buffers().contains_key(k) && f == filename_of_ts(k, now)) by {
                if self.store().contains_key(f) && !old(self).store().contains_key(f) {
                    let jj = choose|jj: int|
                        0 <= jj < entries0.len() && f == filename_of_ts(entries0[jj].0@, now);
                    lemma_assoc_at(entries0, jj);
                    lemma_assoc_contains(entries0, entries0[jj].0@);
                    assert(old(self).buffers().contains_key(entries0[jj].0@));
                }
                if exists|k: Seq<char>|
                    old(self).buffers().contains_key(k) && f == filename_of_ts(k, now) {
                    let k = choose|k: Seq<char>|
                        old(self).buffers().contains_key(k) && f == filename_of_ts(k, now);
                    lemma_assoc_contains(entries0, k);
                    let i = choose|i: int| 0 <= i < entries0.len() && entries0[i].0@ == k;
                    assert(f == filename_of_ts(entries0[i].0@, now));
                }
            }
            assert forall|f: Seq<char>| #![auto]
                old(self).store().contains_key(f) && !(exists|k: Seq<char>|
                    old(self).buffers().contains_key(k) && f == filename_of_ts(k, now)) implies
                self.store()[f] == old(self).store()[f] by {
                if exists|jj: int|
                    0 <= jj < entries0.len() && f == filename_of_ts(entries0[jj].0@, now) {
                    let jj = choose|jj: int|
                        0 <= jj < entries0.len() && f == filename_of_ts(entries0[jj].0@, now);
                    lemma_assoc_at(entries0, jj);
                    lemma_assoc_contains(entries0, entries0[jj].0@);
                    assert(old(self).buffers().contains_key(entries0[jj].0@));
                }
            }
        }
    }

    /// What one kline ingestion does. The kline joins the buffer of its
    /// key (`pre` below names the buffers right after that append).
    /// Without a due flush that is all: buffers show the append, store and
    /// clock stand. With a flush due, every buffered series — the new
    /// kline included — is appended to the store under its key's storage
    /// key for `now`'s month, every buffer is emptied, no other storage
    /// key changes, and the clock restarts at `now`. Tickers never change.
    pub open spec fn kline_added(pre_state: MarketData, post: MarketData, kline: Kline, now: u64) -> bool {
        let key = kline_key_chars(kline.symbol@, kline.interval@);
        let buf0 = if pre_state.buffers().contains_key(key) {
            pre_state.buffers()[key]
        } else {
            Seq::<Kline>::empty()
        };
        let pre = pre_state.buffers().insert(key, buf0.push(kline));
        &&& post.tickers() == pre_state.tickers()
        &&& if pre_state.flush_due(now) {
            &&& post.last_backup == now
            &&& post.buffers().dom() == pre.dom()
            &&& forall|k: Seq<char>| #![auto]
                pre.contains_key(k) ==> post.buffers()[k] == Seq::<Kline>::empty()
            &&& forall|k: Seq<char>| #![auto]
                pre.contains_key(k) ==> post.store().contains_key(filename_of_ts(k, now))
                    && post.store()[filename_of_ts(k, now)] == (if pre_state.store().contains_key(
                    filename_of_ts(k, now),
                ) {
                    pre_state.store()[filename_of_ts(k, now)]
                } else {
                    Seq::<Kline>::empty()
                }) + pre[k]
            &&& forall|f: Seq<char>| #![auto]
                post.store().contains_key(f) <==> pre_state.store().contains_key(f) || (exists|
                    k: Seq<char>,
                |
                    pre.contains_key(k) && f == filename_of_ts(k, now))
            &&& forall|f: Seq<char>| #![auto]
                pre_state.store().contains_key(f) && !(exists|k: Seq<char>|
                    pre.contains_key(k) && f == filename_of_ts(k, now)) ==> post.store()[f]
                    == pre_state.store()[f]
        } else {
            &&& post.last_backup == pre_state.last_backup
            &&& post.buffers() == pre
            &&& post.store() == pre_state.store()
        }
    }

    /// Appends `kline` to the series of its symbol and interval, creating
    /// the series on first sight. If more than the flush threshold of
    /// wall-clock time has passed since the last flush, every buffered
    /// series (the new kline included) is then written to the durable
    /// store and every buffer is emptied.
    pub fn add_kline(&mut self, kline: Kline, now: u64)
        requires
            old(self).wf(),
        ensures
            final(self).wf(),
            Self::kline_added(*old(self), *final(self), kline, now),
    {
        let kline_key = Self::build_kline_key(kline.symbol.as_str(), kline.interval.as_str());
        proof {
            lemma_assoc_contains(self.all_klines.entries@, kline_key@);
        }
        match self.all_klines.index_of(&kline_key) {
            Some(i) => {
                proof {
                    lemma_assoc_at(self.all_klines.entries@, i as int);
                }
                let ghost pre0 = self.all_klines.entries@;
                let mut kd = self.all_klines.entries[i].1.clone();
                kd.add_kline(kline, now);
                let ghost gk = kline_key;
                let ghost gkd = kd;
                self.all_klines.entries[i] = (kline_key, kd);
                proof {
                    assert(self.all_klines.entries@ == pre0.update(i as int, (gk, gkd)));
                    lemma_assoc_update(pre0, i as int, gk, gkd);
                    assert(self.buffers() =~= old(self).buffers().insert(gk@, gkd.klines@));
                }
            },
            None => {
                let sym = kline.symbol.clone();
                let itv = kline.interval.clone();
                let mut kv: Vec<Kline> = Vec::new();
                kv.push(kline);
                let kd = KlineData {
                    meta: KlineMeta { symbol: sym, interval: itv, len: 1, last_update: now },
                    klines: kv,
                };
                let ghost pre0 = self.all_klines.entries@;
                let ghost gk = kline_key;
                let ghost gkd = kd;
                self.all_klines.entries.push((kline_key, kd));
                proof {
                    assert(self.all_klines.entries@ == pre0.push((gk, gkd)));
                    lemma_assoc_push(pre0, gk, gkd);
                    assert(self.buffers() =~= old(self).buffers().insert(gk@, gkd.klines@));
                    assert(gkd.klines@ =~= Seq::<Kline>::empty().push(gkd.klines@[0]));
                }
            },
        }
        if now >= self.last_backup && now - self.last_backup >= BACKUP_INTERVAL_MS {
            self.flush_all(now);
        }
    }

    /// Reconstructs the klines of `symbol` and `interval` over an optional
    /// time range.
    ///
    /// With `from_ts` given, the durable batches of every month from
    /// `from_ts` through `to_ts` (or `now` when `to_ts` is absent) are
    /// loaded — a month with nothing stored is skipped — and concatenated
    /// with the in-memory buffer; the result is filtered to
    /// `open_time ∈ [from_ts, to_ts]`. Without `from_ts` only the
    /// in-memory buffer is considered and no filter applies. The survivors
    /// are sorted ascending by `open_time` and, when `limit` is given, cut
    /// to the first `limit` entries. An empty result is `None`.
    ///
    /// The survivors are `Self::query_kept` of the pre-state; the result
    /// holds the first `Self::cut_count` entries of a sorted permutation
    /// of them.
    #[verifier::rlimit(60)]
    pub fn kline_data(
        &mut self,
        symbol: &str,
        interval: &str,
        from_ts: Option<u64>,
        to_ts: Option<u64>,
        limit: Option<usize>,
        now: u64,
    ) -> (r: Option<KlineData>)
        requires
            old(self).wf(),
        ensures
            *final(self) == *old(self),
            r is Some <==> cut_count(
                Self::query_kept(*old(self), symbol@, interval@, from_ts, to_ts, now),
                limit,
            ) > 0,
            match r {
                Some(kd) => kd.klines@.len() == cut_count(
                    Self::query_kept(*old(self), symbol@, interval@, from_ts, to_ts, now),
                    limit,
                ),
                None => true,
            },
            match r {
                Some(kd) => sorted_by_open_time(kd.klines@),
                None => true,
            },
            match r {
                Some(kd) => sorted_prefix_of(
                    kd.klines@,
                    Self::query_kept(*old(self), symbol@, interval@, from_ts, to_ts, now),
                ),
                None => true,
            },
            match r {
                Some(kd) => kd.meta.symbol@ == symbol@ && kd.meta.interval@ == interval@
                    && kd.meta.len == cut_count(
                    Self::query_kept(*old(self), symbol@, interval@, from_ts, to_ts, now),
                    limit,
                ) && kd.meta.last_update == now && kd.wf(),
                None => true,
            },
    {
        let ghost key = kline_key_chars(symbol@, interval@);
        let ghost mem = if old(self).buffers().contains_key(key) {
            old(self).buffers()[key]
        } else {
            Seq::<Kline>::empty()
        };
        let kline_key = Self::build_kline_key(symbol, interval);
        proof {
            lemma_assoc_contains(self.all_klines.entries@, kline_key@);
        }
        let in_mem: Vec<Kline> = match self.all_klines.index_of(&kline_key) {
            Some(i) => {
                proof {
                    lemma_assoc_at(self.all_klines.entries@, i as int);
                }
                clone_klines(&self.all_klines.entries[i].1.klines)
            },
            None => Vec::new(),
        };
        proof {
            assert(in_mem@ == mem);
        }
        let mut merged: Vec<Kline> = Vec::new();
        match from_ts {
            Some(f) => {
                let to_eff = match to_ts {
                    Some(t) => t,
                    None => now,
                };
                let ghost lo = month_index_of_ts(f);
                let ghost n_months = month_span(f, to_eff);
                let filenames = generate_kline_filenames_in_range(kline_key.as_str(), f, to_eff);
                let mut fi: usize = 0;
                while fi < filenames.len()
                    invariant
                        self.wf(),
                        fi <= filenames@.len(),
                        filenames@.len() == n_months,
                        kline_key@ == kline_key_chars(symbol@, interval@),
                        forall|i: int|
                            0 <= i < filenames@.len() ==> (#[trigger] filenames@[i])@
                                == filename_of_month_index(kline_key@, lo + i),
                        merged@ == disk_months(self.store(), kline_key@, lo, fi as nat),
                    decreases filenames@.len() - fi,
                {
                    match self.storage_manager.load_klines(&filenames[fi]) {
                        Some(batch) => {
                            append_klines(&mut merged, &batch);
                        },
                        None => {},
                    }
                    proof {
                        assert(merged@ =~= disk_months(
                            self.store(),
                            kline_key@,
                            lo,
                            (fi + 1) as nat,
                        ));
                    }
                    fi = fi + 1;
                }
            },
            None => {},
        }
        append_klines(&mut merged, &in_mem);
        let ghost disk = (match from_ts {
            Some(f) => disk_months(
                old(self).store(),
                key,
                month_index_of_ts(f),
                month_span(f, match to_ts {
                    Some(t) => t,
                    None => now,
                }),
            ),
            None => Seq::<Kline>::empty(),
        });
        proof {
            assert(merged@ =~= disk + mem);
        }
        let kept_vec = filter_klines_in_range(&merged, from_ts, to_ts);
        let ghost kept = (disk + mem).filter(|k: Kline| in_time_range(k, from_ts, to_ts));
        proof {
            assert(kept_vec@ == kept);
            assert(kept == Self::query_kept(*old(self), symbol@, interval@, from_ts, to_ts, now));
        }
        let sorted = sort_klines_by_open_time(&kept_vec);
        let ghost full = sorted@;
        let mut cut = sorted;
        match limit {
            Some(l) => {
                cut.truncate(l);
            },
            None => {},
        }
        proof {
            assert(full.take(cut@.len() as int) =~= cut@);
            assert(cut@.len() as int == cut_count(kept, limit));
        }
        let n = cut.len();
        if n == 0 {
            None
        } else {
            let kd = KlineData {
                meta: KlineMeta {
                    symbol: symbol.to_owned(),
                    interval: interval.to_owned(),
                    len: n as u64,
                    last_update: now,
                },
                klines: cut,
            };
            proof {
                let rest = full.skip(n as int);
                assert(kd.klines@ + rest =~= full);
                assert((kd.klines@ + rest).to_multiset() == kept.to_multiset());
                assert(sorted_by_open_time(kd.klines@ + rest));
                assert(sorted_prefix_of(kd.klines@, kept));
            }
            Some(kd)
        }
    }

    /// The ticker entry stored for `symbol`, if any.
    pub fn ticker_data(&self, symbol: &str) -> (r: Option<TickerData>)
        requires
            self.wf(),
        ensures
            match r {
                Some(td) => self.tickers().contains_key(ticker_key_chars(symbol@)) && td
                    == self.tickers()[ticker_key_chars(symbol@)],
                None => !self.tickers().contains_key(ticker_key_chars(symbol@)),
            },
    {
        let ticker_key = Self::build_ticker_key(symbol);
        match self.all_tickers.get(&ticker_key) {
            Some(td) => Some(td.clone()),
            None => None,
        }
    }

    /// Builds the cache key of a kline series.
    pub fn build_kline_key(symbol: &str, interval: &str) -> (r: String)
        ensures
            r@ == kline_key_chars(symbol@, interval@),
    {
        let mut s = symbol.to_owned();
        s.append("@kline_");
        proof {
            reveal_strlit("@kline_");
            assert(s@ =~= symbol@ + seq!['@', 'k', 'l', 'i', 'n', 'e', '_']);
        }
        s.append(interval);
        proof {
            assert(s@ =~= kline_key_chars(symbol@, interval@));
        }
        s
    }

    /// Builds the cache key of a ticker.
    pub fn build_ticker_key(symbol: &str) -> (r: String)
        ensures
            r@ == ticker_key_chars(symbol@),
    {
        let mut s = symbol.to_owned();
        s.append("@ticker");
        proof {
            reveal_strlit("@ticker");
            assert(s@ =~= ticker_key_chars(symbol@));
        }
        s
    }

    /// Builds the storage key of `kline_key` for the month `timestamp`
    /// falls in.
    pub fn build_kline_filename(kline_key: &str, timestamp: u64) -> (r: String)
        ensures
            r@ == filename_of_ts(kline_key@, timestamp),
    {
        let (y, m) = year_month_of_ts(timestamp);
        Self::build_kline_filename_from_year_month(kline_key, y as u32, m as u32)
    }

    /// Builds the storage key of `kline_key` for an explicit year and
    /// month.
    pub fn build_kline_filename_from_year_month(kline_key: &str, year: u32, month: u32) -> (r:
        String)
        ensures
            r@ == filename_chars(kline_key@, year as int, month as int),
    {
        let mut s = kline_key.to_owned();
        s.append("-");
        proof {
            reveal_strlit("-");
        }
        let ym = year_month_string(year as u64, month as u64);
        s.append(ym.as_str());
        s.append(".csv");
        proof {
            reveal_strlit(".csv");
            assert(s@ =~= filename_chars(kline_key@, year as int, month as int));
        }
        s
    }

    /// Renders `"{YYYY}-{MM}"` of the month `timestamp` falls in.
    pub fn build_kline_month_string(timestamp: u64) -> (r: String)
        ensures
            r@ == month_chars_of_ts(timestamp),
    {
        let (y, m) = year_month_of_ts(timestamp);
        year_month_string(y, m)
    }

    /// Applies one channel update to the cache: a kline ingests, a ticker
    /// replaces. The ingestion actor — the cache's sole writer — calls
    /// this for every message it drains, in arrival order.
    pub fn apply_message(&mut self, message: MarketMessage, now: u64)
        requires
            old(self).wf(),
        ensures
            final(self).wf(),
            match message {
                MarketMessage::UpdateKline(k) => Self::kline_added(
                    *old(self),
                    *final(self),
                    k,
                    now,
                ),
                MarketMessage::UpdateTicker(t) => Self::ticker_updated(
                    *old(self),
                    *final(self),
                    t,
                    now,
                ),
            },
    {
        match message {
            MarketMessage::UpdateKline(k) => self.add_kline(k, now),
            MarketMessage::UpdateTicker(t) => self.update_ticker(t, now),
        }
    }
}

impl Clone for MarketData {
    fn clone(&self) -> (r: Self)
        ensures
            self.wf() ==> r.wf(),
            r.buffers() == self.buffers(),
            r.tickers() == self.tickers(),
            r.store() == self.store(),
            r.last_backup == self.last_backup,
    {
        let src_k = &self.all_klines.entries;
        let mut kentries: Vec<(String, KlineData)> = Vec::new();
        let mut i: usize = 0;
        while i < src_k.len()
            invariant
                i <= src_k@.len(),
                kentries@.len() == i,
                forall|j: int|
                    0 <= j < i ==> {
                        let e = #[trigger] kentries@[j];
                        e.0 == src_k@[j].0 && e.1.meta == src_k@[j].1.meta && e.1.klines@
                            == src_k@[j].1.klines@
                    },
            decreases src_k@.len() - i,
        {
            let ck = src_k[i].0.clone();
            let cv = src_k[i].1.clone();
            let ghost gk = ck;
            let ghost gv = cv;
            let ghost pre = kentries@;
            kentries.push((ck, cv));
            proof {
                assert(kentries@ == pre.push((gk, gv)));
                assert forall|j: int|
                    0 <= j < i + 1 implies {
                    let e = #[trigger] kentries@[j];
                    e.0 == src_k@[j].0 && e.1.meta == src_k@[j].1.meta && e.1.klines@
                        == src_k@[j].1.klines@
                } by {
                    if j < i {
                        assert(kentries@[j] == pre[j]);
                    } else {
                        assert(kentries@[j] == (gk, gv));
                    }
                }
            }
            i = i + 1;
        }
        let src_t = &self.all_tickers.entries;
        let mut tentries: Vec<(String, TickerData)> = Vec::new();
        let mut t: usize = 0;
        while t < src_t.len()
            invariant
                t <= src_t@.len(),
                tentries@.len() == t,
                forall|j: int| 0 <= j < t ==> #[trigger] tentries@[j] == src_t@[j],
            decreases src_t@.len() - t,
        {
            let ck = src_t[t].0.clone();
            let cv = src_t[t].1.clone();
            let ghost gk = ck;
            let ghost gv = cv;
            let ghost pre = tentries@;
            tentries.push((ck, cv));
            proof {
                assert(tentries@ == pre.push((gk, gv)));
                assert forall|j: int| 0 <= j < t + 1 implies #[trigger] tentries@[j] == src_t@[j] by {
                    if j < t {
                        assert(tentries@[j] == pre[j]);
                    } else {
                        assert(tentries@[j] == (gk, gv));
                        assert(gk == src_t@[j].0 && gv == src_t@[j].1);
                    }
                }
            }
            t = t + 1;
        }
        let r = MarketData {
            all_klines: Table { entries: kentries },
            all_tickers: Table { entries: tentries },
            storage_manager: self.storage_manager.clone(),
            last_backup: self.last_backup,
        };
        proof {
            lemma_assoc_map_values_congruent(
                r.all_klines.entries@,
                self.all_klines.entries@,
                |kd: KlineData| kd.klines@,
            );
            assert(r.all_tickers.entries@ =~= self.all_tickers.entries@);
            if self.wf() {
                assert forall|a: int, b: int|
                    0 <= a < b < r.all_klines.entries@.len() implies r.all_klines.entries@[a].0@
                    != r.all_klines.entries@[b].0@ by {
                    assert((r.all_klines.entries@[a]).0 == self.all_klines.entries@[a].0);
                    assert((r.all_klines.entries@[b]).0 == self.all_klines.entries@[b].0);
                    assert(self.all_klines.entries@[a].0@ != self.all_klines.entries@[b].0@);
                }
                assert forall|j: int|
                    0 <= j < r.all_klines.entries@.len() implies {
                    let e = #[trigger] r.all_klines.entries@[j];
                    e.1.wf() && e.0@ == kline_key_chars(e.1.meta.symbol@, e.1.meta.interval@)
                } by {
                    let e = r.all_klines.entries@[j];
                    let o = self.all_klines.entries@[j];
                    assert(e.0 == o.0 && e.1.meta == o.1.meta && e.1.klines@ == o.1.klines@);
                    assert(o.1.wf() && o.0@ == kline_key_chars(o.1.meta.symbol@, o.1.meta.interval@));
                }
            }
        }
        r
    }
}

/// Law: tickers are latest-only per key. After updates A then B for one
/// symbol — in that arrival order — only B's value is retrievable for
/// that symbol, whatever else the two updates touched.
pub proof fn lemma_ticker_last_write_wins(
    s0: MarketData,
    s1: MarketData,
    s2: MarketData,
    a: Ticker,
    b: Ticker,
    ta: u64,
    tb: u64,
)
    requires
        MarketData::ticker_updated(s0, s1, a, ta),
        MarketData::ticker_updated(s1, s2, b, tb),
        a.symbol@ == b.symbol@,
    ensures
        s2.tickers().contains_key(ticker_key_chars(b.symbol@)),
        s2.tickers()[ticker_key_chars(b.symbol@)].ticker == b,
{
    assert(s2.tickers().dom().contains(ticker_key_chars(b.symbol@)));
}

/// The market core a caller sees: the cache plus the externally declared
/// set of streams that should be kept alive. The update channel, the
/// exchange adapter and the background tasks live outside the crate and
/// drive this state through its methods.
pub struct Market {
    pub data: MarketData,
    pub needed_streams: Vec<StreamMeta>,
}

impl Market {
    /// The market is well formed when its cache is.
    pub open spec fn wf(&self) -> bool {
        self.data.wf()
    }

    /// A market over a fresh cache and an empty needed set.
    pub fn new(storage_manager: StorageManager, now: u64) -> (r: Self)
        requires
            storage_manager.wf(),
        ensures
            r.wf(),
            r.data.buffers() == Map::<Seq<char>, Seq<Kline>>::empty(),
            r.data.tickers() == Map::<Seq<char>, TickerData>::empty(),
            r.data.store() == storage_manager@,
            r.data.last_backup == now,
            r.needed_streams@ == Seq::<StreamMeta>::empty(),
    {
        Market { data: MarketData::new(storage_manager, now), needed_streams: Vec::new() }
    }

    /// The latest traded price of `symbol`, if a ticker has arrived.
    pub fn last_price(&self, symbol: &str) -> (r: Option<u64>)
        requires
            self.wf(),
        ensures
            match r {
                Some(p) => self.data.tickers().contains_key(ticker_key_chars(symbol@)) && p
                    == self.data.tickers()[ticker_key_chars(symbol@)].ticker.last_price,
                None => !self.data.tickers().contains_key(ticker_key_chars(symbol@)),
            },
    {
        match self.data.ticker_data(symbol) {
            Some(td) => Some(td.ticker.last_price),
            None => None,
        }
    }

    /// The range query of `MarketData::kline_data`, against this market's
    /// cache.
    pub fn kline_data(
        &mut self,
        symbol: &str,
        interval: &str,
        from_ts: Option<u64>,
        to_ts: Option<u64>,
        limit: Option<usize>,
        now: u64,
    ) -> (r: Option<KlineData>)
        requires
            old(self).wf(),
        ensures
            *final(self) == *old(self),
            r is Some <==> cut_count(
                MarketData::query_kept(old(self).data, symbol@, interval@, from_ts, to_ts, now),
                limit,
            ) > 0,
            match r {
                Some(kd) => kd.klines@.len() == cut_count(
                    MarketData::query_kept(old(self).data, symbol@, interval@, from_ts, to_ts, now),
                    limit,
                ),
                None => true,
            },
            match r {
                Some(kd) => sorted_by_open_time(kd.klines@),
                None => true,
            },
            match r {
                Some(kd) => sorted_prefix_of(
                    kd.klines@,
                    MarketData::query_kept(old(self).data, symbol@, interval@, from_ts, to_ts, now),
                ),
                None => true,
            },
            match r {
                Some(kd) => kd.meta.symbol@ == symbol@ && kd.meta.interval@ == interval@
                    && kd.meta.last_update == now && kd.wf(),
                None => true,
            },
    {
        self.data.kline_data(symbol, interval, from_ts, to_ts, limit, now)
    }

    /// The ticker entry stored for `symbol`, if any.
    pub fn ticker_data(&self, symbol: &str) -> (r: Option<TickerData>)
        requires
            self.wf(),
        ensures
            match r {
                Some(td) => self.data.tickers().contains_key(ticker_key_chars(symbol@)) && td
                    == self.data.tickers()[ticker_key_chars(symbol@)],
                None => !self.data.tickers().contains_key(ticker_key_chars(symbol@)),
            },
    {
        self.data.ticker_data(symbol)
    }

    /// A snapshot of the whole cache.
    pub fn market_data(&self) -> (r: MarketData)
        requires
            self.wf(),
        ensures
            r.wf(),
            r.buffers() == self.data.buffers(),
            r.tickers() == self.data.tickers(),
            r.store() == self.data.store(),
            r.last_backup == self.data.last_backup,
    {
        self.data.clone()
    }

    /// Declares that a feed for `symbol` should be kept alive: appends its
    /// meta — under the deterministic stream id — to the needed set. The
    /// cache is untouched; nothing is opened here.
    pub fn add_needed_stream(
        &mut self,
        symbol: &str,
        stream_type: StreamType,
        interval: Option<&str>,
        url: &str,
        now: u64,
    )
        ensures
            final(self).data == old(self).data,
            final(self).needed_streams@.len() == old(self).needed_streams@.len() + 1,
            final(self).needed_streams@.take(old(self).needed_streams@.len() as int)
                == old(self).needed_streams@,
            ({
                let m = final(self).needed_streams@.last();
                &&& m.id@ == stream_id_spec(symbol@, opt_str_view(interval))
                &&& m.symbol@ == symbol@
                &&& m.stream_type == stream_type
                &&& m.url@ == url@
                &&& opt_string_view(m.interval) == opt_str_view(interval)
                &&& m.open
                &&& m.last_update == now
                &&& m.created_at == now
            }),
    {
        let id = build_stream_id(symbol, interval);
        let itv: Option<String> = match interval {
            Some(s) => Some(s.to_owned()),
            None => None,
        };
        let meta = StreamMeta::new(id.as_str(), url, symbol, stream_type, itv, now);
        self.needed_streams.push(meta);
        proof {
            assert(self.needed_streams@.take(old(self).needed_streams@.len() as int)
                =~= old(self).needed_streams@);
        }
    }

    /// Withdraws the declaration for `symbol` (+ interval): drops every
    /// needed meta under that stream id. A live feed is not closed by
    /// this; the supervisor merely stops re-opening it.
    pub fn remove_needed_stream(
        &mut self,
        symbol: &str,
        _stream_type: StreamType,
        interval: Option<&str>,
    )
        ensures
            final(self).data == old(self).data,
            final(self).needed_streams@ == old(self).needed_streams@.filter(
                (|m: StreamMeta| m.id@ != stream_id_spec(symbol@, opt_str_view(interval))),
            ),
    {
        let ghost pred = |m: StreamMeta| m.id@ != stream_id_spec(symbol@, opt_str_view(interval));
        let id = build_stream_id(symbol, interval);
        let mut kept: Vec<StreamMeta> = Vec::new();
        proof {
            assert(self.needed_streams@.take(0).filter(pred) =~= kept@);
        }
        let mut i: usize = 0;
        while i < self.needed_streams.len()
            invariant
                i <= self.needed_streams@.len(),
                self.needed_streams@ == old(self).needed_streams@,
                self.data == old(self).data,
                id@ == stream_id_spec(symbol@, opt_str_view(interval)),
                kept@ == self.needed_streams@.take(i as int).filter(pred),
                pred == (|m: StreamMeta| m.id@ != stream_id_spec(symbol@, opt_str_view(interval))),
            decreases self.needed_streams@.len() - i,
        {
            let keep = !(self.needed_streams[i].id == id);
            if keep {
                kept.push(self.needed_streams[i].clone());
            }
            proof {
                let prefix = self.needed_streams@.take(i as int);
                prefix.lemma_filter_push(self.needed_streams@[i as int], pred);
                assert(self.needed_streams@.take(i + 1 as int) =~= prefix.push(
                    self.needed_streams@[i as int],
                ));
                assert(keep == pred(self.needed_streams@[i as int]));
            }
            i = i + 1;
        }
        proof {
            assert(self.needed_streams@.take(self.needed_streams@.len() as int)
                =~= self.needed_streams@);
        }
        self.needed_streams = kept;
    }
}

/// Law: kline updates land in arrival order. Ingesting A then B under
/// one key, with no flush intervening, leaves the key's buffer as it was
/// with A and then B appended — so the cache reflects channel order.
pub proof fn lemma_kline_arrival_order(
    s0: MarketData,
    s1: MarketData,
    s2: MarketData,
    a: Kline,
    b: Kline,
    ta: u64,
    tb: u64,
)
    requires
        MarketData::kline_added(s0, s1, a, ta),
        MarketData::kline_added(s1, s2, b, tb),
        a.symbol@ == b.symbol@,
        a.interval@ == b.interval@,
        !s0.flush_due(ta),
        !s1.flush_due(tb),
    ensures
        ({
            let key = kline_key_chars(a.symbol@, a.interval@);
            let buf0 = if s0.buffers().contains_key(key) {
                s0.buffers()[key]
            } else {
                Seq::<Kline>::empty()
            };
            s2.buffers().contains_key(key) && s2.buffers()[key] == buf0.push(a).push(b)
        }),
{
    let key = kline_key_chars(a.symbol@, a.interval@);
    assert(kline_key_chars(b.symbol@, b.interval@) == key);
    assert(s1.buffers().dom().contains(key));
}

/// The storage keys of every month touched by `[from_ts, to_ts]`: the
/// month of `from_ts` first, then one per following month through the
/// month of `to_ts`. A range that ends before it starts yields just the
/// starting month.
pub fn generate_kline_filenames_in_range(kline_key: &str, from_ts: u64, to_ts: u64) -> (r: Vec<
    String>)
    ensures
        ({
            let lo = month_index_of_ts(from_ts);
            let hi = month_index_of_ts(to_ts);
            &&& r@.len() == if hi >= lo {
                hi - lo + 1
            } else {
                1
            }
            &&& forall|i: int|
                0 <= i < r@.len() ==> (#[trigger] r@[i])@ == filename_of_month_index(
                    kline_key@,
                    lo + i,
                )
        }),
{
    let (y1, m1) = year_month_of_ts(from_ts);
    let (y2, m2) = year_month_of_ts(to_ts);
    let mut y = y1;
    let mut m = m1;
    let mut idx: u64 = y1 * 12 + (m1 - 1);
    let idx2: u64 = y2 * 12 + (m2 - 1);
    let ghost lo = month_index_of_ts(from_ts);
    let ghost hi = month_index_of_ts(to_ts);
    proof {
        assert(idx as int == lo);
        assert(idx2 as int == hi);
        lemma_month_index_parts(y as int, m as int);
    }
    let mut out: Vec<String> = Vec::new();
    let first = MarketData::build_kline_filename_from_year_month(kline_key, y as u32, m as u32);
    out.push(first);
    while idx < idx2
        invariant
            1 <= m <= 12,
            y as int * 12 + m as int - 1 == idx as int,
            lo <= idx as int,
            lo <= hi ==> idx as int <= hi,
            lo > hi ==> idx as int == lo,
            idx2 as int == hi,
            y2 < 600000000,
            y2 as int * 12 + m2 as int - 1 == hi,
            1 <= m2 <= 12,
            out@.len() == idx as int - lo + 1,
            forall|i: int|
                0 <= i < out@.len() ==> (#[trigger] out@[i])@ == filename_of_month_index(
                    kline_key@,
                    lo + i,
                ),
        decreases idx2 as int - idx as int,
    {
        if m == 12 {
            m = 1;
            y = y + 1;
        } else {
            m = m + 1;
        }
        idx = idx + 1;
        proof {
            lemma_month_index_parts(y as int, m as int);
        }
        let f = MarketData::build_kline_filename_from_year_month(kline_key, y as u32, m as u32);
        let ghost pre = out@;
        out.push(f);
        proof {
            assert forall|i: int|
                0 <= i < out@.len() implies (#[trigger] out@[i])@ == filename_of_month_index(
                kline_key@,
                lo + i,
            ) by {
                if i < pre.len() {
                    assert(out@[i] == pre[i]);
                } else {
                    assert(out@[i]@ == filename_chars(kline_key@, y as int, m as int));
                }
            }
        }
    }
    out
}

} // verus!
