//! Candlestick records and the per-key series the cache buffers in memory.
//! Prices and volumes are fixed-point integers (scaled units chosen by the
//! caller), so every field is a plain value the contracts can speak about.

use vstd::prelude::*;
use crate::market::MarketDataSymbol;

verus! {

/// One candlestick. `open_time` uniquely identifies a candle within a
/// symbol+interval series. Immutable once constructed.
#[derive(Debug)]
pub struct Kline {
    pub symbol: String,
    pub interval: String,
    pub open_time: u64,
    pub open: u64,
    pub high: u64,
    pub low: u64,
    pub close: u64,
    pub volume: u64,
    pub close_time: u64,
}

impl Clone for Kline {
    fn clone(&self) -> (r: Self)
        ensures
            r == *self,
    {
        Kline {
            symbol: self.symbol.clone(),
            interval: self.interval.clone(),
            open_time: self.open_time,
            open: self.open,
            high: self.high,
            low: self.low,
            close: self.close,
            volume: self.volume,
            close_time: self.close_time,
        }
    }
}

impl MarketDataSymbol for Kline {
    open spec fn symbol_spec(&self) -> Seq<char> {
        self.symbol@
    }

    fn symbol(&self) -> (r: String) {
        self.symbol.clone()
    }
}

/// Metadata of one buffered series: identity, count and last update time.
#[derive(Debug)]
pub struct KlineMeta {
    pub symbol: String,
    pub interval: String,
    pub len: u64,
    pub last_update: u64,
}

impl Clone for KlineMeta {
    fn clone(&self) -> (r: Self)
        ensures
            r == *self,
    {
        KlineMeta {
            symbol: self.symbol.clone(),
            interval: self.interval.clone(),
            len: self.len,
            last_update: self.last_update,
        }
    }
}

impl KlineMeta {
    /// Fresh metadata for an empty series.
    pub fn new(symbol: &str, interval: &str) -> (r: Self)
        ensures
            r.symbol@ == symbol@,
            r.interval@ == interval@,
            r.len == 0,
            r.last_update == 0,
    {
        KlineMeta { symbol: symbol.to_owned(), interval: interval.to_owned(), len: 0, last_update: 0 }
    }
}

/// One symbol+interval series: metadata plus the klines buffered in memory
/// since the last flush. Flushed klines live only in the durable store.
#[derive(Debug)]
pub struct KlineData {
    pub meta: KlineMeta,
    pub klines: Vec<Kline>,
}

impl Clone for KlineData {
    fn clone(&self) -> (r: Self)
        ensures
            r.meta == self.meta,
            r.klines@ == self.klines@,
    {
        KlineData { meta: self.meta.clone(), klines: clone_klines(&self.klines) }
    }
}

impl KlineData {
    /// The stored count agrees with the buffer.
    pub open spec fn wf(&self) -> bool {
        self.meta.len == self.klines@.len()
    }

    /// Appends one kline to the buffer and refreshes the metadata.
    pub fn add_kline(&mut self, kline: Kline, now: u64)
        ensures
            final(self).klines@ == old(self).klines@.push(kline),
            final(self).meta.len == final(self).klines@.len(),
            final(self).meta.last_update == now,
            final(self).meta.symbol == old(self).meta.symbol,
            final(self).meta.interval == old(self).meta.interval,
            final(self).wf(),
    {
        self.klines.push(kline);
        self.meta.len = self.klines.len() as u64;
        self.meta.last_update = now;
    }

    /// Empties the buffer; the metadata keeps its identity.
    pub fn clear_klines(&mut self)
        ensures
            final(self).klines@ == Seq::<Kline>::empty(),
            final(self).meta.len == 0,
            final(self).meta.symbol == old(self).meta.symbol,
            final(self).meta.interval == old(self).meta.interval,
            final(self).meta.last_update == old(self).meta.last_update,
            final(self).wf(),
    {
        self.klines.clear();
        self.meta.len = 0;
    }
}

/// Ascending by `open_time`; klines sharing an `open_time` may stand in
/// any order.
pub open spec fn sorted_by_open_time(s: Seq<Kline>) -> bool {
    forall|i: int, j: int| 0 <= i < j < s.len() ==> s[i].open_time <= s[j].open_time
}

/// Inserts `k` before the first buffered kline with a later `open_time`.
fn insort_kline(v: &mut Vec<Kline>, k: Kline)
    requires
        sorted_by_open_time(old(v)@),
    ensures
        sorted_by_open_time(final(v)@),
        final(v)@.to_multiset() == old(v)@.to_multiset().insert(k),
        final(v)@.len() == old(v)@.len() + 1,
{
    let mut i: usize = 0;
    while i < v.len() && v[i].open_time <= k.open_time
        invariant
            i <= v@.len(),
            v@ == old(v)@,
            forall|j: int| 0 <= j < i ==> v@[j].open_time <= k.open_time,
        decreases v@.len() - i,
    {
        i = i + 1;
    }
    let ghost pre = v@;
    v.insert(i, k);
    proof {
        vstd::seq_lib::to_multiset_insert(pre, i as int, k);
        assert forall|a: int, b: int| 0 <= a < b < v@.len() implies v@[a].open_time
            <= v@[b].open_time by {
            if b < i {
                assert(v@[a] == pre[a] && v@[b] == pre[b]);
            } else if a > i {
                assert(v@[a] == pre[a - 1] && v@[b] == pre[b - 1]);
            } else if a == i {
                assert(v@[a] == k && v@[b] == pre[b - 1]);
                assert(i < pre.len() && pre[i as int].open_time > k.open_time);
                assert(pre[i as int].open_time <= pre[b - 1].open_time);
            } else if b == i {
                assert(v@[a] == pre[a] && v@[b] == k);
            } else {
                assert(v@[a] == pre[a] && v@[b] == pre[b - 1]);
                assert(i < pre.len() && pre[i as int].open_time > k.open_time);
            }
        }
    }
}

/// A copy of `v`, sorted ascending by `open_time`; the multiset of klines
/// is preserved.
pub fn sort_klines_by_open_time(v: &Vec<Kline>) -> (r: Vec<Kline>)
    ensures
        sorted_by_open_time(r@),
        r@.to_multiset() == v@.to_multiset(),
        r@.len() == v@.len(),
{
    let mut out: Vec<Kline> = Vec::new();
    let mut i: usize = 0;
    proof {
        assert(v@.take(0) =~= out@);
    }
    while i < v.len()
        invariant
            i <= v@.len(),
            sorted_by_open_time(out@),
            out@.len() == i,
            out@.to_multiset() == v@.take(i as int).to_multiset(),
        decreases v@.len() - i,
    {
        insort_kline(&mut out, v[i].clone());
        proof {
            assert(v@.take(i + 1 as int).drop_last() =~= v@.take(i as int));
            assert(v@.take(i + 1 as int) =~= v@.take(i as int).push(v@[i as int]));
            vstd::seq_lib::to_multiset_build(v@.take(i as int), v@[i as int]);
        }
        i = i + 1;
    }
    proof {
        assert(v@.take(v@.len() as int) =~= v@);
    }
    out
}

/// Appends an element-wise copy of `src` to `dst`.
pub fn append_klines(dst: &mut Vec<Kline>, src: &Vec<Kline>)
    ensures
        final(dst)@ == old(dst)@ + src@,
{
    let mut i: usize = 0;
    while i < src.len()
        invariant
            i <= src@.len(),
            dst@ == old(dst)@ + src@.take(i as int),
        decreases src@.len() - i,
    {
        dst.push(src[i].clone());
        proof {
            assert(dst@ =~= old(dst)@ + src@.take(i + 1 as int));
        }
        i = i + 1;
    }
    proof {
        assert(dst@ =~= old(dst)@ + src@);
    }
}

/// An element-wise copy of a kline vector.
pub fn clone_klines(v: &Vec<Kline>) -> (r: Vec<Kline>)
    ensures
        r@ == v@,
{
    let mut out: Vec<Kline> = Vec::new();
    let mut i: usize = 0;
    while i < v.len()
        invariant
            i <= v@.len(),
            out@ == v@.take(i as int),
        decreases v@.len() - i,
    {
        out.push(v[i].clone());
        proof {
            assert(out@ =~= v@.take(i + 1 as int));
        }
        i = i + 1;
    }
    proof {
        assert(out@ =~= v@);
    }
    out
}

} // verus!
