use market_feed::kline::Kline;
use market_feed::stream::StreamType;
use market_feed::market::{Market, MarketData};
use market_feed::messages::MarketMessage;
use market_feed::storage::StorageManager;
use market_feed::ticker::Ticker;

fn kline(open_time: u64) -> Kline {
    Kline {
        symbol: "BTCUSDT".to_string(),
        interval: "1m".to_string(),
        open_time,
        open: 10,
        high: 12,
        low: 9,
        close: 11,
        volume: 100,
        close_time: open_time + 59,
    }
}

fn ticker(symbol: &str, last_price: u64, time: u64) -> Ticker {
    Ticker { symbol: symbol.to_string(), last_price, time }
}

fn open_times(kd: &market_feed::kline::KlineData) -> Vec<u64> {
    kd.klines.iter().map(|k| k.open_time).collect()
}

#[test]
fn kline_buffers_in_memory() {
    let mut md = MarketData::new(StorageManager::new(), 0);
    md.add_kline(kline(100), 0);
    md.add_kline(kline(200), 1);
    let kd = md.kline_data("BTCUSDT", "1m", None, None, None, 2).unwrap();
    assert_eq!(open_times(&kd), vec![100, 200]);
    assert_eq!(kd.meta.symbol, "BTCUSDT");
    assert_eq!(kd.meta.interval, "1m");
    assert_eq!(kd.meta.len, 2);
}

#[test]
fn range_query_merges_disk_and_memory() {
    // Klines at 100..400 under one key: three flushed, one in memory.
    let mut md = MarketData::new(StorageManager::new(), 0);
    md.add_kline(kline(100), 0);
    md.add_kline(kline(200), 10);
    // Flush threshold (20 s) exceeded: this call flushes 100, 200, 300.
    md.add_kline(kline(300), 20000);
    md.add_kline(kline(400), 20001);
    let kd = md.kline_data("BTCUSDT", "1m", Some(150), Some(350), None, 20002).unwrap();
    assert_eq!(open_times(&kd), vec![200, 300]);
}

#[test]
fn flush_clears_memory_but_keeps_disk() {
    let mut md = MarketData::new(StorageManager::new(), 0);
    md.add_kline(kline(100), 0);
    md.add_kline(kline(200), 20000); // flushes 100 and 200
    md.add_kline(kline(300), 20001);
    // No time bounds: only the in-memory buffer (since the flush) shows.
    let kd = md.kline_data("BTCUSDT", "1m", None, None, None, 20002).unwrap();
    assert_eq!(open_times(&kd), vec![300]);
    // A from-bound covering the earlier period reaches the flushed ones.
    let kd = md.kline_data("BTCUSDT", "1m", Some(0), None, None, 20002).unwrap();
    assert_eq!(open_times(&kd), vec![100, 200, 300]);
}

#[test]
fn successive_flushes_append_within_a_month() {
    let mut md = MarketData::new(StorageManager::new(), 0);
    md.add_kline(kline(100), 20000); // first flush: 100
    md.add_kline(kline(200), 40000); // second flush: 200, same month
    let kd = md.kline_data("BTCUSDT", "1m", Some(0), Some(500), None, 40001).unwrap();
    assert_eq!(open_times(&kd), vec![100, 200]);
}

#[test]
fn flush_is_global_across_keys() {
    // A burst on one key flushes every key's buffer.
    let mut md = MarketData::new(StorageManager::new(), 0);
    let mut eth = kline(100);
    eth.symbol = "ETHUSDT".to_string();
    md.add_kline(eth, 0);
    md.add_kline(kline(200), 20000); // flush due: both keys are written out
    let kd = md.kline_data("ETHUSDT", "1m", None, None, None, 20001);
    assert!(kd.is_none()); // ETH buffer was cleared though ETH saw no traffic
    let kd = md.kline_data("ETHUSDT", "1m", Some(0), None, None, 20001).unwrap();
    assert_eq!(open_times(&kd), vec![100]); // but its klines reached the store
}

#[test]
fn to_bound_alone_filters_nothing() {
    let mut md = MarketData::new(StorageManager::new(), 0);
    md.add_kline(kline(100), 0);
    md.add_kline(kline(900), 1);
    // Without from_ts the to_ts bound is ignored: both klines return.
    let kd = md.kline_data("BTCUSDT", "1m", None, Some(150), None, 2).unwrap();
    assert_eq!(open_times(&kd), vec![100, 900]);
}

#[test]
fn query_sorts_ascending_by_open_time() {
    let mut md = MarketData::new(StorageManager::new(), 0);
    md.add_kline(kline(300), 0);
    md.add_kline(kline(100), 1);
    md.add_kline(kline(200), 2);
    let kd = md.kline_data("BTCUSDT", "1m", None, None, None, 3).unwrap();
    assert_eq!(open_times(&kd), vec![100, 200, 300]);
}

#[test]
fn query_limit_takes_first_entries() {
    let mut md = MarketData::new(StorageManager::new(), 0);
    md.add_kline(kline(300), 0);
    md.add_kline(kline(100), 1);
    md.add_kline(kline(200), 2);
    let kd = md.kline_data("BTCUSDT", "1m", None, None, Some(2), 3).unwrap();
    assert_eq!(open_times(&kd), vec![100, 200]);
    assert!(md.kline_data("BTCUSDT", "1m", None, None, Some(0), 3).is_none());
}

#[test]
fn query_unknown_key_is_none() {
    let mut md = MarketData::new(StorageManager::new(), 0);
    md.add_kline(kline(100), 0);
    assert!(md.kline_data("ETHUSDT", "1m", None, None, None, 1).is_none());
    assert!(md.kline_data("BTCUSDT", "1h", None, None, None, 1).is_none());
}

#[test]
fn ticker_keeps_latest_only() {
    let mut md = MarketData::new(StorageManager::new(), 0);
    md.update_ticker(ticker("BTC-USDT", 100, 1), 1);
    md.update_ticker(ticker("BTC-USDT", 105, 2), 2);
    let td = md.ticker_data("BTC-USDT").unwrap();
    assert_eq!(td.ticker.last_price, 105);
    assert_eq!(td.ticker.time, 2);
    assert!(md.ticker_data("ETH-USDT").is_none());
}

#[test]
fn messages_apply_in_arrival_order() {
    let mut md = MarketData::new(StorageManager::new(), 0);
    md.apply_message(MarketMessage::UpdateTicker(ticker("BTC-USDT", 100, 1)), 1);
    md.apply_message(MarketMessage::UpdateKline(kline(100)), 2);
    md.apply_message(MarketMessage::UpdateTicker(ticker("BTC-USDT", 101, 3)), 3);
    let td = md.ticker_data("BTC-USDT").unwrap();
    assert_eq!(td.ticker.last_price, 101);
    let kd = md.kline_data("BTCUSDT", "1m", None, None, None, 4).unwrap();
    assert_eq!(open_times(&kd), vec![100]);
}

#[test]
fn market_facade_reads_the_cache() {
    let mut market = Market::new(StorageManager::new(), 0);
    assert!(market.last_price("BTC-USDT").is_none());
    market.data.update_ticker(ticker("BTC-USDT", 42, 1), 1);
    assert_eq!(market.last_price("BTC-USDT"), Some(42));
    market.data.add_kline(kline(100), 1);
    let kd = market.kline_data("BTCUSDT", "1m", None, None, None, 2).unwrap();
    assert_eq!(open_times(&kd), vec![100]);
    let snapshot = market.market_data();
    assert_eq!(snapshot.last_backup, 0);
}

#[test]
fn needed_streams_are_declared_and_withdrawn() {
    let mut market = Market::new(StorageManager::new(), 0);
    market.add_needed_stream("BTC-USDT", StreamType::Ticker, None, "wss://host", 5);
    assert_eq!(market.needed_streams.len(), 1);
    assert_eq!(market.needed_streams[0].id, "BTC-USDT@ticker");
    assert_eq!(market.needed_streams[0].symbol, "BTC-USDT");
    market.add_needed_stream("ETH-USDT", StreamType::Kline, Some("1m"), "wss://host", 6);
    assert_eq!(market.needed_streams.len(), 2);
    market.remove_needed_stream("BTC-USDT", StreamType::Ticker, None);
    assert_eq!(market.needed_streams.len(), 1);
    assert_eq!(market.needed_streams[0].symbol, "ETH-USDT");
}
