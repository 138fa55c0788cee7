use market_feed::stream::{
    build_stream_id, normalize_interval, StreamManager, StreamMeta, StreamType,
};
use market_feed::supervisor::streams_to_open;

fn meta(symbol: &str, stream_type: StreamType, interval: Option<&str>, now: u64) -> StreamMeta {
    let id = build_stream_id(symbol, interval);
    StreamMeta::new(&id, "wss://host", symbol, stream_type, interval.map(|s| s.to_string()), now)
}

#[test]
fn stream_ids_are_deterministic() {
    assert_eq!(build_stream_id("BTC-USDT", None), "BTC-USDT@ticker");
    assert_eq!(build_stream_id("BTC-USDT", Some("1m")), "BTC-USDT@1m");
    assert_eq!(build_stream_id("BTC-USDT", Some("1m")), build_stream_id("BTC-USDT", Some("1m")));
}

#[test]
fn open_is_idempotent_by_id() {
    let mut mgr = StreamManager::new();
    let id1 = mgr.open_stream(meta("BTC-USDT", StreamType::Ticker, None, 1));
    let id2 = mgr.open_stream(meta("BTC-USDT", StreamType::Ticker, None, 2));
    assert_eq!(id1, id2);
    assert_eq!(mgr.active_streams().len(), 1);
    // The surviving meta is the first registration.
    assert_eq!(mgr.active_streams()[0].created_at, 1);
}

#[test]
fn close_unknown_id_is_none_without_side_effect() {
    let mut mgr = StreamManager::new();
    mgr.open_stream(meta("BTC-USDT", StreamType::Ticker, None, 1));
    assert!(mgr.close_stream("nope").is_none());
    assert_eq!(mgr.active_streams().len(), 1);
}

#[test]
fn close_known_id_removes_and_returns_meta() {
    let mut mgr = StreamManager::new();
    let id = mgr.open_stream(meta("BTC-USDT", StreamType::Ticker, None, 1));
    mgr.open_stream(meta("ETH-USDT", StreamType::Kline, Some("1m"), 2));
    let removed = mgr.close_stream(&id).unwrap();
    assert_eq!(removed.id, id);
    assert_eq!(removed.symbol, "BTC-USDT");
    let left = mgr.active_streams();
    assert_eq!(left.len(), 1);
    assert_eq!(left[0].symbol, "ETH-USDT");
}

#[test]
fn reopening_a_closed_id_gets_fresh_metadata() {
    let mut mgr = StreamManager::new();
    let id = mgr.open_stream(meta("BTC-USDT", StreamType::Ticker, None, 1));
    mgr.close_stream(&id);
    let id2 = mgr.open_stream(meta("BTC-USDT", StreamType::Ticker, None, 9));
    assert_eq!(id, id2);
    assert_eq!(mgr.active_streams()[0].created_at, 9);
}

#[test]
fn reconciler_reopens_missing_feeds() {
    let needed = vec![meta("BTC-USDT", StreamType::Ticker, None, 1)];
    let mut mgr = StreamManager::new();
    // Nothing live: the needed feed must be opened.
    let to_open = streams_to_open(&needed, &mgr.active_streams());
    assert_eq!(to_open.len(), 1);
    assert_eq!(to_open[0].symbol, "BTC-USDT");
    // The replacement derives the same stream id.
    let id = mgr.open_stream(to_open[0].clone());
    assert_eq!(id, build_stream_id("BTC-USDT", None));
    // Now live: the next tick opens nothing.
    let to_open = streams_to_open(&needed, &mgr.active_streams());
    assert!(to_open.is_empty());
}

#[test]
fn reconciler_matches_by_symbol() {
    let needed = vec![
        meta("BTC-USDT", StreamType::Ticker, None, 1),
        meta("ETH-USDT", StreamType::Ticker, None, 1),
    ];
    let active = vec![meta("ETH-USDT", StreamType::Kline, Some("1m"), 2)];
    let to_open = streams_to_open(&needed, &active);
    assert_eq!(to_open.len(), 1);
    assert_eq!(to_open[0].symbol, "BTC-USDT");
}

#[test]
fn interval_suffix_normalizes() {
    assert_eq!(normalize_interval("1min"), "1m");
    assert_eq!(normalize_interval("15min"), "15m");
    assert_eq!(normalize_interval("1h"), "1h");
    assert_eq!(normalize_interval(""), "");
}
