use market_feed::market::{generate_kline_filenames_in_range, MarketData};
use market_feed::storage::StorageManager;

#[test]
fn cache_keys_have_the_documented_shape() {
    assert_eq!(MarketData::build_kline_key("BTCUSDT", "1m"), "BTCUSDT@kline_1m");
    assert_eq!(MarketData::build_kline_key("ETHUSDT", "1h"), "ETHUSDT@kline_1h");
    assert_eq!(MarketData::build_ticker_key("BTC-USDT"), "BTC-USDT@ticker");
}

#[test]
fn filenames_are_zero_padded_by_year_and_month() {
    assert_eq!(
        MarketData::build_kline_filename_from_year_month("BTCUSDT@kline_1m", 2024, 3),
        "BTCUSDT@kline_1m-2024-03.csv"
    );
    assert_eq!(
        MarketData::build_kline_filename_from_year_month("K", 33, 11),
        "K-0033-11.csv"
    );
}

#[test]
fn month_string_follows_the_civil_calendar() {
    assert_eq!(MarketData::build_kline_month_string(0), "1970-01");
    // 2023-11-14 22:13:20 UTC
    assert_eq!(MarketData::build_kline_month_string(1700000000000), "2023-11");
    // Leap day 2024-02-29 23:59:59.999 UTC, then the next millisecond.
    assert_eq!(MarketData::build_kline_month_string(1709251199999), "2024-02");
    assert_eq!(MarketData::build_kline_month_string(1709251200000), "2024-03");
}

#[test]
fn filename_of_timestamp_uses_its_month() {
    assert_eq!(
        MarketData::build_kline_filename("BTCUSDT@kline_1m", 0),
        "BTCUSDT@kline_1m-1970-01.csv"
    );
    assert_eq!(
        MarketData::build_kline_filename("BTCUSDT@kline_1m", 1700000000000),
        "BTCUSDT@kline_1m-2023-11.csv"
    );
}

#[test]
fn filename_range_spans_every_month_between() {
    // 2023-12-20 through 2024-02-04.
    let names = generate_kline_filenames_in_range("K", 1703030400000, 1707004800000);
    assert_eq!(names, vec!["K-2023-12.csv", "K-2024-01.csv", "K-2024-02.csv"]);
    let one = generate_kline_filenames_in_range("K", 1700000000000, 1700000000000);
    assert_eq!(one, vec!["K-2023-11.csv"]);
}

#[test]
fn store_appends_per_key_and_loads_back() {
    let mut store = StorageManager::new();
    let key = "K-1970-01.csv".to_string();
    assert!(store.load_klines(&key).is_none());
    store.save_klines(&Vec::new(), &key);
    assert_eq!(store.load_klines(&key).unwrap().len(), 0);
}
