use crypto_portfolio::database::{action_name, cache_key, CacheKind, Database, TradeAction};
use crypto_portfolio::errors::PortfolioError;

#[test]
fn a_value_is_served_until_its_time_to_live_has_passed() {
    let mut db = Database::new();
    db.set(CacheKind::Price, "X", 7_500_000, 60, 1000).unwrap();
    assert_eq!(db.get(CacheKind::Price, "X", 1000), Some(7_500_000));
    assert_eq!(db.get(CacheKind::Price, "X", 1059), Some(7_500_000));
    assert_eq!(db.get(CacheKind::Price, "X", 1060), None);
    assert_eq!(db.get(CacheKind::Price, "X", u64::MAX), None);
    assert_eq!(db.time_left(CacheKind::Price, "X", 1000), Some(60));
    assert_eq!(db.time_left(CacheKind::Price, "X", 1059), Some(1));
    assert_eq!(db.time_left(CacheKind::Price, "X", 1060), None);
}

#[test]
fn a_time_to_live_of_nothing_is_never_served() {
    let mut db = Database::new();
    db.set(CacheKind::Sentiment, "X", 1, 0, 1000).unwrap();
    assert_eq!(db.get(CacheKind::Sentiment, "X", 1000), None);
}

#[test]
fn a_write_replaces_what_was_stored_and_leaves_other_keys_alone() {
    let mut db = Database::new();
    db.set(CacheKind::Price, "X", 1, 100, 0).unwrap();
    db.set(CacheKind::Sentiment, "X", 2, 100, 0).unwrap();
    db.set(CacheKind::Price, "Y", 3, 100, 0).unwrap();
    db.set(CacheKind::Price, "X", 4, 10, 50).unwrap();
    assert_eq!(db.get(CacheKind::Price, "X", 55), Some(4));
    assert_eq!(db.get(CacheKind::Price, "X", 60), None);
    assert_eq!(db.get(CacheKind::Sentiment, "X", 60), Some(2));
    assert_eq!(db.get(CacheKind::Price, "Y", 60), Some(3));
    assert_eq!(db.get(CacheKind::Price, "Z", 60), None);
}

#[test]
fn prices_live_five_minutes_and_scores_as_long_as_asked() {
    let mut db = Database::new();
    db.cache_price("X", 9, 1000).unwrap();
    db.cache_sentiment("X", 8, 7, 1000).unwrap();
    assert_eq!(db.get_cached_price("X", 1299), Some(9));
    assert_eq!(db.get_cached_price("X", 1300), None);
    assert_eq!(db.get_cached_sentiment("X", 1006), Some(8));
    assert_eq!(db.get_cached_sentiment("X", 1007), None);
    assert_eq!(db.get_cached_sentiment_ttl("X", 1002), Some(5));
    assert_eq!(db.get_cached_sentiment_ttl("X", 1007), None);
    assert_eq!(db.get_cached_sentiment_ttl("Y", 1002), None);
    assert_eq!(db.get_cached_price("Y", 0), None);
}

#[test]
fn a_time_to_live_beyond_the_last_second_is_an_error() {
    let mut db = Database::new();
    db.cache_price("X", 1, 0).unwrap();
    assert!(matches!(db.cache_price("X", 2, u64::MAX - 299), Err(PortfolioError::DatabaseError(_))));
    assert!(matches!(db.cache_sentiment("X", 2, u64::MAX, 1), Err(PortfolioError::DatabaseError(_))));
    assert!(matches!(db.set(CacheKind::Price, "X", 2, 1, u64::MAX), Err(PortfolioError::DatabaseError(_))));
    assert_eq!(db.get_cached_price("X", 10), Some(1));
    db.cache_price("X", 3, u64::MAX - 300).unwrap();
    assert_eq!(db.get_cached_price("X", u64::MAX - 1), Some(3));
    assert_eq!(db.get_cached_price("X", u64::MAX), None);
}

#[test]
fn keys_are_made_of_kind_and_symbol() {
    assert_eq!(cache_key(CacheKind::Price, "BTC"), "price:BTC");
    assert_eq!(cache_key(CacheKind::Sentiment, "BTC"), "sentiment:BTC");
    assert_eq!(cache_key(CacheKind::Price, ""), "price:");
    assert_eq!(action_name(TradeAction::Buy), "buy");
    assert_eq!(action_name(TradeAction::Sell), "sell");
}

#[test]
fn the_ledger_only_grows() {
    let mut db = Database::new();
    assert!(db.trades().is_empty());
    db.log_trade("X", 100, 7, TradeAction::Sell, 1000);
    db.log_trade("Y", 5, 3, TradeAction::Buy, 1001);
    db.cache_price("X", 1, 0).unwrap();
    let trades = db.trades();
    assert_eq!(trades.len(), 2);
    assert_eq!(trades[0].symbol, "X");
    assert_eq!(trades[0].quantity, 100);
    assert_eq!(trades[0].price, 7);
    assert_eq!(trades[0].action, TradeAction::Sell);
    assert_eq!(trades[0].timestamp, 1000);
    assert_eq!(trades[1].symbol, "Y");
    assert_eq!(trades[1].action, TradeAction::Buy);
    assert_eq!(trades[1].timestamp, 1001);
}
