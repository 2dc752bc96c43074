use std::cell::Cell;

use crypto_portfolio::fixed::{SCALE, VALUE_SCALE};
use crypto_portfolio::config::{NotificationConfig, NotificationThresholds, PortfolioConfig};
use crypto_portfolio::cycle::CycleSnapshot;
use crypto_portfolio::database::{CacheKind, Database, TradeAction};
use crypto_portfolio::errors::PortfolioError;
use crypto_portfolio::exchange::{Exchange, SentimentProvider};
use crypto_portfolio::monitor::{cycle_quotes, refresh_quotes, run_cycle, symbols_of, Refresh, Reply, Request};
use crypto_portfolio::notification::{Delivery, Notifier};
use crypto_portfolio::portfolio::{Holding, Portfolio};
use crypto_portfolio::quote::Quote;
use crypto_portfolio::risk::RiskPolicy;

const UNIT: u64 = SCALE;
const DOLLAR: u128 = VALUE_SCALE;

struct Table {
    rows: Vec<(&'static str, u64)>,
    asked: Cell<u32>,
}

impl Table {
    fn new(rows: Vec<(&'static str, u64)>) -> Table {
        Table { rows, asked: Cell::new(0) }
    }

    fn look_up(&self, symbol: &str) -> Result<u64, PortfolioError> {
        self.asked.set(self.asked.get() + 1);
        match self.rows.iter().find(|(s, _)| *s == symbol) {
            Some((_, v)) => Ok(*v),
            None => Err(PortfolioError::ApiError(format!("no {}", symbol))),
        }
    }
}

impl Exchange for Table {
    fn fetch_price(&self, symbol: &str) -> Result<u64, PortfolioError> {
        self.look_up(symbol)
    }
}

impl SentimentProvider for Table {
    fn fetch_sentiment(&self, symbol: &str) -> Result<u64, PortfolioError> {
        self.look_up(symbol)
    }
}

fn names(symbols: &[&str]) -> Vec<String> {
    symbols.iter().map(|s| s.to_string()).collect()
}

fn holding(symbol: &str, quantity: u64, stop_loss: u64) -> Holding {
    Holding { symbol: symbol.to_string(), quantity, purchase_price: UNIT, stop_loss }
}

fn quote(symbol: &str, price: u64, sentiment: u64, fresh: bool) -> Quote {
    Quote { symbol: symbol.to_string(), price, sentiment, fresh }
}

fn notifier() -> Notifier {
    Notifier::new(NotificationConfig {
        sms_enabled: true,
        email_enabled: false,
        twilio_account_sid: String::new(),
        twilio_auth_token: String::new(),
        twilio_phone_number: String::new(),
        recipient_phone_number: String::new(),
        sendgrid_api_key: String::new(),
        sender_email: String::new(),
        recipient_email: String::new(),
        notification_thresholds: NotificationThresholds {
            portfolio_value_change_percent: 5_000_000,
            holding_value_change_percent: 10_000_000,
            sentiment_change: 200_000,
        },
    })
}

fn expect_read(request: Request, want_kind: CacheKind, want_symbol: &str) {
    match request {
        Request::ReadCache { kind, symbol } => {
            assert_eq!(kind, want_kind);
            assert_eq!(symbol, want_symbol);
        }
        other => panic!("{:?}", other),
    }
}

#[test]
fn a_miss_leads_to_the_provider_and_then_to_the_cache() {
    let mut refresh = Refresh::begin(names(&["X", "Y"]), true, 600);
    assert!(!refresh.finished());
    expect_read(refresh.request(), CacheKind::Price, "X");
    refresh.advance(Reply::Miss);
    match refresh.request() {
        Request::Fetch { kind, symbol } => {
            assert_eq!(kind, CacheKind::Price);
            assert_eq!(symbol, "X");
        }
        other => panic!("{:?}", other),
    }
    refresh.advance(Reply::Fetched(5));
    match refresh.request() {
        Request::WriteCache { kind, symbol, value, ttl_secs } => {
            assert_eq!(kind, CacheKind::Price);
            assert_eq!(symbol, "X");
            assert_eq!(value, 5);
            assert_eq!(ttl_secs, 300);
        }
        other => panic!("{:?}", other),
    }
    assert!(refresh.quotes().is_empty());
    refresh.advance(Reply::Stored);
    expect_read(refresh.request(), CacheKind::Sentiment, "X");
    refresh.advance(Reply::Miss);
    refresh.advance(Reply::Fetched(7));
    match refresh.request() {
        Request::WriteCache { kind, value, ttl_secs, .. } => {
            assert_eq!(kind, CacheKind::Sentiment);
            assert_eq!(value, 7);
            assert_eq!(ttl_secs, 600);
        }
        other => panic!("{:?}", other),
    }
    assert!(refresh.quotes().is_empty());
    refresh.advance(Reply::Stored);
    assert_eq!(refresh.quotes().len(), 1);
    assert_eq!(refresh.quotes()[0].symbol, "X");
    assert_eq!(refresh.quotes()[0].price, 5);
    assert_eq!(refresh.quotes()[0].sentiment, 7);
    assert!(refresh.quotes()[0].fresh);
    expect_read(refresh.request(), CacheKind::Price, "Y");
    refresh.advance(Reply::Hit(1));
    refresh.advance(Reply::Hit(2));
    assert!(refresh.finished());
    assert!(matches!(refresh.request(), Request::Finished));
    refresh.advance(Reply::Hit(3));
    let quotes = refresh.into_quotes();
    assert_eq!(quotes.len(), 2);
    assert_eq!(quotes[1].symbol, "Y");
    assert_eq!((quotes[1].price, quotes[1].sentiment), (1, 2));
}

#[test]
fn a_failure_is_no_miss_and_skips_the_symbol() {
    let mut refresh = Refresh::begin(names(&["X", "Y", "Z", "W"]), true, 600);
    // the cache fails on the price of X
    refresh.advance(Reply::Failed);
    expect_read(refresh.request(), CacheKind::Price, "Y");
    // the provider fails on the sentiment of Y
    refresh.advance(Reply::Hit(1));
    refresh.advance(Reply::Miss);
    refresh.advance(Reply::Failed);
    expect_read(refresh.request(), CacheKind::Price, "Z");
    // the cache does not take the price of Z
    refresh.advance(Reply::Miss);
    refresh.advance(Reply::Fetched(9));
    refresh.advance(Reply::Failed);
    expect_read(refresh.request(), CacheKind::Price, "W");
    // a reply that is no answer to what was asked
    refresh.advance(Reply::Stored);
    assert!(refresh.finished());
    assert!(refresh.quotes().is_empty());
}

#[test]
fn a_score_above_one_is_no_score() {
    let mut refresh = Refresh::begin(names(&["X", "Y", "Z"]), true, 600);
    // a price may be any number
    refresh.advance(Reply::Hit(u64::MAX));
    expect_read(refresh.request(), CacheKind::Sentiment, "X");
    refresh.advance(Reply::Hit(1_000_001));
    assert!(refresh.quotes().is_empty());
    expect_read(refresh.request(), CacheKind::Price, "Y");
    refresh.advance(Reply::Hit(1));
    refresh.advance(Reply::Miss);
    refresh.advance(Reply::Fetched(1_000_001));
    assert!(refresh.quotes().is_empty());
    expect_read(refresh.request(), CacheKind::Price, "Z");
    refresh.advance(Reply::Hit(1));
    refresh.advance(Reply::Miss);
    refresh.advance(Reply::Fetched(1_000_000));
    refresh.advance(Reply::Stored);
    assert!(refresh.finished());
    assert_eq!(refresh.quotes().len(), 1);
    assert_eq!(refresh.quotes()[0].symbol, "Z");
    assert_eq!(refresh.quotes()[0].sentiment, 1_000_000);
}

#[test]
fn the_sentiment_alone_can_be_read() {
    let mut refresh = Refresh::begin(names(&["X"]), false, 60);
    expect_read(refresh.request(), CacheKind::Sentiment, "X");
    refresh.advance(Reply::Hit(4));
    assert!(refresh.finished());
    assert_eq!(refresh.quotes()[0].price, 0);
    assert_eq!(refresh.quotes()[0].sentiment, 4);
    let none = Refresh::begin(Vec::new(), true, 60);
    assert!(none.finished());
}

#[test]
fn what_was_fetched_is_cached_and_not_fetched_again() {
    let mut db = Database::new();
    let prices = Table::new(vec![("X", 7_500_000), ("Y", 2 * UNIT)]);
    let moods = Table::new(vec![("X", 600_000)]);
    let quotes = refresh_quotes(names(&["X", "Y"]), true, 600, &mut db, &prices, &moods, 1000);
    assert_eq!(quotes.len(), 1);
    assert_eq!(quotes[0].symbol, "X");
    assert_eq!(quotes[0].price, 7_500_000);
    assert_eq!(quotes[0].sentiment, 600_000);
    assert!(quotes[0].fresh);
    assert_eq!(prices.asked.get(), 2);
    assert_eq!(moods.asked.get(), 2);
    assert_eq!(db.get_cached_price("X", 1299), Some(7_500_000));
    assert_eq!(db.get_cached_price("Y", 1299), Some(2 * UNIT));
    assert_eq!(db.get_cached_sentiment("X", 1599), Some(600_000));
    assert_eq!(db.get_cached_sentiment("Y", 1000), None);
    // within the time to live nothing is asked of the providers of X
    let again = refresh_quotes(names(&["X"]), true, 600, &mut db, &prices, &moods, 1299);
    assert_eq!(again.len(), 1);
    assert_eq!(prices.asked.get(), 2);
    assert_eq!(moods.asked.get(), 2);
    // after it the price is asked for again
    let later = refresh_quotes(names(&["X"]), true, 600, &mut db, &prices, &moods, 1300);
    assert_eq!(later.len(), 1);
    assert_eq!(prices.asked.get(), 3);
    assert_eq!(moods.asked.get(), 2);
}

#[test]
fn a_served_symbol_keeps_its_quote_whatever_becomes_of_the_others() {
    let mut db = Database::new();
    db.cache_price("X", 5, 1000).unwrap();
    db.cache_sentiment("X", 6, 600, 1000).unwrap();
    let prices = Table::new(vec![("Y", 7)]);
    let moods = Table::new(vec![("Y", 8)]);
    let quotes = refresh_quotes(names(&["Y", "X", "Z"]), true, 600, &mut db, &prices, &moods, 1001);
    let found: Vec<(&str, u64, u64)> =
        quotes.iter().map(|q| (q.symbol.as_str(), q.price, q.sentiment)).collect();
    assert_eq!(found, vec![("Y", 7, 8), ("X", 5, 6)]);
    // nothing was asked of the providers for X
    assert_eq!(prices.asked.get(), 2);
    assert_eq!(moods.asked.get(), 1);
}

#[test]
fn no_symbol_is_quoted_twice() {
    let mut refresh = Refresh::begin(names(&["X", "Y"]), false, 600);
    refresh.advance(Reply::Hit(1));
    refresh.advance(Reply::Hit(2));
    refresh.advance(Reply::Hit(3));
    assert_eq!(refresh.quotes().len(), 2);
    assert_ne!(refresh.quotes()[0].symbol, refresh.quotes()[1].symbol);
    let held = vec![holding("A", 1, 0), holding("B", 1, 0)];
    let read = vec![quote("A", 1, 1, true), quote("A", 2, 2, true), quote("B", 3, 3, true)];
    let quotes = cycle_quotes(&held, &read, None);
    assert_eq!(quotes.len(), 2);
    assert_eq!((quotes[0].symbol.as_str(), quotes[0].price), ("A", 1));
    assert_eq!((quotes[1].symbol.as_str(), quotes[1].price), ("B", 3));
}

#[test]
fn a_cycle_that_the_cache_serves_asks_no_provider() {
    let config = PortfolioConfig { check_interval_secs: 60, max_allocation: 1_000_000, stop_loss_percentage: 0 };
    let mut p = Portfolio::new(vec![holding("X", 100 * UNIT, 8 * UNIT), holding("Y", 10 * UNIT, 0)], 0, config).unwrap();
    let policy = RiskPolicy { negative_threshold: 300_000, positive_threshold: 700_000, max_allocation: 1_000_000 };
    let mut db = Database::new();
    db.cache_price("X", 7_500_000, 1000).unwrap();
    db.cache_sentiment("X", 600_000, 600, 1000).unwrap();
    db.cache_price("Y", UNIT, 1000).unwrap();
    db.cache_sentiment("Y", 500_000, 600, 1000).unwrap();
    let mut outbox: Vec<Delivery> = Vec::new();
    let nothing = Table::new(vec![]);
    let outcome = run_cycle(&mut p, &mut db, &nothing, &nothing, &notifier(), &policy, 600, None, 1100, &mut outbox).unwrap();
    assert_eq!(nothing.asked.get(), 0);
    assert_eq!(outcome.snapshot.total_value, 760 * DOLLAR);
    let found: Vec<(&str, u64, u64, bool)> = outcome
        .snapshot
        .quotes
        .iter()
        .map(|q| (q.symbol.as_str(), q.price, q.sentiment, q.fresh))
        .collect();
    assert_eq!(found, vec![("X", 7_500_000, 600_000, true), ("Y", UNIT, 500_000, true)]);
    assert_eq!(p.cash(), 750 * DOLLAR);
    assert_eq!(db.get_cached_price("X", 1299), Some(7_500_000));
    assert_eq!(db.get_cached_sentiment_ttl("Y", 1100), Some(500));
}

#[test]
fn what_cannot_be_cached_is_not_used() {
    let mut db = Database::new();
    let prices = Table::new(vec![("X", 1)]);
    let moods = Table::new(vec![("X", 1)]);
    let quotes = refresh_quotes(names(&["X"]), true, 600, &mut db, &prices, &moods, u64::MAX);
    assert!(quotes.is_empty());
    assert_eq!(prices.asked.get(), 1);
    assert_eq!(moods.asked.get(), 0);
}

#[test]
fn the_last_known_quote_is_carried_forward() {
    let held = vec![holding("A", 1, 0), holding("B", 1, 0), holding("C", 1, 0)];
    let before = CycleSnapshot::new(&vec![quote("B", 5, 6, true), quote("A", 7, 8, true)], 0);
    let read = vec![quote("A", 1, 2, true)];
    let quotes = cycle_quotes(&held, &read, Some(&before));
    assert_eq!(quotes.len(), 2);
    assert_eq!(quotes[0].symbol, "A");
    assert_eq!((quotes[0].price, quotes[0].sentiment, quotes[0].fresh), (1, 2, true));
    assert_eq!(quotes[1].symbol, "B");
    assert_eq!((quotes[1].price, quotes[1].sentiment, quotes[1].fresh), (5, 6, false));
    let first = cycle_quotes(&held, &read, None);
    assert_eq!(first.len(), 1);
    let symbols = symbols_of(&held);
    assert_eq!(symbols, vec!["A", "B", "C"]);
}

#[test]
fn a_cycle_runs_from_the_reads_to_the_ledger() {
    let config = PortfolioConfig { check_interval_secs: 60, max_allocation: 1_000_000, stop_loss_percentage: 0 };
    let mut p = Portfolio::new(vec![holding("X", 100 * UNIT, 8 * UNIT), holding("Y", 10 * UNIT, 0)], 0, config).unwrap();
    let policy = RiskPolicy { negative_threshold: 300_000, positive_threshold: 700_000, max_allocation: 1_000_000 };
    let mut db = Database::new();
    let mut outbox: Vec<Delivery> = Vec::new();
    let prices = Table::new(vec![("X", 7_500_000), ("Y", UNIT)]);
    let moods = Table::new(vec![("X", 600_000), ("Y", 600_000)]);
    let n = notifier();
    let outcome = run_cycle(&mut p, &mut db, &prices, &moods, &n, &policy, 600, None, 1000, &mut outbox).unwrap();
    assert_eq!(
        outcome.actions,
        vec!["X: Stop-loss triggered at $7.50 (sentiment: 0.60), sold 100 tokens for $750.00."]
    );
    let first = outcome.snapshot;
    assert_eq!(first.total_value, 760 * DOLLAR);
    assert_eq!(first.quotes.len(), 2);
    assert_eq!(p.cash(), 750 * DOLLAR);
    assert_eq!(p.holdings().len(), 1);
    assert_eq!(db.trades().len(), 1);
    assert_eq!(db.trades()[0].action, TradeAction::Sell);
    assert_eq!(db.trades()[0].timestamp, 1000);
    assert_eq!(outbox.len(), 1);
    // the provider of prices goes away: Y keeps its last known price
    let nothing = Table::new(vec![]);
    let outcome = run_cycle(&mut p, &mut db, &nothing, &nothing, &n, &policy, 600, Some(&first), 2000, &mut outbox).unwrap();
    assert!(outcome.actions.is_empty());
    let second = outcome.snapshot;
    assert_eq!(second.total_value, 760 * DOLLAR);
    assert_eq!(second.quotes.len(), 1);
    assert_eq!(second.quotes[0].symbol, "Y");
    assert!(!second.quotes[0].fresh);
    assert_eq!(p.holdings().len(), 1);
    assert_eq!(db.trades().len(), 1);
    assert_eq!(outbox.len(), 1);
}
