use crypto_portfolio::fixed::{SCALE, VALUE_SCALE};
use crypto_portfolio::config::{NotificationConfig, NotificationThresholds, PortfolioConfig};
use crypto_portfolio::cycle::{find_holding, sale_message, sold_message, CycleSnapshot};
use crypto_portfolio::database::{Database, TradeAction};
use crypto_portfolio::errors::PortfolioError;
use crypto_portfolio::notification::{Channel, Delivery, Notifier};
use crypto_portfolio::portfolio::{Holding, Portfolio};
use crypto_portfolio::quote::Quote;
use crypto_portfolio::risk::{RiskPolicy, Sale, SaleCause};

const UNIT: u64 = SCALE;
const DOLLAR: u128 = VALUE_SCALE;

fn notifier(sms: bool, email: bool) -> Notifier {
    Notifier::new(NotificationConfig {
        sms_enabled: sms,
        email_enabled: email,
        twilio_account_sid: String::new(),
        twilio_auth_token: String::new(),
        twilio_phone_number: String::new(),
        recipient_phone_number: String::new(),
        sendgrid_api_key: String::new(),
        sender_email: String::new(),
        recipient_email: String::new(),
        notification_thresholds: NotificationThresholds {
            portfolio_value_change_percent: 5_000_000,
            holding_value_change_percent: 10_000_000,
            sentiment_change: 200_000,
        },
    })
}

fn policy() -> RiskPolicy {
    RiskPolicy { negative_threshold: 300_000, positive_threshold: 700_000, max_allocation: 500_000 }
}

fn holding(symbol: &str, quantity: u64, purchase_price: u64, stop_loss: u64) -> Holding {
    Holding { symbol: symbol.to_string(), quantity, purchase_price, stop_loss }
}

fn quote(symbol: &str, price: u64, sentiment: u64) -> Quote {
    Quote { symbol: symbol.to_string(), price, sentiment, fresh: true }
}

fn portfolio(held: Vec<Holding>, cash: u128) -> Portfolio {
    let config = PortfolioConfig { check_interval_secs: 60, max_allocation: 500_000, stop_loss_percentage: 0 };
    Portfolio::new(held, cash, config).unwrap()
}

#[test]
fn a_liquidation_leaves_one_sell_record() {
    let mut p = portfolio(vec![holding("X", 100 * UNIT, 10 * UNIT, 8 * UNIT)], 0);
    let mut db = Database::new();
    let mut outbox: Vec<Delivery> = Vec::new();
    let quotes = vec![quote("X", 7_500_000, 600_000)];
    let report = p
        .check_portfolio(&quotes, &mut db, &notifier(true, true), &policy(), None, 1234, &mut outbox)
        .unwrap();
    assert_eq!(report.total_value, 750 * DOLLAR);
    assert_eq!(
        report.actions,
        vec!["X: Stop-loss triggered at $7.50 (sentiment: 0.60), sold 100 tokens for $750.00."]
    );
    assert_eq!(p.cash(), 750 * DOLLAR);
    assert!(p.holdings().is_empty());
    assert_eq!(db.trades().len(), 1);
    assert_eq!(db.trades()[0].symbol, "X");
    assert_eq!(db.trades()[0].quantity, 100 * UNIT);
    assert_eq!(db.trades()[0].price, 7_500_000);
    assert_eq!(db.trades()[0].action, TradeAction::Sell);
    assert_eq!(db.trades()[0].timestamp, 1234);
    assert_eq!(outbox.len(), 2);
    assert_eq!(outbox[0].channel, Channel::Sms);
    assert_eq!(
        outbox[0].body,
        "X: Stop-loss triggered at $7.50 (sentiment: 0.60), sold 100 tokens for $750.00."
    );
    assert_eq!(outbox[1].channel, Channel::Email);
    assert_eq!(outbox[1].subject, "Portfolio Action");
}

#[test]
fn nothing_is_compared_in_the_first_cycle() {
    let mut p = portfolio(vec![holding("X", 100 * UNIT, 10 * UNIT, UNIT)], 0);
    let mut db = Database::new();
    let mut outbox: Vec<Delivery> = Vec::new();
    let quotes = vec![quote("X", 7_500_000, 600_000)];
    let n = notifier(true, true);
    let whole = RiskPolicy { negative_threshold: 300_000, positive_threshold: 700_000, max_allocation: 1_000_000 };
    let report = p.check_portfolio(&quotes, &mut db, &n, &whole, None, 1, &mut outbox).unwrap();
    assert_eq!(report.total_value, 750 * DOLLAR);
    assert!(report.actions.is_empty());
    assert!(outbox.is_empty());
    assert!(db.trades().is_empty());
}

#[test]
fn the_changes_since_the_last_cycle_are_reported_after_the_sales() {
    let mut p = portfolio(
        vec![holding("A", 600 * UNIT, UNIT, 0), holding("B", 100 * UNIT, UNIT, 0)],
        400 * DOLLAR,
    );
    let mut db = Database::new();
    let mut outbox: Vec<Delivery> = Vec::new();
    let n = notifier(false, true);
    let before = CycleSnapshot::new(&vec![quote("A", 500_000, 900_000), quote("B", UNIT, 500_000)], 800 * DOLLAR);
    let quotes = vec![quote("A", UNIT, 650_000), quote("B", UNIT, 500_000)];
    let report = p.check_portfolio(&quotes, &mut db, &n, &policy(), Some(&before), 77, &mut outbox).unwrap();
    assert_eq!(report.total_value, 1100 * DOLLAR);
    assert_eq!(report.actions.len(), 1);
    // A is over its cap of 550 and is trimmed by 50
    assert_eq!(p.holdings()[0].quantity, 550 * UNIT);
    assert_eq!(db.trades().len(), 1);
    assert_eq!(db.trades()[0].quantity, 50 * UNIT);
    let subjects: Vec<&str> = outbox.iter().map(|d| d.subject.as_str()).collect();
    assert_eq!(
        subjects,
        vec![
            "Portfolio Action",
            "Portfolio Value Change Alert",
            "Holding Price Change Alert",
            "Sentiment Change Alert",
        ]
    );
    assert_eq!(
        outbox[0].body,
        "A: Allocation cap exceeded at $1.00 (sentiment: 0.65), sold 50 tokens for $50.00."
    );
    assert_eq!(outbox[1].body, "Portfolio value changed by 37.50%: Previous $800.00, Current $1100.00");
    assert_eq!(outbox[2].body, "A price changed by 100.00%: Previous $0.50, Current $1.00");
    assert_eq!(outbox[3].body, "A sentiment changed by -0.25: Previous 0.90, Current 0.65");
}

#[test]
fn a_snapshot_keeps_the_quotes_and_the_worth() {
    let kept = CycleSnapshot::new(&vec![quote("A", 1, 2), quote("B", 3, 4)], 99);
    assert_eq!(kept.total_value, 99);
    assert_eq!(kept.quotes.len(), 2);
    assert_eq!(kept.quotes[1].symbol, "B");
    assert_eq!(kept.quotes[1].price, 3);
    assert_eq!(kept.quotes[1].sentiment, 4);
    assert!(kept.quotes[1].fresh);
}

#[test]
fn selling_a_holding_credits_cash_and_records_the_sale() {
    let mut p = portfolio(
        vec![holding("A", 1 * UNIT, UNIT, 0), holding("B", 250 * UNIT, UNIT, 0), holding("C", 3 * UNIT, UNIT, 0)],
        DOLLAR,
    );
    let mut db = Database::new();
    let mut outbox: Vec<Delivery> = Vec::new();
    let quotes = vec![quote("B", 200_000, 500_000)];
    let proceeds = p.sell_holding("B", &quotes, &mut db, &notifier(true, false), 42, &mut outbox).unwrap();
    assert_eq!(proceeds, 50 * DOLLAR);
    assert_eq!(p.cash(), 51 * DOLLAR);
    let left: Vec<&str> = p.holdings().iter().map(|h| h.symbol.as_str()).collect();
    assert_eq!(left, vec!["A", "C"]);
    assert_eq!(db.trades().len(), 1);
    assert_eq!(db.trades()[0].symbol, "B");
    assert_eq!(db.trades()[0].quantity, 250 * UNIT);
    assert_eq!(db.trades()[0].price, 200_000);
    assert_eq!(db.trades()[0].action, TradeAction::Sell);
    assert_eq!(db.trades()[0].timestamp, 42);
    assert_eq!(outbox.len(), 1);
    assert_eq!(outbox[0].body, "Sold 250 B at $0.20 for $50.00");
}

#[test]
fn selling_what_is_not_held_or_not_quoted_is_an_error() {
    let mut p = portfolio(vec![holding("A", u64::MAX, UNIT, 0)], u128::MAX);
    let mut db = Database::new();
    let mut outbox: Vec<Delivery> = Vec::new();
    let n = notifier(true, true);
    let quotes = vec![quote("A", 1, 0), quote("B", 1, 0)];
    match p.sell_holding("B", &quotes, &mut db, &n, 1, &mut outbox) {
        Err(PortfolioError::ExchangeError(reason)) => assert_eq!(reason, "Holding B not found"),
        other => panic!("{:?}", other),
    }
    assert!(matches!(
        p.sell_holding("A", &vec![], &mut db, &n, 1, &mut outbox),
        Err(PortfolioError::ExchangeError(_))
    ));
    assert!(matches!(
        p.sell_holding("A", &quotes, &mut db, &n, 1, &mut outbox),
        Err(PortfolioError::ExchangeError(_))
    ));
    assert_eq!(p.holdings().len(), 1);
    assert_eq!(p.cash(), u128::MAX);
    assert!(db.trades().is_empty());
    assert!(outbox.is_empty());
}

#[test]
fn a_cycle_on_a_worth_beyond_the_range_changes_nothing() {
    let mut p = portfolio(vec![holding("A", u64::MAX, UNIT, u64::MAX)], u128::MAX);
    let mut db = Database::new();
    let mut outbox: Vec<Delivery> = Vec::new();
    let checked = p.check_portfolio(&vec![quote("A", 1, 0)], &mut db, &notifier(true, true), &policy(), None, 1, &mut outbox);
    assert!(matches!(checked, Err(PortfolioError::ExchangeError(_))));
    assert_eq!(p.holdings().len(), 1);
    assert!(db.trades().is_empty());
    assert!(outbox.is_empty());
}

#[test]
fn sales_are_described_by_their_cause() {
    let mut sale = Sale {
        symbol: "X".to_string(),
        quantity: 12_500_000,
        price: 1_234_999,
        sentiment: 25_000,
        proceeds: 15_437_487_500_000,
        cause: SaleCause::Sentiment,
    };
    assert_eq!(
        sale_message(&sale),
        "X: Negative sentiment triggered at $1.23 (sentiment: 0.03), sold 12.5 tokens for $15.44."
    );
    sale.cause = SaleCause::StopLoss;
    assert_eq!(
        sale_message(&sale),
        "X: Stop-loss triggered at $1.23 (sentiment: 0.03), sold 12.5 tokens for $15.44."
    );
    sale.cause = SaleCause::Rebalance;
    assert_eq!(
        sale_message(&sale),
        "X: Allocation cap exceeded at $1.23 (sentiment: 0.03), sold 12.5 tokens for $15.44."
    );
    assert_eq!(sold_message("X", 100 * UNIT, 7_500_000, 750 * DOLLAR), "Sold 100 X at $7.50 for $750.00");
}

#[test]
fn a_holding_is_found_by_its_symbol() {
    let held = vec![holding("A", 1, 1, 1), holding("B", 1, 1, 1)];
    assert_eq!(find_holding(&held, &"B".to_string()), Some(1));
    assert_eq!(find_holding(&held, &"b".to_string()), None);
}
