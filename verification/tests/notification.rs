use crypto_portfolio::fixed::{SCALE, VALUE_SCALE};
use crypto_portfolio::config::{NotificationConfig, NotificationThresholds, PortfolioConfig};
use crypto_portfolio::notification::{
    change_exceeds, compose_email_content, email_content, percent_change_exceeds, price_message,
    sentiment_message, truncated, value_message, Channel, Notifier,
};
use crypto_portfolio::portfolio::{Holding, Portfolio};
use crypto_portfolio::quote::Quote;

const UNIT: u64 = SCALE;
const DOLLAR: u128 = VALUE_SCALE;

fn notifier(sms: bool, email: bool) -> Notifier {
    Notifier::new(NotificationConfig {
        sms_enabled: sms,
        email_enabled: email,
        twilio_account_sid: String::new(),
        twilio_auth_token: String::new(),
        twilio_phone_number: String::new(),
        recipient_phone_number: String::new(),
        sendgrid_api_key: String::new(),
        sender_email: String::new(),
        recipient_email: String::new(),
        notification_thresholds: NotificationThresholds {
            portfolio_value_change_percent: 5_000_000,
            holding_value_change_percent: 10_000_000,
            sentiment_change: 200_000,
        },
    })
}

fn quote(symbol: &str, price: u64, sentiment: u64) -> Quote {
    Quote { symbol: symbol.to_string(), price, sentiment, fresh: true }
}

fn portfolio(symbols: &[&str]) -> Portfolio {
    let held = symbols
        .iter()
        .map(|s| Holding { symbol: s.to_string(), quantity: UNIT, purchase_price: UNIT, stop_loss: 0 })
        .collect();
    let config = PortfolioConfig { check_interval_secs: 60, max_allocation: 500_000, stop_loss_percentage: 0 };
    Portfolio::new(held, 0, config).unwrap()
}

#[test]
fn a_sentiment_change_above_the_threshold_raises_an_alert() {
    let n = notifier(true, true);
    let due = n.notify_sentiment_change("X", 800_000, 550_000);
    assert_eq!(due.len(), 2);
    assert_eq!(due[0].channel, Channel::Sms);
    assert_eq!(due[0].body, "X sentiment changed by -0.25: Previous 0.80, Current 0.55");
    assert_eq!(due[1].channel, Channel::Email);
    assert_eq!(due[1].subject, "Sentiment Change Alert");
    assert_eq!(due[1].body, "X sentiment changed by -0.25: Previous 0.80, Current 0.55");
    assert!(n.notify_sentiment_change("X", 800_000, 650_000).is_empty());
    assert!(change_exceeds(800_000, 550_000, 200_000));
    assert!(!change_exceeds(800_000, 650_000, 200_000));
}

#[test]
fn a_sentiment_change_of_exactly_the_threshold_raises_nothing() {
    assert!(!change_exceeds(800_000, 600_000, 200_000));
    assert!(!change_exceeds(600_000, 800_000, 200_000));
    assert!(change_exceeds(600_000, 800_001, 200_000));
    assert!(change_exceeds(800_000, 599_999, 200_000));
    assert!(!change_exceeds(5, 5, 0));
    assert!(change_exceeds(0, u64::MAX, u64::MAX - 1));
}

#[test]
fn a_value_change_of_exactly_the_threshold_raises_nothing() {
    // five percent of 1000 is 50
    assert!(!percent_change_exceeds(1000, 1050, 5_000_000));
    assert!(!percent_change_exceeds(1000, 950, 5_000_000));
    assert!(percent_change_exceeds(1000, 1051, 5_000_000));
    assert!(percent_change_exceeds(1000, 949, 5_000_000));
    assert!(!percent_change_exceeds(1000, 1000, 0));
    assert!(percent_change_exceeds(1000, 1001, 0));
    // a third of a percent of 3_000_000 is 10_000
    assert!(!percent_change_exceeds(3_000_000, 3_010_000, 333_334));
    assert!(percent_change_exceeds(3_000_000, 3_010_000, 333_333));
}

#[test]
fn changes_are_compared_exactly_at_the_ends_of_the_range() {
    assert!(percent_change_exceeds(u128::MAX, 0, 99_999_999));
    assert!(!percent_change_exceeds(u128::MAX, 0, 100_000_000));
    assert!(percent_change_exceeds(1, u128::MAX, u64::MAX));
    assert!(!percent_change_exceeds(u128::MAX, u128::MAX - 1, 1));
    // from nothing every change is larger than any threshold
    assert!(percent_change_exceeds(0, 1, u64::MAX));
    assert!(!percent_change_exceeds(0, 0, 0));
}

#[test]
fn the_messages_say_what_changed() {
    assert_eq!(
        value_message(1000 * DOLLAR, 1100 * DOLLAR),
        "Portfolio value changed by 10.00%: Previous $1000.00, Current $1100.00"
    );
    assert_eq!(
        value_message(0, 750 * DOLLAR),
        "Portfolio value changed by inf%: Previous $0.00, Current $750.00"
    );
    assert_eq!(
        price_message("X", 10 * UNIT, 7_500_000),
        "X price changed by -25.00%: Previous $10.00, Current $7.50"
    );
    assert_eq!(
        sentiment_message("X", 550_000, 800_000),
        "X sentiment changed by 0.25: Previous 0.55, Current 0.80"
    );
}

#[test]
fn each_enabled_channel_gets_the_message() {
    assert!(notifier(false, false).notify_significant_action("sold").is_empty());
    let sms = notifier(true, false).notify_significant_action("sold");
    assert_eq!(sms.len(), 1);
    assert_eq!(sms[0].channel, Channel::Sms);
    assert_eq!(sms[0].subject, "");
    assert_eq!(sms[0].body, "sold");
    let email = notifier(false, true).notify_significant_action("sold");
    assert_eq!(email.len(), 1);
    assert_eq!(email[0].channel, Channel::Email);
    assert_eq!(email[0].subject, "Portfolio Action");
    assert_eq!(email[0].body, "sold");
    let both = notifier(true, true).deliveries("s", "m");
    assert_eq!(both.len(), 2);
    assert_eq!(both[0].channel, Channel::Sms);
    assert_eq!(both[1].channel, Channel::Email);
    assert_eq!(both[1].subject, "s");
    assert!(notifier(true, false).config().sms_enabled);
}

#[test]
fn a_text_message_is_cut_to_its_limit() {
    let long: String = "é".repeat(200);
    let due = notifier(true, true).notify_significant_action(&long);
    assert_eq!(due[0].body.chars().count(), 115);
    assert_eq!(due[0].body, "é".repeat(115));
    assert_eq!(due[1].body, long);
    assert_eq!(truncated("abc", 115), "abc");
    assert_eq!(truncated("abc", 3), "abc");
    assert_eq!(truncated("abc", 2), "ab");
    assert_eq!(truncated("abc", 0), "");
    assert_eq!(truncated(&"x".repeat(115), 115).len(), 115);
    assert_eq!(truncated(&"x".repeat(116), 115).len(), 115);
}

#[test]
fn value_and_prices_are_checked_against_their_thresholds() {
    let n = notifier(false, true);
    let p = portfolio(&["A", "B", "C"]);
    let before = vec![quote("A", 100, 0), quote("B", 100, 0)];
    let after = vec![quote("A", 111, 0), quote("B", 110, 0), quote("C", 1000, 0)];
    let due = n.notify_major_change(&p, 1000 * DOLLAR, 1060 * DOLLAR, &before, &after);
    assert_eq!(due.len(), 2);
    assert_eq!(due[0].subject, "Portfolio Value Change Alert");
    assert_eq!(due[0].body, "Portfolio value changed by 6.00%: Previous $1000.00, Current $1060.00");
    assert_eq!(due[1].subject, "Holding Price Change Alert");
    assert_eq!(due[1].body, "A price changed by 11.00%: Previous $0.00, Current $0.00");
    // exactly at both thresholds: nothing
    let calm = vec![quote("A", 110, 0), quote("B", 90, 0)];
    assert!(n.notify_major_change(&p, 1000 * DOLLAR, 1050 * DOLLAR, &before, &calm).is_empty());
}

#[test]
fn sentiment_is_checked_for_symbols_that_were_quoted_before() {
    let n = notifier(true, false);
    let before = vec![quote("A", 1, 800_000), quote("B", 1, 500_000)];
    let after = vec![quote("C", 1, 0), quote("B", 1, 500_000), quote("A", 1, 550_000)];
    let due = n.notify_sentiment_changes(&before, &after);
    assert_eq!(due.len(), 1);
    assert_eq!(due[0].body, "A sentiment changed by -0.25: Previous 0.80, Current 0.55");
    assert!(n.notify_sentiment_changes(&vec![], &after).is_empty());
}

#[test]
fn a_mail_carries_the_time_it_is_sent_at() {
    assert_eq!(
        compose_email_content("S", "B", "T"),
        "<h2>S</h2><p>B</p><p><strong>Timestamp:</strong> T</p>"
    );
    assert_eq!(
        email_content("Portfolio Action", "sold", 0, 0).unwrap(),
        "<h2>Portfolio Action</h2><p>sold</p><p><strong>Timestamp:</strong> 1970-01-01 00:00:00 UTC</p>"
    );
    assert_eq!(
        email_content("S", "B", 947_638_923, 4_000_000).unwrap(),
        "<h2>S</h2><p>B</p><p><strong>Timestamp:</strong> 2000-01-12 01:02:03.004 UTC</p>"
    );
    assert!(email_content("S", "B", u64::MAX, 0).is_none());
    assert!(email_content("S", "B", i64::MAX as u64, 0).is_none());
    assert!(email_content("S", "B", 0, 2_000_000_000).is_none());
}
