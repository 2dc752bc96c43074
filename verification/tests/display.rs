use crypto_portfolio::fixed::{SCALE, VALUE_SCALE};
use crypto_portfolio::config::PortfolioConfig;
use crypto_portfolio::database::Database;
use crypto_portfolio::display::{
    holding_row, portfolio_rows, recommendation, recommendation_text, sentiment_source, Recommendation,
};
use crypto_portfolio::portfolio::{Holding, Portfolio};
use crypto_portfolio::quote::Quote;

const UNIT: u64 = SCALE;
const DOLLAR: u128 = VALUE_SCALE;

fn holding(symbol: &str, quantity: u64, purchase_price: u64, stop_loss: u64) -> Holding {
    Holding { symbol: symbol.to_string(), quantity, purchase_price, stop_loss }
}

#[test]
fn the_recommendation_goes_by_the_thresholds() {
    assert_eq!(recommendation(700_000, 700_000, 300_000), Recommendation::HoldBuy);
    assert_eq!(recommendation(699_999, 700_000, 300_000), Recommendation::Monitor);
    assert_eq!(recommendation(300_001, 700_000, 300_000), Recommendation::Monitor);
    assert_eq!(recommendation(300_000, 700_000, 300_000), Recommendation::Sell);
    assert_eq!(recommendation(5, 5, 5), Recommendation::HoldBuy);
    assert_eq!(recommendation_text(Recommendation::HoldBuy), "Hold/Buy");
    assert_eq!(recommendation_text(Recommendation::Sell), "Sell");
    assert_eq!(recommendation_text(Recommendation::Monitor), "Monitor");
}

#[test]
fn the_source_of_a_score_is_the_cache_while_it_serves_it() {
    let mut db = Database::new();
    db.cache_sentiment("X", 1, 60, 1000).unwrap();
    assert_eq!(sentiment_source(db.get_cached_sentiment_ttl("X", 1010)), ("Redis Cache", 50));
    assert_eq!(sentiment_source(db.get_cached_sentiment_ttl("X", 1060)), ("API Fetch", 0));
    assert_eq!(sentiment_source(db.get_cached_sentiment_ttl("Y", 1010)), ("API Fetch", 0));
    assert_eq!(sentiment_source(Some(0)), ("Redis Cache", 0));
}

#[test]
fn a_row_shows_a_holding_at_its_quote() {
    let quotes = vec![Quote { symbol: "PHA".to_string(), price: 180_000, sentiment: 654_321, fresh: true }];
    let row = holding_row(&holding("PHA", 250 * UNIT, 200_000, 160_000), &quotes);
    assert_eq!(row, vec!["PHA", "250.00", "$0.20", "$0.16", "$45.00", "0.65"]);
    let unknown = holding_row(&holding("SUI", 10 * UNIT, 3 * UNIT, 2_400_000), &quotes);
    assert_eq!(unknown, vec!["SUI", "10.00", "$3.00", "$2.40", "$0.00", "0.50"]);
}

#[test]
fn the_table_ends_with_cash_and_total() {
    let config = PortfolioConfig { check_interval_secs: 60, max_allocation: 600_000, stop_loss_percentage: 200_000 };
    let held = vec![holding("PHA", 250 * UNIT, 200_000, 160_000), holding("DUSK", 80 * UNIT, 250_000, 200_000)];
    let p = Portfolio::new(held, 12_340_000_000_000, config).unwrap();
    let quotes = vec![Quote { symbol: "DUSK".to_string(), price: 250_000, sentiment: 500_000, fresh: false }];
    let rows = portfolio_rows(&p, 32 * DOLLAR + 340_000_000_000, &quotes);
    assert_eq!(rows.len(), 4);
    assert_eq!(rows[0][0], "PHA");
    assert_eq!(rows[1], vec!["DUSK", "80.00", "$0.25", "$0.20", "$20.00", "0.50"]);
    assert_eq!(rows[2], vec!["Cash", "$12.34", "", "", "", ""]);
    assert_eq!(rows[3], vec!["Total", "", "", "", "$32.34", ""]);
}
