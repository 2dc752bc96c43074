use crypto_portfolio::config::{
    Config, DatabaseConfig, DisplayConfig, ExchangeConfig, MarketConfig, NotificationConfig,
    NotificationThresholds, PortfolioConfig, RedisConfig, SentimentConfig,
};
use crypto_portfolio::errors::PortfolioError;
use crypto_portfolio::exchange::{
    compose_sentiment_url, create_exchange, create_sentiment_provider, is_supported_exchange,
    BinanceExchange, Listing, LunarCrushProvider,
};

fn exchange_config(name: &str) -> ExchangeConfig {
    ExchangeConfig {
        name: name.to_string(),
        api_key: "key".to_string(),
        api_secret: "secret".to_string(),
        base_url: "https://api.binance.com".to_string(),
    }
}

fn config(exchanges: Vec<ExchangeConfig>, environment: &str) -> Config {
    Config {
        environment: environment.to_string(),
        exchanges,
        marketprovider: exchange_config("coingecko"),
        database: DatabaseConfig { postgres_url: String::new() },
        redis: RedisConfig { url: String::new() },
        portfolio: PortfolioConfig { check_interval_secs: 60, max_allocation: 600_000, stop_loss_percentage: 200_000 },
        sentiment: SentimentConfig {
            api_url: String::new(),
            api_key: String::new(),
            cache_ttl_secs: 600,
            positive_threshold: 700_000,
            negative_threshold: 300_000,
        },
        display: DisplayConfig { sentiment_refresh_secs: 30, use_colors: true },
        market: MarketConfig { refresh_secs: 30, sort_by: "market_cap".to_string(), pinned_symbols: Vec::new() },
        notification: NotificationConfig {
            sms_enabled: false,
            email_enabled: false,
            twilio_account_sid: String::new(),
            twilio_auth_token: String::new(),
            twilio_phone_number: String::new(),
            recipient_phone_number: String::new(),
            sendgrid_api_key: String::new(),
            sender_email: String::new(),
            recipient_email: String::new(),
            notification_thresholds: NotificationThresholds {
                portfolio_value_change_percent: 5_000_000,
                holding_value_change_percent: 10_000_000,
                sentiment_change: 200_000,
            },
        },
    }
}

#[test]
fn the_exchange_lists_the_symbols_of_the_portfolio() {
    let exchange = create_exchange(&exchange_config("binance"));
    assert_eq!(exchange.api_url, "https://api.binance.com");
    assert_eq!(exchange.api_key, "key");
    assert_eq!(exchange.api_secret, "secret");
    assert_eq!(exchange.ticker("PHA").unwrap(), "PHAUSDT");
    assert_eq!(exchange.ticker("SUI").unwrap(), "SUIUSDT");
    assert_eq!(exchange.ticker("DUSK").unwrap(), "DUSKUSDT");
    assert_eq!(
        exchange.price_url("SUI").unwrap(),
        "https://api.binance.com/api/v3/ticker/price?symbol=SUIUSDT"
    );
}

#[test]
fn a_symbol_that_is_not_listed_is_an_error() {
    let exchange = create_exchange(&exchange_config("binance"));
    match exchange.ticker("BTC") {
        Err(PortfolioError::ApiError(reason)) => assert_eq!(reason, "Symbol BTC not supported by Binance"),
        other => panic!("{:?}", other),
    }
    assert!(matches!(exchange.price_url("pha"), Err(PortfolioError::ApiError(_))));
    let own = BinanceExchange::new(
        "u",
        "k",
        "s",
        vec![
            Listing { symbol: "A".to_string(), ticker: "first".to_string() },
            Listing { symbol: "A".to_string(), ticker: "second".to_string() },
        ],
    );
    assert_eq!(own.ticker("A").unwrap(), "first");
    assert_eq!(own.price_url("A").unwrap(), "u/api/v3/ticker/price?symbol=first");
}

#[test]
fn the_sentiment_is_asked_for_under_the_lower_case_symbol() {
    let provider = create_sentiment_provider("https://lunarcrush.com/api", "secret");
    assert_eq!(provider.sentiment_url("PHA"), "https://lunarcrush.com/api/topic/pha/sentiment?key=secret");
    assert_eq!(
        LunarCrushProvider::new("u", "k").sentiment_url("ÄbC-1"),
        "u/topic/äbc-1/sentiment?key=k"
    );
    assert_eq!(compose_sentiment_url("u", "ABC", "k"), "u/topic/ABC/sentiment?key=k");
}

#[test]
fn only_one_exchange_is_supported() {
    assert!(is_supported_exchange("binance"));
    assert!(!is_supported_exchange("Binance"));
    assert!(!is_supported_exchange("coingecko"));
    assert!(!is_supported_exchange(""));
}

#[test]
fn a_configuration_without_a_supported_exchange_is_rejected() {
    assert!(config(vec![exchange_config("binance")], "dev").validate().is_ok());
    assert!(config(vec![exchange_config("binance"), exchange_config("other")], "dev").validate().is_ok());
    let none = config(Vec::new(), "dev").validate();
    match none {
        Err(e) => {
            assert!(matches!(e, PortfolioError::ConfigError(_)));
            assert!(e.is_fatal());
        }
        Ok(_) => panic!("accepted"),
    }
    match config(vec![exchange_config("kraken"), exchange_config("binance")], "dev").validate() {
        Err(PortfolioError::ConfigError(reason)) => assert_eq!(reason, "Unsupported exchange: kraken"),
        other => panic!("{:?}", other),
    }
}

#[test]
fn only_a_configuration_error_is_fatal() {
    assert!(PortfolioError::ConfigError(String::new()).is_fatal());
    assert!(!PortfolioError::ExchangeError(String::new()).is_fatal());
    assert!(!PortfolioError::DatabaseError(String::new()).is_fatal());
    assert!(!PortfolioError::IoError(String::new()).is_fatal());
    assert!(!PortfolioError::ApiError(String::new()).is_fatal());
    assert!(!PortfolioError::NotificationError(String::new()).is_fatal());
}

#[test]
fn the_configuration_gives_the_policy_of_a_cycle() {
    let c = config(vec![exchange_config("binance")], "prod");
    assert!(!c.is_dev());
    assert!(config(Vec::new(), "dev").is_dev());
    let policy = c.risk_policy();
    assert_eq!(policy.negative_threshold, 300_000);
    assert_eq!(policy.positive_threshold, 700_000);
    assert_eq!(policy.max_allocation, 600_000);
}

#[test]
fn an_error_is_worded_by_its_kind() {
    assert_eq!(PortfolioError::ConfigError("a".to_string()).message(), "Configuration error: a");
    assert_eq!(PortfolioError::ExchangeError("b".to_string()).message(), "Exchange API error: b");
    assert_eq!(PortfolioError::DatabaseError("c".to_string()).message(), "Database error: c");
    assert_eq!(PortfolioError::IoError("d".to_string()).message(), "IO error: d");
    assert_eq!(PortfolioError::ApiError("e".to_string()).message(), "API error: e");
    assert_eq!(PortfolioError::NotificationError("f".to_string()).message(), "Notification error: f");
    assert_eq!(PortfolioError::IoError("d".to_string()).reason(), "d");
    assert_eq!(config(Vec::new(), "dev").validate().unwrap_err().reason(), "no exchange configured");
}
