//! The configuration surface that the monitoring cycle consumes.
//!
//! Fractions, scores and percentages are counts of millionths, as everywhere
//! in this crate: a `max_allocation` of `600_000` caps a holding at 60% of the
//! portfolio, a `portfolio_value_change_percent` of `5_000_000` is 5%.

use vstd::prelude::*;
use crate::errors::PortfolioError;
use crate::risk::RiskPolicy;

verus! {

/// Everything that is configured, as one value.
#[derive(Clone, Debug)]
pub struct Config {
    /// `dev` or `prod`.
    pub environment: String,
    pub exchanges: Vec<ExchangeConfig>,
    pub marketprovider: ExchangeConfig,
    pub database: DatabaseConfig,
    pub redis: RedisConfig,
    pub portfolio: PortfolioConfig,
    pub sentiment: SentimentConfig,
    pub display: DisplayConfig,
    pub market: MarketConfig,
    pub notification: NotificationConfig,
}

/// Name, credentials and address of an exchange or a market data provider.
#[derive(Clone, Debug)]
pub struct ExchangeConfig {
    pub name: String,
    pub api_key: String,
    pub api_secret: String,
    pub base_url: String,
}

/// Where the ledger is kept.
#[derive(Clone, Debug)]
pub struct DatabaseConfig {
    pub postgres_url: String,
}

/// Where the cache is kept.
#[derive(Clone, Debug)]
pub struct RedisConfig {
    pub url: String,
}

/// How often the portfolio is checked, and the largest share of it that one
/// holding may have.
#[derive(Clone, Copy, Debug)]
pub struct PortfolioConfig {
    pub check_interval_secs: u64,
    pub max_allocation: u64,
    pub stop_loss_percentage: u64,
}

/// The provider of sentiment scores, how long a score is cached, and the
/// scores that count as positive and as negative.
#[derive(Clone, Debug)]
pub struct SentimentConfig {
    pub api_url: String,
    pub api_key: String,
    pub cache_ttl_secs: u64,
    pub positive_threshold: u64,
    pub negative_threshold: u64,
}

/// How the screens are shown.
#[derive(Clone, Copy, Debug)]
pub struct DisplayConfig {
    pub sentiment_refresh_secs: u64,
    pub use_colors: bool,
}

/// What the market screen shows.
#[derive(Clone, Debug)]
pub struct MarketConfig {
    pub refresh_secs: u64,
    pub sort_by: String,
    pub pinned_symbols: Vec<String>,
}

/// Which channels are enabled, how they are reached, and the thresholds of
/// the alerts.
#[derive(Clone, Debug)]
pub struct NotificationConfig {
    pub sms_enabled: bool,
    pub email_enabled: bool,
    pub twilio_account_sid: String,
    pub twilio_auth_token: String,
    pub twilio_phone_number: String,
    pub recipient_phone_number: String,
    pub sendgrid_api_key: String,
    pub sender_email: String,
    pub recipient_email: String,
    pub notification_thresholds: NotificationThresholds,
}

/// The changes from one cycle to the next above which an alert is raised.
#[derive(Clone, Copy, Debug)]
pub struct NotificationThresholds {
    pub portfolio_value_change_percent: u64,
    pub holding_value_change_percent: u64,
    pub sentiment_change: u64,
}

impl Config {
    /// Whether the configuration can be run on: it names at least one
    /// exchange, and the first is one that is supported.
    pub open spec fn spec_valid(self) -> bool {
        self.exchanges@.len() > 0 && self.exchanges@[0].name@ == "binance"@
    }

    /// Checks the configuration before anything is started.  One that
    /// cannot be run on is an error, and a fatal one.
    pub fn validate(&self) -> (checked: Result<(), PortfolioError>)
        ensures
            match checked {
                Ok(_) => self.spec_valid(),
                Err(e) => {
                    &&& !self.spec_valid()
                    &&& e is ConfigError
                    &&& e.spec_reason() == if self.exchanges@.len() == 0 {
                        "no exchange configured"@
                    } else {
                        "Unsupported exchange: "@ + self.exchanges@[0].name@
                    }
                },
            },
    {
        if self.exchanges.len() == 0 {
            return Err(PortfolioError::ConfigError(String::from_str("no exchange configured")));
        }
        if self.exchanges[0].name != String::from_str("binance") {
            let mut reason = String::from_str("Unsupported exchange: ");
            reason.append(self.exchanges[0].name.as_str());
            return Err(PortfolioError::ConfigError(reason));
        }
        Ok(())
    }

    /// Whether the process runs in development.
    pub fn is_dev(&self) -> (dev: bool)
        ensures
            dev == (self.environment@ == "dev"@),
    {
        self.environment == String::from_str("dev")
    }

    /// The thresholds that the decisions of a cycle are taken against.
    pub fn risk_policy(&self) -> (policy: RiskPolicy)
        ensures
            policy == (RiskPolicy {
                negative_threshold: self.sentiment.negative_threshold,
                positive_threshold: self.sentiment.positive_threshold,
                max_allocation: self.portfolio.max_allocation,
            }),
    {
        RiskPolicy {
            negative_threshold: self.sentiment.negative_threshold,
            positive_threshold: self.sentiment.positive_threshold,
            max_allocation: self.portfolio.max_allocation,
        }
    }
}

} // verus!
