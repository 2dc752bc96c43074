//! The failure taxonomy shared by every component.

use vstd::prelude::*;

verus! {

/// A failure of one of the collaborators of the monitoring cycle.
///
/// Only a configuration error is fatal; the others are scoped to one symbol
/// or one operation of the running cycle.
#[derive(Debug)]
pub enum PortfolioError {
    ConfigError(String),
    ExchangeError(String),
    DatabaseError(String),
    IoError(String),
    ApiError(String),
    NotificationError(String),
}

impl PortfolioError {
    /// What the error says went wrong.
    pub open spec fn spec_reason(self) -> Seq<char> {
        match self {
            PortfolioError::ConfigError(reason) => reason@,
            PortfolioError::ExchangeError(reason) => reason@,
            PortfolioError::DatabaseError(reason) => reason@,
            PortfolioError::IoError(reason) => reason@,
            PortfolioError::ApiError(reason) => reason@,
            PortfolioError::NotificationError(reason) => reason@,
        }
    }

    /// How the kind of the error is worded in front of the reason.
    pub open spec fn spec_heading(self) -> Seq<char> {
        match self {
            PortfolioError::ConfigError(_) => "Configuration error: "@,
            PortfolioError::ExchangeError(_) => "Exchange API error: "@,
            PortfolioError::DatabaseError(_) => "Database error: "@,
            PortfolioError::IoError(_) => "IO error: "@,
            PortfolioError::ApiError(_) => "API error: "@,
            PortfolioError::NotificationError(_) => "Notification error: "@,
        }
    }

    /// What the error says went wrong.
    pub fn reason(&self) -> (reason: &String)
        ensures
            reason@ == self.spec_reason(),
    {
        match self {
            PortfolioError::ConfigError(reason) => reason,
            PortfolioError::ExchangeError(reason) => reason,
            PortfolioError::DatabaseError(reason) => reason,
            PortfolioError::IoError(reason) => reason,
            PortfolioError::ApiError(reason) => reason,
            PortfolioError::NotificationError(reason) => reason,
        }
    }

    /// The error as one line: its kind, and what went wrong.
    pub fn message(&self) -> (line: String)
        ensures
            line@ == self.spec_heading() + self.spec_reason(),
    {
        let mut line = match self {
            PortfolioError::ConfigError(_) => String::from_str("Configuration error: "),
            PortfolioError::ExchangeError(_) => String::from_str("Exchange API error: "),
            PortfolioError::DatabaseError(_) => String::from_str("Database error: "),
            PortfolioError::IoError(_) => String::from_str("IO error: "),
            PortfolioError::ApiError(_) => String::from_str("API error: "),
            PortfolioError::NotificationError(_) => String::from_str("Notification error: "),
        };
        line.append(self.reason().as_str());
        line
    }

    /// Whether the process has to stop on this error.
    pub open spec fn spec_is_fatal(self) -> bool {
        self is ConfigError
    }

    /// Whether the process has to stop on this error: only a configuration
    /// error is fatal.
    pub fn is_fatal(&self) -> (fatal: bool)
        ensures
            fatal == self.spec_is_fatal(),
    {
        match self {
            PortfolioError::ConfigError(_) => true,
            _ => false,
        }
    }
}

} // verus!
