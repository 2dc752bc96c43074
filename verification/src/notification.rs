//! Change detection from one cycle to the next, and the messages that it
//! raises.
//!
//! Nothing is sent from here.  Each check that fires yields the deliveries
//! that are due: one per enabled channel.  Whoever performs them attempts
//! each one, whatever became of the others.

use vstd::prelude::*;
use crate::config::NotificationConfig;
use crate::fixed::product_exceeds;
use crate::portfolio::{HoldingView, Portfolio};
use crate::quote::{Quote, QuoteView, quotes_view, spec_find_quote, find_quote};
use crate::text::{
    push_amount,
    push_money,
    push_percent,
    push_signed_change,
    spec_amount,
    spec_money,
    spec_percent,
    spec_signed_change,
};

verus! {

/// The largest number of characters of a text message.
pub const SMS_LIMIT: usize = 115;

/// How many units of a percentage threshold stand for the whole of the
/// number that changed: one hundred percent, in millionths of a percent.
pub const WHOLE_PERCENT: u64 = 100_000_000;

/// A way to reach the owner of the portfolio.
#[derive(Clone, Copy, Debug, PartialEq, Eq, Structural)]
pub enum Channel {
    Sms,
    Email,
}

/// One message that is due on one channel.  A text message has no subject.
#[derive(Debug)]
pub struct Delivery {
    pub channel: Channel,
    pub subject: String,
    pub body: String,
}

/// The mathematical content of a [`Delivery`].
pub struct DeliveryView {
    pub channel: Channel,
    pub subject: Seq<char>,
    pub body: Seq<char>,
}

impl View for Delivery {
    type V = DeliveryView;

    open spec fn view(&self) -> DeliveryView {
        DeliveryView { channel: self.channel, subject: self.subject@, body: self.body@ }
    }
}

/// The contents of a list of deliveries.
pub open spec fn deliveries_view(deliveries: Seq<Delivery>) -> Seq<DeliveryView> {
    deliveries.map_values(|d: Delivery| d@)
}

/// By how much a number changed, whichever way.
pub open spec fn spec_change(previous: nat, current: nat) -> nat {
    if current >= previous {
        (current - previous) as nat
    } else {
        (previous - current) as nat
    }
}

/// Whether the change from `previous` to `current`, as a percentage of
/// `previous`, is larger than `threshold` millionths of a percent.
///
/// The comparison is exact and strict: a change of exactly the threshold is
/// not larger than it.  From nothing, every change is.
pub open spec fn spec_percent_change_exceeds(previous: nat, current: nat, threshold: nat) -> bool {
    spec_change(previous, current) * WHOLE_PERCENT > threshold * previous
}

/// Whether the change from `previous` to `current` is larger than
/// `threshold`, in absolute terms.
pub open spec fn spec_change_exceeds(previous: nat, current: nat, threshold: nat) -> bool {
    spec_change(previous, current) > threshold
}

/// The first `limit` characters of a message, or all of it where it is
/// shorter.
pub open spec fn spec_truncated(message: Seq<char>, limit: nat) -> Seq<char> {
    if message.len() <= limit {
        message
    } else {
        message.take(limit as int)
    }
}

/// The deliveries that one message is due: the text message first, cut to
/// its limit, then the mail; each only where its channel is enabled.
pub open spec fn spec_deliveries(
    sms_enabled: bool,
    email_enabled: bool,
    subject: Seq<char>,
    message: Seq<char>,
) -> Seq<DeliveryView> {
    let sms = if sms_enabled {
        seq![
            DeliveryView {
                channel: Channel::Sms,
                subject: Seq::empty(),
                body: spec_truncated(message, SMS_LIMIT as nat),
            },
        ]
    } else {
        Seq::empty()
    };
    let email = if email_enabled {
        seq![DeliveryView { channel: Channel::Email, subject, body: message }]
    } else {
        Seq::empty()
    };
    sms + email
}

/// The message on a change of the value of the portfolio.
pub open spec fn spec_value_message(previous: nat, current: nat) -> Seq<char> {
    "Portfolio value changed by "@ + spec_percent(previous, current) + "%: Previous $"@
        + spec_money(previous) + ", Current $"@ + spec_money(current)
}

/// The message on a change of the price of a holding.
pub open spec fn spec_price_message(symbol: Seq<char>, previous: nat, current: nat) -> Seq<char> {
    symbol + " price changed by "@ + spec_percent(previous, current) + "%: Previous $"@
        + spec_amount(previous) + ", Current $"@ + spec_amount(current)
}

/// The message on a change of the sentiment of a symbol.
pub open spec fn spec_sentiment_message(symbol: Seq<char>, previous: nat, current: nat) -> Seq<
    char,
> {
    symbol + " sentiment changed by "@ + spec_signed_change(previous, current) + ": Previous "@
        + spec_amount(previous) + ", Current "@ + spec_amount(current)
}

/// What is due on the value of the portfolio.
pub open spec fn spec_value_alert(config: NotificationConfig, previous: nat, current: nat) -> Seq<
    DeliveryView,
> {
    if spec_percent_change_exceeds(
        previous,
        current,
        config.notification_thresholds.portfolio_value_change_percent as nat,
    ) {
        spec_deliveries(
            config.sms_enabled,
            config.email_enabled,
            "Portfolio Value Change Alert"@,
            spec_value_message(previous, current),
        )
    } else {
        Seq::empty()
    }
}

/// What is due on the price of one holding.  A holding that has no price in
/// one of the two cycles is passed over.
pub open spec fn spec_price_alert(
    config: NotificationConfig,
    holding: HoldingView,
    previous: Seq<QuoteView>,
    current: Seq<QuoteView>,
) -> Seq<DeliveryView> {
    match (spec_find_quote(previous, holding.symbol), spec_find_quote(current, holding.symbol)) {
        (Some(before), Some(after)) => if spec_percent_change_exceeds(
            before.price,
            after.price,
            config.notification_thresholds.holding_value_change_percent as nat,
        ) {
            spec_deliveries(
                config.sms_enabled,
                config.email_enabled,
                "Holding Price Change Alert"@,
                spec_price_message(holding.symbol, before.price, after.price),
            )
        } else {
            Seq::empty()
        },
        _ => Seq::empty(),
    }
}

/// What is due on the prices of the holdings, in the holdings' order.
pub open spec fn spec_price_alerts(
    config: NotificationConfig,
    holdings: Seq<HoldingView>,
    previous: Seq<QuoteView>,
    current: Seq<QuoteView>,
) -> Seq<DeliveryView>
    decreases holdings.len(),
{
    if holdings.len() == 0 {
        Seq::empty()
    } else {
        spec_price_alerts(config, holdings.drop_last(), previous, current) + spec_price_alert(
            config,
            holdings.last(),
            previous,
            current,
        )
    }
}

/// What is due on the sentiment of one symbol.
pub open spec fn spec_sentiment_alert(
    config: NotificationConfig,
    symbol: Seq<char>,
    previous: nat,
    current: nat,
) -> Seq<DeliveryView> {
    if spec_change_exceeds(
        previous,
        current,
        config.notification_thresholds.sentiment_change as nat,
    ) {
        spec_deliveries(
            config.sms_enabled,
            config.email_enabled,
            "Sentiment Change Alert"@,
            spec_sentiment_message(symbol, previous, current),
        )
    } else {
        Seq::empty()
    }
}

/// What is due on the sentiment of the quoted symbols, in the order of the
/// current quotes.  A symbol that was not quoted in the previous cycle is
/// passed over.
pub open spec fn spec_sentiment_alerts(
    config: NotificationConfig,
    previous: Seq<QuoteView>,
    current: Seq<QuoteView>,
) -> Seq<DeliveryView>
    decreases current.len(),
{
    if current.len() == 0 {
        Seq::empty()
    } else {
        let last = current.last();
        spec_sentiment_alerts(config, previous, current.drop_last()) + (match spec_find_quote(
            previous,
            last.symbol,
        ) {
            Some(before) => spec_sentiment_alert(
                config,
                last.symbol,
                before.sentiment,
                last.sentiment,
            ),
            None => Seq::empty(),
        })
    }
}

/// A change of exactly the threshold raises nothing, and no change raises
/// nothing whatever the threshold.
pub proof fn lemma_threshold_is_strict(previous: nat, current: nat, threshold: nat)
    ensures
        spec_change(previous, current) * WHOLE_PERCENT == threshold * previous
            ==> !spec_percent_change_exceeds(previous, current, threshold),
        current == previous ==> !spec_percent_change_exceeds(previous, current, threshold),
        spec_change(previous, current) == threshold ==> !spec_change_exceeds(
            previous,
            current,
            threshold,
        ),
{
    if current == previous {
        assert(spec_change(previous, current) * WHOLE_PERCENT == 0) by (nonlinear_arith)
            requires
                spec_change(previous, current) == 0,
        ;
        assert(threshold * previous >= 0) by (nonlinear_arith);
    }
}

/// Whether the change from `previous` to `current`, as a percentage of
/// `previous`, is larger than `threshold` millionths of a percent.
pub fn percent_change_exceeds(previous: u128, current: u128, threshold: u64) -> (fires: bool)
    ensures
        fires == spec_percent_change_exceeds(previous as nat, current as nat, threshold as nat),
{
    let change: u128 = if current >= previous {
        current - previous
    } else {
        previous - current
    };
    assert(threshold * previous == previous * threshold) by (nonlinear_arith);
    product_exceeds(change, WHOLE_PERCENT, previous, threshold)
}

/// Whether the change from `previous` to `current` is larger than
/// `threshold`, in absolute terms.
pub fn change_exceeds(previous: u64, current: u64, threshold: u64) -> (fires: bool)
    ensures
        fires == spec_change_exceeds(previous as nat, current as nat, threshold as nat),
{
    let change: u64 = if current >= previous {
        current - previous
    } else {
        previous - current
    };
    change > threshold
}

/// The message on a change of the value of the portfolio.
pub fn value_message(previous: u128, current: u128) -> (message: String)
    ensures
        message@ == spec_value_message(previous as nat, current as nat),
{
    let mut out = String::from_str("Portfolio value changed by ");
    push_percent(&mut out, previous, current);
    out.append("%: Previous $");
    push_money(&mut out, previous);
    out.append(", Current $");
    push_money(&mut out, current);
    assert(out@ =~= spec_value_message(previous as nat, current as nat));
    out
}

/// The message on a change of the price of a holding.
pub fn price_message(symbol: &str, previous: u64, current: u64) -> (message: String)
    ensures
        message@ == spec_price_message(symbol@, previous as nat, current as nat),
{
    let mut out = String::from_str(symbol);
    out.append(" price changed by ");
    push_percent(&mut out, previous as u128, current as u128);
    out.append("%: Previous $");
    push_amount(&mut out, previous);
    out.append(", Current $");
    push_amount(&mut out, current);
    assert(out@ =~= spec_price_message(symbol@, previous as nat, current as nat));
    out
}

/// The message on a change of the sentiment of a symbol.
pub fn sentiment_message(symbol: &str, previous: u64, current: u64) -> (message: String)
    ensures
        message@ == spec_sentiment_message(symbol@, previous as nat, current as nat),
{
    let mut out = String::from_str(symbol);
    out.append(" sentiment changed by ");
    push_signed_change(&mut out, previous, current);
    out.append(": Previous ");
    push_amount(&mut out, previous);
    out.append(", Current ");
    push_amount(&mut out, current);
    assert(out@ =~= spec_sentiment_message(symbol@, previous as nat, current as nat));
    out
}

/// The first `limit` characters of a message, or all of it where it is
/// shorter.
pub fn truncated(message: &str, limit: usize) -> (cut: String)
    ensures
        cut@ == spec_truncated(message@, limit as nat),
{
    if message.unicode_len() <= limit {
        String::from_str(message)
    } else {
        String::from_str(message.substring_char(0, limit))
    }
}

/// Checks on what changed since the last cycle, and the messages they raise.
#[derive(Debug)]
pub struct Notifier {
    config: NotificationConfig,
}

impl Notifier {
    /// The configuration that the notifier was made with.
    pub closed spec fn spec_config(self) -> NotificationConfig {
        self.config
    }

    /// A notifier that goes by `config`.
    pub fn new(config: NotificationConfig) -> (notifier: Notifier)
        ensures
            notifier.spec_config() == config,
    {
        Notifier { config }
    }

    /// The configuration that the notifier was made with.
    pub fn config(&self) -> (config: &NotificationConfig)
        ensures
            *config == self.spec_config(),
    {
        &self.config
    }

    /// The deliveries that one message is due on the enabled channels.
    pub fn deliveries(&self, subject: &str, message: &str) -> (due: Vec<Delivery>)
        ensures
            deliveries_view(due@) == spec_deliveries(
                self.spec_config().sms_enabled,
                self.spec_config().email_enabled,
                subject@,
                message@,
            ),
    {
        let mut due: Vec<Delivery> = Vec::new();
        if self.config.sms_enabled {
            due.push(
                Delivery {
                    channel: Channel::Sms,
                    subject: String::new(),
                    body: truncated(message, SMS_LIMIT),
                },
            );
        }
        if self.config.email_enabled {
            due.push(
                Delivery {
                    channel: Channel::Email,
                    subject: String::from_str(subject),
                    body: String::from_str(message),
                },
            );
        }
        assert(deliveries_view(due@) =~= spec_deliveries(
            self.spec_config().sms_enabled,
            self.spec_config().email_enabled,
            subject@,
            message@,
        ));
        due
    }

    /// What is due on a sale: its description, on every enabled channel.
    pub fn notify_significant_action(&self, action: &str) -> (due: Vec<Delivery>)
        ensures
            deliveries_view(due@) == spec_deliveries(
                self.spec_config().sms_enabled,
                self.spec_config().email_enabled,
                "Portfolio Action"@,
                action@,
            ),
    {
        self.deliveries("Portfolio Action", action)
    }

    /// What is due on the value of the portfolio and on the prices of its
    /// holdings: for the value, and then for each holding in turn, a message
    /// where the change since the previous cycle is larger than its
    /// threshold.
    pub fn notify_major_change(
        &self,
        portfolio: &Portfolio,
        previous_value: u128,
        current_value: u128,
        previous_prices: &Vec<Quote>,
        current_prices: &Vec<Quote>,
    ) -> (due: Vec<Delivery>)
        ensures
            deliveries_view(due@) == spec_value_alert(
                self.spec_config(),
                previous_value as nat,
                current_value as nat,
            ) + spec_price_alerts(
                self.spec_config(),
                portfolio@.holdings,
                quotes_view(previous_prices@),
                quotes_view(current_prices@),
            ),
    {
        let holdings = portfolio.holdings();
        let ghost held = portfolio@.holdings;
        let ghost before = quotes_view(previous_prices@);
        let ghost after = quotes_view(current_prices@);
        let ghost first = spec_value_alert(
            self.spec_config(),
            previous_value as nat,
            current_value as nat,
        );
        let mut due: Vec<Delivery> = if percent_change_exceeds(
            previous_value,
            current_value,
            self.config.notification_thresholds.portfolio_value_change_percent,
        ) {
            let message = value_message(previous_value, current_value);
            self.deliveries("Portfolio Value Change Alert", message.as_str())
        } else {
            Vec::new()
        };
        assert(deliveries_view(due@) =~= first);
        let mut i: usize = 0;
        while i < holdings.len()
            invariant
                i <= holdings.len(),
                held == crate::portfolio::holdings_view(holdings@),
                before == quotes_view(previous_prices@),
                after == quotes_view(current_prices@),
                deliveries_view(due@) == first + spec_price_alerts(
                    self.spec_config(),
                    held.take(i as int),
                    before,
                    after,
                ),
            decreases holdings.len() - i,
        {
            let holding = &holdings[i];
            let ghost so_far = deliveries_view(due@);
            proof {
                assert(held.take(i + 1).drop_last() =~= held.take(i as int));
                assert(held.take(i + 1).last() == holding@);
            }
            let mut more: Vec<Delivery> = match (
                find_quote(previous_prices, &holding.symbol),
                find_quote(current_prices, &holding.symbol),
            ) {
                (Some(p), Some(c)) => {
                    let old_price: u64 = previous_prices[p].price;
                    let new_price: u64 = current_prices[c].price;
                    if percent_change_exceeds(
                        old_price as u128,
                        new_price as u128,
                        self.config.notification_thresholds.holding_value_change_percent,
                    ) {
                        let message = price_message(
                            holding.symbol.as_str(),
                            old_price,
                            new_price,
                        );
                        self.deliveries("Holding Price Change Alert", message.as_str())
                    } else {
                        Vec::new()
                    }
                },
                _ => Vec::new(),
            };
            let ghost added = deliveries_view(more@);
            assert(added =~= spec_price_alert(self.spec_config(), holding@, before, after));
            due.append(&mut more);
            assert(deliveries_view(due@) =~= so_far + added);
            assert(first + spec_price_alerts(
                self.spec_config(),
                held.take(i as int),
                before,
                after,
            ) + added =~= first + (spec_price_alerts(
                self.spec_config(),
                held.take(i as int),
                before,
                after,
            ) + added));
            i += 1;
        }
        proof {
            assert(held.take(i as int) =~= held);
        }
        due
    }

    /// What is due on the sentiment of one symbol: a message where the score
    /// moved by more than its threshold since the previous cycle.
    pub fn notify_sentiment_change(
        &self,
        symbol: &str,
        previous_sentiment: u64,
        current_sentiment: u64,
    ) -> (due: Vec<Delivery>)
        ensures
            deliveries_view(due@) == spec_sentiment_alert(
                self.spec_config(),
                symbol@,
                previous_sentiment as nat,
                current_sentiment as nat,
            ),
    {
        if change_exceeds(
            previous_sentiment,
            current_sentiment,
            self.config.notification_thresholds.sentiment_change,
        ) {
            let message = sentiment_message(symbol, previous_sentiment, current_sentiment);
            self.deliveries("Sentiment Change Alert", message.as_str())
        } else {
            let due: Vec<Delivery> = Vec::new();
            assert(deliveries_view(due@) =~= Seq::<DeliveryView>::empty());
            due
        }
    }

    /// What is due on the sentiment of every symbol that is quoted now and
    /// was quoted in the previous cycle, in the order of the current quotes.
    pub fn notify_sentiment_changes(&self, previous: &Vec<Quote>, current: &Vec<Quote>) -> (due:
        Vec<Delivery>)
        ensures
            deliveries_view(due@) == spec_sentiment_alerts(
                self.spec_config(),
                quotes_view(previous@),
                quotes_view(current@),
            ),
    {
        let ghost before = quotes_view(previous@);
        let ghost after = quotes_view(current@);
        let mut due: Vec<Delivery> = Vec::new();
        assert(deliveries_view(due@) =~= Seq::<DeliveryView>::empty());
        let mut i: usize = 0;
        while i < current.len()
            invariant
                i <= current.len(),
                before == quotes_view(previous@),
                after == quotes_view(current@),
                deliveries_view(due@) == spec_sentiment_alerts(
                    self.spec_config(),
                    before,
                    after.take(i as int),
                ),
            decreases current.len() - i,
        {
            let quote = &current[i];
            let ghost so_far = deliveries_view(due@);
            proof {
                assert(after.take(i + 1).drop_last() =~= after.take(i as int));
                assert(after.take(i + 1).last() == quote@);
            }
            let mut more: Vec<Delivery> = match find_quote(previous, &quote.symbol) {
                Some(p) => self.notify_sentiment_change(
                    quote.symbol.as_str(),
                    previous[p].sentiment,
                    quote.sentiment,
                ),
                None => Vec::new(),
            };
            let ghost added = deliveries_view(more@);
            assert(added =~= match spec_find_quote(before, quote@.symbol) {
                Some(q) => spec_sentiment_alert(
                    self.spec_config(),
                    quote@.symbol,
                    q.sentiment,
                    quote@.sentiment,
                ),
                None => Seq::empty(),
            });
            due.append(&mut more);
            assert(deliveries_view(due@) =~= so_far + added);
            i += 1;
        }
        proof {
            assert(after.take(i as int) =~= after);
        }
        due
    }
}

/// The text of the moment `nanos` nanoseconds after the second `secs` of the
/// Unix era, in universal time; nothing where the calendar does not reach
/// that far.
pub uninterp spec fn spec_utc_text(secs: i64, nanos: u32) -> Option<Seq<char>>;

/// `chrono::DateTime::from_timestamp`, and the text that `chrono` shows the
/// moment as.  Both depend on the two numbers alone; the first gives nothing
/// for a moment out of its range.
#[verifier::external_body]
fn utc_text(secs: i64, nanos: u32) -> (text: Option<String>)
    ensures
        match text {
            Some(t) => spec_utc_text(secs, nanos) == Some(t@),
            None => spec_utc_text(secs, nanos) is None,
        },
{
    match chrono::DateTime::from_timestamp(secs, nanos) {
        Some(moment) => Some(moment.to_string()),
        None => None,
    }
}

/// The content of a mail: the subject as a heading, the message, and the
/// time at which it is sent.
pub open spec fn spec_email_content(subject: Seq<char>, body: Seq<char>, stamp: Seq<char>) -> Seq<
    char,
> {
    "<h2>"@ + subject + "</h2><p>"@ + body + "</p><p><strong>Timestamp:</strong> "@ + stamp
        + "</p>"@
}

/// The text of the time at which a mail is sent.
pub open spec fn spec_sent_text(secs: nat, nanos: u32) -> Option<Seq<char>> {
    if secs > i64::MAX {
        None
    } else {
        spec_utc_text(secs as i64, nanos)
    }
}

/// The content of a mail that is stamped with `stamp`.
pub fn compose_email_content(subject: &str, body: &str, stamp: &str) -> (content: String)
    ensures
        content@ == spec_email_content(subject@, body@, stamp@),
{
    let mut out = String::from_str("<h2>");
    out.append(subject);
    out.append("</h2><p>");
    out.append(body);
    out.append("</p><p><strong>Timestamp:</strong> ");
    out.append(stamp);
    out.append("</p>");
    out
}

/// The content of a mail that is sent `nanos` nanoseconds after the second
/// `secs` of the Unix era; nothing where that moment has no text.
pub fn email_content(subject: &str, body: &str, secs: u64, nanos: u32) -> (content: Option<String>)
    ensures
        match content {
            Some(c) => {
                &&& spec_sent_text(secs as nat, nanos) is Some
                &&& c@ == spec_email_content(
                    subject@,
                    body@,
                    spec_sent_text(secs as nat, nanos).unwrap(),
                )
            },
            None => spec_sent_text(secs as nat, nanos) is None,
        },
{
    if secs > 0x7fff_ffff_ffff_ffff {
        return None;
    }
    match utc_text(secs as i64, nanos) {
        Some(stamp) => Some(compose_email_content(subject, body, stamp.as_str())),
        None => None,
    }
}

} // verus!
