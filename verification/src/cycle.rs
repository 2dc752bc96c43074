//! One cycle on the portfolio: the decisions, the ledger entries and the
//! messages that follow from a set of quotes.

use vstd::prelude::*;
use crate::config::NotificationConfig;
use crate::database::{Database, TradeAction, TradeView};
use crate::errors::PortfolioError;
use crate::notification::{
    Delivery,
    DeliveryView,
    Notifier,
    deliveries_view,
    spec_deliveries,
    spec_price_alerts,
    spec_sentiment_alerts,
    spec_value_alert,
};
use crate::portfolio::{Holding, HoldingView, Portfolio, holdings_view, spec_holds};
use crate::quote::{Quote, QuoteView, quotes_view, spec_find_quote, find_quote};
use crate::risk::{
    RiskPolicy,
    Sale,
    SaleCause,
    SaleView,
    sales_view,
    spec_liquidations,
    spec_proceeds,
    spec_rebalanced,
    spec_survivors,
    spec_trims,
};
use crate::text::{
    push_amount,
    push_exact,
    push_money,
    spec_amount,
    spec_exact,
    spec_money,
    texts_view,
};

verus! {

/// What one cycle leaves for the next to compare with: the quotes it ran on
/// and what the portfolio was worth.
#[derive(Debug)]
pub struct CycleSnapshot {
    pub quotes: Vec<Quote>,
    pub total_value: u128,
}

/// What one cycle did: what the portfolio is worth, and the description of
/// each sale, in the order in which they were made.
#[derive(Debug)]
pub struct CycleReport {
    pub total_value: u128,
    pub actions: Vec<String>,
}

/// The mathematical content of a [`CycleSnapshot`].
pub struct CycleSnapshotView {
    pub quotes: Seq<QuoteView>,
    pub total_value: nat,
}

impl View for CycleSnapshot {
    type V = CycleSnapshotView;

    open spec fn view(&self) -> CycleSnapshotView {
        CycleSnapshotView {
            quotes: quotes_view(self.quotes@),
            total_value: self.total_value as nat,
        }
    }
}

impl CycleSnapshot {
    /// What the cycle that ran on `quotes` leaves for the next one.
    pub fn new(quotes: &Vec<Quote>, total_value: u128) -> (kept: CycleSnapshot)
        ensures
            kept@.quotes == quotes_view(quotes@),
            kept@.total_value == total_value,
    {
        let mut copy: Vec<Quote> = Vec::new();
        let mut i: usize = 0;
        while i < quotes.len()
            invariant
                i <= quotes.len(),
                quotes_view(copy@) == quotes_view(quotes@).take(i as int),
            decreases quotes.len() - i,
        {
            let ghost before = quotes_view(copy@);
            copy.push(quotes[i].clone());
            assert(quotes_view(copy@) =~= before.push(quotes[i as int]@));
            assert(quotes_view(quotes@).take(i + 1) =~= quotes_view(quotes@).take(i as int).push(
                quotes[i as int]@,
            ));
            i += 1;
        }
        assert(quotes_view(quotes@).take(i as int) =~= quotes_view(quotes@));
        CycleSnapshot { quotes: copy, total_value }
    }
}

/// What is due on the changes since the previous cycle: on the value of the
/// portfolio, then on the price of each holding, then on the sentiment of
/// each quoted symbol.  In the first cycle there is nothing to compare with,
/// and nothing is due.
pub open spec fn spec_change_alerts(
    config: NotificationConfig,
    previous: Option<CycleSnapshotView>,
    holdings: Seq<HoldingView>,
    total: nat,
    quotes: Seq<QuoteView>,
) -> Seq<DeliveryView> {
    match previous {
        Some(before) => spec_value_alert(config, before.total_value, total) + spec_price_alerts(
            config,
            holdings,
            before.quotes,
            quotes,
        ) + spec_sentiment_alerts(config, before.quotes, quotes),
        None => Seq::empty(),
    }
}

/// How the cause of a sale is worded.
pub open spec fn spec_cause_text(cause: SaleCause) -> Seq<char> {
    match cause {
        SaleCause::StopLoss => ": Stop-loss triggered at $"@,
        SaleCause::Sentiment => ": Negative sentiment triggered at $"@,
        SaleCause::Rebalance => ": Allocation cap exceeded at $"@,
    }
}

/// The description of a sale that a cycle decided on.
pub open spec fn spec_sale_message(sale: SaleView) -> Seq<char> {
    sale.symbol + spec_cause_text(sale.cause) + spec_amount(sale.price) + " (sentiment: "@
        + spec_amount(sale.sentiment) + "), sold "@ + spec_exact(sale.quantity) + " tokens for $"@
        + spec_money(sale.proceeds) + "."@
}

/// The description of a sale that was asked for.
pub open spec fn spec_sold_message(
    symbol: Seq<char>,
    quantity: nat,
    price: nat,
    proceeds: nat,
) -> Seq<char> {
    "Sold "@ + spec_exact(quantity) + " "@ + symbol + " at $"@ + spec_amount(price) + " for $"@
        + spec_money(proceeds)
}

/// The descriptions of a list of sales, in their order.
pub open spec fn spec_sale_messages(sales: Seq<SaleView>) -> Seq<Seq<char>> {
    sales.map_values(|s: SaleView| spec_sale_message(s))
}

/// The ledger entry of a sale.
pub open spec fn spec_sale_trade(sale: SaleView, now: nat) -> TradeView {
    TradeView {
        symbol: sale.symbol,
        quantity: sale.quantity,
        price: sale.price,
        action: TradeAction::Sell,
        timestamp: now,
    }
}

/// The ledger entries of a list of sales, in their order.
pub open spec fn spec_sale_trades(sales: Seq<SaleView>, now: nat) -> Seq<TradeView> {
    sales.map_values(|s: SaleView| spec_sale_trade(s, now))
}

/// What is due on a list of sales: the description of each, in their order,
/// on every enabled channel.
pub open spec fn spec_sale_notices(sms_enabled: bool, email_enabled: bool, sales: Seq<SaleView>) -> Seq<
    DeliveryView,
>
    decreases sales.len(),
{
    if sales.len() == 0 {
        Seq::empty()
    } else {
        spec_sale_notices(sms_enabled, email_enabled, sales.drop_last()) + spec_deliveries(
            sms_enabled,
            email_enabled,
            "Portfolio Action"@,
            spec_sale_message(sales.last()),
        )
    }
}

/// The description of a sale that a cycle decided on.
pub fn sale_message(sale: &Sale) -> (message: String)
    ensures
        message@ == spec_sale_message(sale@),
{
    let mut out = String::from_str(sale.symbol.as_str());
    match sale.cause {
        SaleCause::StopLoss => out.append(": Stop-loss triggered at $"),
        SaleCause::Sentiment => out.append(": Negative sentiment triggered at $"),
        SaleCause::Rebalance => out.append(": Allocation cap exceeded at $"),
    }
    push_amount(&mut out, sale.price);
    out.append(" (sentiment: ");
    push_amount(&mut out, sale.sentiment);
    out.append("), sold ");
    push_exact(&mut out, sale.quantity);
    out.append(" tokens for $");
    push_money(&mut out, sale.proceeds);
    out.append(".");
    assert(out@ =~= spec_sale_message(sale@));
    out
}

/// The description of a sale that was asked for.
pub fn sold_message(symbol: &str, quantity: u64, price: u64, proceeds: u128) -> (message: String)
    ensures
        message@ == spec_sold_message(symbol@, quantity as nat, price as nat, proceeds as nat),
{
    let mut out = String::from_str("Sold ");
    push_exact(&mut out, quantity);
    out.append(" ");
    out.append(symbol);
    out.append(" at $");
    push_amount(&mut out, price);
    out.append(" for $");
    push_money(&mut out, proceeds);
    assert(out@ =~= spec_sold_message(symbol@, quantity as nat, price as nat, proceeds as nat));
    out
}

/// Where the holding of `symbol` stands, if there is one.
pub fn find_holding(holdings: &Vec<Holding>, symbol: &String) -> (found: Option<usize>)
    ensures
        match found {
            Some(i) => i < holdings.len() && holdings[i as int].symbol@ == symbol@,
            None => forall|i: int|
                0 <= i < holdings.len() ==> (#[trigger] holdings[i]).symbol@ != symbol@,
        },
{
    let mut i: usize = 0;
    while i < holdings.len()
        invariant
            i <= holdings.len(),
            forall|k: int| 0 <= k < i ==> (#[trigger] holdings[k]).symbol@ != symbol@,
        decreases holdings.len() - i,
    {
        if holdings[i].symbol == *symbol {
            return Some(i);
        }
        i += 1;
    }
    None
}

/// Puts `due` at the end of the outbox.
fn post(outbox: &mut Vec<Delivery>, due: Vec<Delivery>)
    ensures
        deliveries_view(final(outbox)@) == deliveries_view(old(outbox)@) + deliveries_view(due@),
{
    let mut due = due;
    let ghost added = deliveries_view(due@);
    outbox.append(&mut due);
    assert(deliveries_view(outbox@) =~= deliveries_view(old(outbox)@) + added);
}

impl Portfolio {
    /// Sells the whole holding of `symbol` at its quoted price: the holding
    /// leaves the portfolio, cash grows by quantity times price, the sale is
    /// entered in the ledger and its description is due on every enabled
    /// channel.  Returns what the sale brought.
    ///
    /// Where the symbol is not held or has no quote, or where the cash
    /// would be too large for a `u128`, that is an error and nothing
    /// changes.
    pub fn sell_holding(
        &mut self,
        symbol: &str,
        quotes: &Vec<Quote>,
        db: &mut Database,
        notifier: &Notifier,
        now: u64,
        outbox: &mut Vec<Delivery>,
    ) -> (sold: Result<u128, PortfolioError>)
        ensures
            final(self).spec_config() == old(self).spec_config(),
            final(db)@.cache == old(db)@.cache,
            match sold {
                Ok(proceeds) => exists|i: int|
                    0 <= i < old(self)@.holdings.len() && {
                        let held = #[trigger] old(self)@.holdings[i];
                        let quote = spec_find_quote(quotes_view(quotes@), symbol@);
                        &&& held.symbol == symbol@
                        &&& quote is Some
                        &&& proceeds == held.quantity * quote.unwrap().price
                        &&& final(self)@.holdings == old(self)@.holdings.remove(i)
                        &&& final(self)@.cash == old(self)@.cash + proceeds
                        &&& final(db)@.trades == old(db)@.trades.push(
                            TradeView {
                                symbol: symbol@,
                                quantity: held.quantity,
                                price: quote.unwrap().price,
                                action: TradeAction::Sell,
                                timestamp: now as nat,
                            },
                        )
                        &&& deliveries_view(final(outbox)@) == deliveries_view(old(outbox)@)
                            + spec_deliveries(
                            notifier.spec_config().sms_enabled,
                            notifier.spec_config().email_enabled,
                            "Portfolio Action"@,
                            spec_sold_message(
                                symbol@,
                                held.quantity,
                                quote.unwrap().price,
                                proceeds as nat,
                            ),
                        )
                    },
                Err(e) => {
                    &&& e is ExchangeError
                    &&& final(self)@ == old(self)@
                    &&& final(db)@ == old(db)@
                    &&& final(outbox)@ == old(outbox)@
                    &&& if !spec_holds(old(self)@.holdings, symbol@) {
                        e.spec_reason() == "Holding "@ + symbol@ + " not found"@
                    } else if spec_find_quote(quotes_view(quotes@), symbol@) is None {
                        e.spec_reason() == "No price for "@ + symbol@
                    } else {
                        &&& e.spec_reason() == "portfolio value out of range"@
                        &&& exists|i: int|
                            0 <= i < old(self)@.holdings.len() && (
                            #[trigger] old(self)@.holdings[i]).symbol == symbol@ && old(
                                self,
                            )@.cash + old(self)@.holdings[i].quantity * spec_find_quote(
                                quotes_view(quotes@),
                                symbol@,
                            ).unwrap().price > u128::MAX
                    }
                },
            },
    {
        let wanted = String::from_str(symbol);
        let ghost before = self@.holdings;
        let ghost quoted = quotes_view(quotes@);
        let held = self.holdings();
        let count: usize = held.len();
        let at: usize = match find_holding(held, &wanted) {
            Some(at) => at,
            None => {
                let mut reason = String::from_str("Holding ");
                reason.append(symbol);
                reason.append(" not found");
                assert forall|i: int| 0 <= i < before.len() implies (#[trigger] before[i]).symbol
                    != symbol@ by {
                    assert(before[i] == held[i]@);
                }
                return Err(PortfolioError::ExchangeError(reason));
            },
        };
        let quantity: u64 = held[at].quantity;
        assert(before[at as int] == held[at as int]@);
        let price: u64 = match find_quote(quotes, &wanted) {
            Some(q) => quotes[q].price,
            None => {
                let mut reason = String::from_str("No price for ");
                reason.append(symbol);
                return Err(PortfolioError::ExchangeError(reason));
            },
        };
        assert(quantity * price <= u128::MAX) by (nonlinear_arith)
            requires
                0 <= quantity <= u64::MAX,
                0 <= price <= u64::MAX,
        ;
        let proceeds: u128 = quantity as u128 * price as u128;
        if proceeds > u128::MAX - self.cash() {
            assert(before[at as int].symbol == symbol@ && self@.cash + before[at as int].quantity
                * spec_find_quote(quoted, symbol@).unwrap().price > u128::MAX);
            return Err(
                PortfolioError::ExchangeError(String::from_str("portfolio value out of range")),
            );
        }
        let cash: u128 = self.cash() + proceeds;
        let mut kept: Vec<Holding> = Vec::new();
        let mut i: usize = 0;
        while i < count
            invariant
                i <= count,
                at < count,
                count == before.len(),
                count == held.len(),
                before == holdings_view(held@),
                holdings_view(kept@) == if i <= at {
                    before.take(i as int)
                } else {
                    before.take(i as int).remove(at as int)
                },
            decreases count - i,
        {
            let ghost kept_before = holdings_view(kept@);
            if i != at {
                kept.push(held[i].clone());
                proof {
                    assert(holdings_view(kept@) =~= kept_before.push(before[i as int]));
                    if i < at {
                        assert(before.take(i + 1) =~= before.take(i as int).push(before[i as int]));
                    } else {
                        assert(before.take(i + 1).remove(at as int) =~= before.take(
                            i as int,
                        ).remove(at as int).push(before[i as int]));
                    }
                }
            } else {
                assert(before.take(i + 1).remove(at as int) =~= before.take(i as int));
            }
            i += 1;
        }
        proof {
            assert(before.take(i as int) =~= before);
            let after = before.remove(at as int);
            assert forall|a: int, b: int| 0 <= a < b < after.len() implies (#[trigger] after[a]).symbol
                != (#[trigger] after[b]).symbol by {
                let from_a = if a < at {
                    a
                } else {
                    a + 1
                };
                let from_b = if b < at {
                    b
                } else {
                    b + 1
                };
                assert(after[a] == before[from_a] && after[b] == before[from_b]);
            }
            assert forall|a: int| 0 <= a < after.len() implies (#[trigger] after[a]).quantity
                > 0 by {
                let from_a = if a < at {
                    a
                } else {
                    a + 1
                };
                assert(after[a] == before[from_a]);
            }
        }
        self.settle(kept, cash);
        db.log_trade(symbol, quantity, price, TradeAction::Sell, now);
        let message = sold_message(symbol, quantity, price, proceeds);
        post(outbox, notifier.notify_significant_action(message.as_str()));
        proof {
            let witness = before[at as int];
            assert(witness.symbol == symbol@);
            assert(self@.holdings == before.remove(at as int));
        }
        Ok(proceeds)
    }

    /// One cycle on the portfolio, for the quotes that were gathered for it.
    ///
    /// The holdings that reached a floor are sold, the holdings over their
    /// cap are trimmed, every sale is entered in the ledger and described on
    /// every enabled channel, and then the changes since the previous cycle
    /// are checked against their thresholds.  Returns what the portfolio is
    /// worth, which the sales do not change, and the descriptions of the
    /// sales.
    ///
    /// Where that worth is too large for a `u128`, that is an error and
    /// nothing changes.
    pub fn check_portfolio(
        &mut self,
        quotes: &Vec<Quote>,
        db: &mut Database,
        notifier: &Notifier,
        policy: &RiskPolicy,
        previous: Option<&CycleSnapshot>,
        now: u64,
        outbox: &mut Vec<Delivery>,
    ) -> (checked: Result<CycleReport, PortfolioError>)
        ensures
            final(self).spec_config() == old(self).spec_config(),
            final(db)@.cache == old(db)@.cache,
            match checked {
                Ok(report) => {
                    let quoted = quotes_view(quotes@);
                    let worth = old(self)@.total_value(quoted);
                    let survivors = spec_survivors(
                        old(self)@.holdings,
                        quoted,
                        policy.negative_threshold as nat,
                    );
                    let sales = spec_liquidations(
                        old(self)@.holdings,
                        quoted,
                        policy.negative_threshold as nat,
                    ) + spec_trims(survivors, quoted, worth, *policy);
                    &&& report.total_value == worth
                    &&& texts_view(report.actions@) == spec_sale_messages(sales)
                    &&& final(self)@.total_value(quoted) == worth
                    &&& final(self)@.holdings == spec_rebalanced(survivors, quoted, worth, *policy)
                    &&& final(self)@.cash == old(self)@.cash + spec_proceeds(sales)
                    &&& final(db)@.trades == old(db)@.trades + spec_sale_trades(sales, now as nat)
                    &&& deliveries_view(final(outbox)@) == deliveries_view(old(outbox)@)
                        + spec_sale_notices(
                        notifier.spec_config().sms_enabled,
                        notifier.spec_config().email_enabled,
                        sales,
                    ) + spec_change_alerts(
                        notifier.spec_config(),
                        match previous {
                            Some(p) => Some(p@),
                            None => None,
                        },
                        final(self)@.holdings,
                        worth,
                        quoted,
                    )
                },
                Err(e) => {
                    &&& e is ExchangeError
                    &&& e.spec_reason() == "portfolio value out of range"@
                    &&& old(self)@.total_value(quotes_view(quotes@)) > u128::MAX
                    &&& final(self)@ == old(self)@
                    &&& final(db)@ == old(db)@
                    &&& final(outbox)@ == old(outbox)@
                },
            },
    {
        let sales: Vec<Sale> = match self.evaluate(quotes, policy) {
            Ok(sales) => sales,
            Err(e) => {
                return Err(e);
            },
        };
        let ghost sold = sales_view(sales@);
        let ghost ledger = db@.trades;
        let ghost posted = deliveries_view(outbox@);
        let ghost sms = notifier.spec_config().sms_enabled;
        let ghost email = notifier.spec_config().email_enabled;
        let mut actions: Vec<String> = Vec::new();
        let mut i: usize = 0;
        assert(texts_view(actions@) =~= spec_sale_messages(sold.take(0)));
        assert(spec_sale_trades(sold.take(0), now as nat) =~= Seq::<TradeView>::empty());
        assert(ledger + Seq::<TradeView>::empty() =~= ledger);
        assert(posted + Seq::<DeliveryView>::empty() =~= posted);
        while i < sales.len()
            invariant
                i <= sales.len(),
                sold == sales_view(sales@),
                sms == notifier.spec_config().sms_enabled,
                email == notifier.spec_config().email_enabled,
                db@.cache == old(db)@.cache,
                db@.trades == ledger + spec_sale_trades(sold.take(i as int), now as nat),
                texts_view(actions@) == spec_sale_messages(sold.take(i as int)),
                deliveries_view(outbox@) == posted + spec_sale_notices(
                    sms,
                    email,
                    sold.take(i as int),
                ),
            decreases sales.len() - i,
        {
            let sale = &sales[i];
            let ghost noticed = spec_sale_notices(sms, email, sold.take(i as int));
            proof {
                assert(sold.take(i + 1).drop_last() =~= sold.take(i as int));
                assert(sold.take(i + 1).last() == sale@);
                assert(spec_sale_trades(sold.take(i + 1), now as nat) =~= spec_sale_trades(
                    sold.take(i as int),
                    now as nat,
                ).push(spec_sale_trade(sale@, now as nat)));
            }
            db.log_trade(sale.symbol.as_str(), sale.quantity, sale.price, TradeAction::Sell, now);
            let message = sale_message(sale);
            let ghost due = spec_deliveries(sms, email, "Portfolio Action"@, message@);
            post(outbox, notifier.notify_significant_action(message.as_str()));
            let ghost told = texts_view(actions@);
            actions.push(message);
            proof {
                assert(db@.trades =~= ledger + spec_sale_trades(sold.take(i + 1), now as nat));
                assert(posted + noticed + due =~= posted + (noticed + due));
                assert(texts_view(actions@) =~= told.push(spec_sale_message(sale@)));
                assert(spec_sale_messages(sold.take(i + 1)) =~= spec_sale_messages(
                    sold.take(i as int),
                ).push(spec_sale_message(sale@)));
            }
            i += 1;
        }
        proof {
            assert(sold.take(i as int) =~= sold);
        }
        let total: u128 = match self.get_value(quotes) {
            Ok(total) => total,
            Err(e) => {
                proof {
                    assert(false);
                }
                return Err(e);
            },
        };
        let ghost noticed = deliveries_view(outbox@);
        match previous {
            Some(before) => {
                let ghost first = deliveries_view(outbox@);
                post(
                    outbox,
                    notifier.notify_major_change(
                        self,
                        before.total_value,
                        total,
                        &before.quotes,
                        quotes,
                    ),
                );
                let ghost second = deliveries_view(outbox@);
                post(outbox, notifier.notify_sentiment_changes(&before.quotes, quotes));
                proof {
                    let config = notifier.spec_config();
                    let value = spec_value_alert(config, before@.total_value, total as nat);
                    let prices = spec_price_alerts(
                        config,
                        self@.holdings,
                        before@.quotes,
                        quotes_view(quotes@),
                    );
                    let moods = spec_sentiment_alerts(
                        config,
                        before@.quotes,
                        quotes_view(quotes@),
                    );
                    assert(noticed + (value + prices) + moods =~= noticed + (value + prices
                        + moods));
                }
            },
            None => {
                assert(noticed + Seq::<DeliveryView>::empty() =~= noticed);
            },
        }
        Ok(CycleReport { total_value: total, actions })
    }
}

} // verus!
