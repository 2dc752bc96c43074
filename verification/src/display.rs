//! What the screens show of a portfolio, as text; drawing the table is left
//! to whoever shows it.

use vstd::prelude::*;
use crate::portfolio::{
    Holding,
    HoldingView,
    Portfolio,
    position_value,
    spec_position_value,
};
use crate::quote::{
    NEUTRAL_SENTIMENT,
    Quote,
    QuoteView,
    quotes_view,
    spec_find_quote,
    find_quote,
};
use crate::text::{push_amount, push_money, spec_amount, spec_money};

verus! {

/// What to do with a holding, going by its sentiment.
#[derive(Clone, Copy, Debug, PartialEq, Eq, Structural)]
pub enum Recommendation {
    HoldBuy,
    Sell,
    Monitor,
}

/// What to do with a holding of this sentiment: hold or buy at or above
/// the positive threshold, else sell at or under the negative one, else
/// wait and see.
pub fn recommendation(sentiment: u64, positive_threshold: u64, negative_threshold: u64) -> (advice:
    Recommendation)
    ensures
        advice == if sentiment >= positive_threshold {
            Recommendation::HoldBuy
        } else if sentiment <= negative_threshold {
            Recommendation::Sell
        } else {
            Recommendation::Monitor
        },
{
    if sentiment >= positive_threshold {
        Recommendation::HoldBuy
    } else if sentiment <= negative_threshold {
        Recommendation::Sell
    } else {
        Recommendation::Monitor
    }
}

/// How a recommendation is worded.
pub fn recommendation_text(advice: Recommendation) -> (text: &'static str)
    ensures
        text@ == match advice {
            Recommendation::HoldBuy => "Hold/Buy"@,
            Recommendation::Sell => "Sell"@,
            Recommendation::Monitor => "Monitor"@,
        },
{
    match advice {
        Recommendation::HoldBuy => "Hold/Buy",
        Recommendation::Sell => "Sell",
        Recommendation::Monitor => "Monitor",
    }
}

/// Where the sentiment score that is shown comes from, given for how many
/// seconds the cache will still serve it: from the cache while it holds the
/// score, and else from the provider, with no time left.
pub fn sentiment_source(time_left: Option<u64>) -> (source: (&'static str, u64))
    ensures
        match time_left {
            Some(left) => source.0@ == "Redis Cache"@ && source.1 == left,
            None => source.0@ == "API Fetch"@ && source.1 == 0,
        },
{
    match time_left {
        Some(left) => ("Redis Cache", left),
        None => ("API Fetch", 0),
    }
}

/// The sentiment score that is shown for a holding: that of its quote, and
/// the neutral one half where it has none.
pub open spec fn spec_shown_sentiment(holding: HoldingView, quotes: Seq<QuoteView>) -> nat {
    match spec_find_quote(quotes, holding.symbol) {
        Some(q) => q.sentiment,
        None => NEUTRAL_SENTIMENT as nat,
    }
}

/// The row of one holding: symbol, quantity, purchase price, price floor,
/// value at the quoted price and sentiment.
pub open spec fn spec_holding_row(holding: HoldingView, quotes: Seq<QuoteView>) -> Seq<Seq<char>> {
    seq![
        holding.symbol,
        spec_amount(holding.quantity),
        "$"@ + spec_amount(holding.purchase_price),
        "$"@ + spec_amount(holding.stop_loss),
        "$"@ + spec_money(spec_position_value(holding, quotes)),
        spec_amount(spec_shown_sentiment(holding, quotes)),
    ]
}

/// The rows of the holdings, in their order.
pub open spec fn spec_holding_rows(holdings: Seq<HoldingView>, quotes: Seq<QuoteView>) -> Seq<
    Seq<Seq<char>>,
> {
    holdings.map_values(|h: HoldingView| spec_holding_row(h, quotes))
}

/// The row of the cash balance.
pub open spec fn spec_cash_row(cash: nat) -> Seq<Seq<char>> {
    seq!["Cash"@, "$"@ + spec_money(cash), ""@, ""@, ""@, ""@]
}

/// The row of the total.
pub open spec fn spec_total_row(total: nat) -> Seq<Seq<char>> {
    seq!["Total"@, ""@, ""@, ""@, "$"@ + spec_money(total), ""@]
}

/// The contents of a row of cells.
pub open spec fn row_view(row: Vec<String>) -> Seq<Seq<char>> {
    row@.map_values(|cell: String| cell@)
}

/// The contents of a list of rows.
pub open spec fn rows_view(rows: Seq<Vec<String>>) -> Seq<Seq<Seq<char>>> {
    rows.map_values(|row: Vec<String>| row_view(row))
}

/// A number of millionths with two decimal places, after `prefix`.
fn amount_cell(prefix: &str, millionths: u64) -> (cell: String)
    ensures
        cell@ == prefix@ + spec_amount(millionths as nat),
{
    let mut cell = String::from_str(prefix);
    push_amount(&mut cell, millionths);
    cell
}

/// An amount of money with two decimal places, after a dollar sign.
fn money_cell(value: u128) -> (cell: String)
    ensures
        cell@ == "$"@ + spec_money(value as nat),
{
    let mut cell = String::from_str("$");
    push_money(&mut cell, value);
    cell
}

/// The row of one holding.
pub fn holding_row(holding: &Holding, quotes: &Vec<Quote>) -> (row: Vec<String>)
    ensures
        row_view(row) == spec_holding_row(holding@, quotes_view(quotes@)),
{
    let sentiment: u64 = match find_quote(quotes, &holding.symbol) {
        Some(i) => quotes[i].sentiment,
        None => NEUTRAL_SENTIMENT,
    };
    let mut row: Vec<String> = Vec::new();
    row.push(holding.symbol.clone());
    row.push(amount_cell("", holding.quantity));
    row.push(amount_cell("$", holding.purchase_price));
    row.push(amount_cell("$", holding.stop_loss));
    row.push(money_cell(position_value(holding, quotes)));
    row.push(amount_cell("", sentiment));
    proof {
        reveal_strlit("");
        assert(""@ + spec_amount(holding.quantity as nat) =~= spec_amount(holding.quantity as nat));
        assert(""@ + spec_amount(sentiment as nat) =~= spec_amount(sentiment as nat));
        assert(row_view(row) =~= spec_holding_row(holding@, quotes_view(quotes@)));
    }
    row
}

/// The rows of the portfolio's table under its header: one for each
/// holding, one for the cash balance, and one for the total.
pub fn portfolio_rows(portfolio: &Portfolio, total_value: u128, quotes: &Vec<Quote>) -> (rows: Vec<
    Vec<String>,
>)
    ensures
        rows_view(rows@) == spec_holding_rows(portfolio@.holdings, quotes_view(quotes@)).push(
            spec_cash_row(portfolio@.cash),
        ).push(spec_total_row(total_value as nat)),
{
    let holdings = portfolio.holdings();
    let ghost held = portfolio@.holdings;
    let ghost quoted = quotes_view(quotes@);
    let mut rows: Vec<Vec<String>> = Vec::new();
    let mut i: usize = 0;
    while i < holdings.len()
        invariant
            i <= holdings.len(),
            held == crate::portfolio::holdings_view(holdings@),
            quoted == quotes_view(quotes@),
            rows_view(rows@) == spec_holding_rows(held.take(i as int), quoted),
        decreases holdings.len() - i,
    {
        let ghost before = rows_view(rows@);
        let row = holding_row(&holdings[i], quotes);
        rows.push(row);
        proof {
            assert(rows_view(rows@) =~= before.push(spec_holding_row(held[i as int], quoted)));
            assert(spec_holding_rows(held.take(i + 1), quoted) =~= spec_holding_rows(
                held.take(i as int),
                quoted,
            ).push(spec_holding_row(held[i as int], quoted)));
        }
        i += 1;
    }
    proof {
        assert(held.take(i as int) =~= held);
    }
    let ghost listed = rows_view(rows@);
    let mut cash: Vec<String> = Vec::new();
    cash.push(String::from_str("Cash"));
    cash.push(money_cell(portfolio.cash()));
    cash.push(String::new());
    cash.push(String::new());
    cash.push(String::new());
    cash.push(String::new());
    let mut total: Vec<String> = Vec::new();
    total.push(String::from_str("Total"));
    total.push(String::new());
    total.push(String::new());
    total.push(String::new());
    total.push(money_cell(total_value));
    total.push(String::new());
    proof {
        reveal_strlit("");
        assert(""@ =~= Seq::<char>::empty());
        assert(row_view(cash) =~= spec_cash_row(portfolio@.cash));
        assert(row_view(total) =~= spec_total_row(total_value as nat));
    }
    rows.push(cash);
    rows.push(total);
    assert(rows_view(rows@) =~= listed.push(spec_cash_row(portfolio@.cash)).push(
        spec_total_row(total_value as nat),
    ));
    rows
}

} // verus!
