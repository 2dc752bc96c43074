//! Holdings, the portfolio that owns them, and its valuation.

use vstd::prelude::*;
use crate::config::PortfolioConfig;
use crate::errors::PortfolioError;
use crate::quote::{Quote, QuoteView, quotes_view, spec_price_of, find_quote};

verus! {

/// One asset position.  Quantity and prices are counts of millionths.
#[derive(Debug)]
pub struct Holding {
    pub symbol: String,
    pub quantity: u64,
    pub purchase_price: u64,
    pub stop_loss: u64,
}

/// The mathematical content of a [`Holding`].
pub struct HoldingView {
    pub symbol: Seq<char>,
    pub quantity: nat,
    pub purchase_price: nat,
    pub stop_loss: nat,
}

impl View for Holding {
    type V = HoldingView;

    open spec fn view(&self) -> HoldingView {
        HoldingView {
            symbol: self.symbol@,
            quantity: self.quantity as nat,
            purchase_price: self.purchase_price as nat,
            stop_loss: self.stop_loss as nat,
        }
    }
}

impl Clone for Holding {
    fn clone(&self) -> (copy: Holding)
        ensures
            copy@ == self@,
    {
        Holding {
            symbol: self.symbol.clone(),
            quantity: self.quantity,
            purchase_price: self.purchase_price,
            stop_loss: self.stop_loss,
        }
    }
}

/// The contents of a list of holdings.
pub open spec fn holdings_view(holdings: Seq<Holding>) -> Seq<HoldingView> {
    holdings.map_values(|h: Holding| h@)
}

/// No two holdings share a symbol.
pub open spec fn spec_distinct_symbols(holdings: Seq<HoldingView>) -> bool {
    forall|i: int, j: int|
        0 <= i < j < holdings.len() ==> (#[trigger] holdings[i]).symbol != (
        #[trigger] holdings[j]).symbol
}

/// What holds of the holdings of every portfolio: no symbol occurs twice, and
/// no position is empty.
pub open spec fn spec_well_formed(holdings: Seq<HoldingView>) -> bool {
    &&& spec_distinct_symbols(holdings)
    &&& forall|i: int| 0 <= i < holdings.len() ==> (#[trigger] holdings[i]).quantity > 0
}

/// Whether one of `holdings` has the symbol `symbol`.
pub open spec fn spec_holds(holdings: Seq<HoldingView>, symbol: Seq<char>) -> bool {
    exists|i: int| 0 <= i < holdings.len() && (#[trigger] holdings[i]).symbol == symbol
}

/// The value of one position at the quoted price.
pub open spec fn spec_position_value(holding: HoldingView, quotes: Seq<QuoteView>) -> nat {
    holding.quantity * spec_price_of(quotes, holding.symbol)
}

/// The sum of the values of `holdings` at the quoted prices.
pub open spec fn spec_holdings_value(holdings: Seq<HoldingView>, quotes: Seq<QuoteView>) -> nat
    decreases holdings.len(),
{
    if holdings.len() == 0 {
        0
    } else {
        spec_holdings_value(holdings.drop_last(), quotes) + spec_position_value(
            holdings.last(),
            quotes,
        )
    }
}

/// The holdings with a positive quantity, in their order.
pub open spec fn spec_open_positions(holdings: Seq<HoldingView>) -> Seq<HoldingView>
    decreases holdings.len(),
{
    if holdings.len() == 0 {
        Seq::empty()
    } else if holdings.last().quantity > 0 {
        spec_open_positions(holdings.drop_last()).push(holdings.last())
    } else {
        spec_open_positions(holdings.drop_last())
    }
}

/// The mathematical content of a [`Portfolio`].
pub struct PortfolioView {
    pub holdings: Seq<HoldingView>,
    pub cash: nat,
}

impl PortfolioView {
    /// Cash and the value of every position at the quoted prices.
    pub open spec fn total_value(self, quotes: Seq<QuoteView>) -> nat {
        self.cash + spec_holdings_value(self.holdings, quotes)
    }
}

/// An ordered list of holdings with distinct symbols, and cash.
///
/// Value is counted in million-millionths of the currency: the product of a
/// quantity and a price.
#[derive(Debug)]
pub struct Portfolio {
    holdings: Vec<Holding>,
    cash: u128,
    config: PortfolioConfig,
}

impl View for Portfolio {
    type V = PortfolioView;

    closed spec fn view(&self) -> PortfolioView {
        PortfolioView { holdings: holdings_view(self.holdings@), cash: self.cash as nat }
    }
}

/// The value of a longer list of holdings is not smaller.
pub proof fn lemma_holdings_value_prefix(
    holdings: Seq<HoldingView>,
    quotes: Seq<QuoteView>,
    n: int,
)
    requires
        0 <= n <= holdings.len(),
    ensures
        spec_holdings_value(holdings.take(n), quotes) <= spec_holdings_value(holdings, quotes),
    decreases holdings.len() - n,
{
    if n == holdings.len() {
        assert(holdings.take(n) =~= holdings);
    } else {
        assert(holdings.take(n + 1).drop_last() =~= holdings.take(n));
        lemma_holdings_value_prefix(holdings, quotes, n + 1);
    }
}

/// The open positions of well-kept holdings keep their distinct symbols.
pub proof fn lemma_open_positions(holdings: Seq<HoldingView>)
    requires
        spec_distinct_symbols(holdings),
    ensures
        spec_well_formed(spec_open_positions(holdings)),
        forall|k: int|
            0 <= k < spec_open_positions(holdings).len() ==> holdings.contains(
                #[trigger] spec_open_positions(holdings)[k],
            ),
    decreases holdings.len(),
{
    if holdings.len() > 0 {
        let front = holdings.drop_last();
        let kept = spec_open_positions(front);
        assert forall|i: int, j: int| 0 <= i < j < front.len() implies (#[trigger] front[i]).symbol
            != (#[trigger] front[j]).symbol by {
            assert(front[i] == holdings[i] && front[j] == holdings[j]);
        }
        lemma_open_positions(front);
        assert forall|k: int| 0 <= k < kept.len() implies holdings.contains(#[trigger] kept[k]) by {
            let i = choose|i: int| 0 <= i < front.len() && front[i] == kept[k];
            assert(holdings[i] == kept[k]);
        }
        if holdings.last().quantity > 0 {
            let all = kept.push(holdings.last());
            assert(holdings[holdings.len() - 1] == holdings.last());
            assert forall|i: int, j: int| 0 <= i < j < all.len() implies (#[trigger] all[i]).symbol
                != (#[trigger] all[j]).symbol by {
                if j == kept.len() {
                    let a = choose|a: int| 0 <= a < front.len() && front[a] == kept[i];
                    assert(holdings[a] == kept[i]);
                    assert(holdings[a].symbol != holdings[holdings.len() - 1].symbol);
                }
            }
        }
    }
}

impl Portfolio {
    /// What holds of every portfolio: its holdings are well formed.
    #[verifier::type_invariant]
    pub closed spec fn inv(self) -> bool {
        spec_well_formed(holdings_view(self.holdings@))
    }

    /// A portfolio of the open positions among `holdings`, in their order,
    /// and `cash`.
    ///
    /// The holdings are supplied as data.  A position with nothing in it is
    /// left out, and a symbol that occurs twice is a configuration error.
    pub fn new(holdings: Vec<Holding>, cash: u128, config: PortfolioConfig) -> (made: Result<
        Portfolio,
        PortfolioError,
    >)
        ensures
            match made {
                Ok(p) => {
                    &&& spec_distinct_symbols(holdings_view(holdings@))
                    &&& p@.holdings == spec_open_positions(holdings_view(holdings@))
                    &&& p@.cash == cash
                    &&& p.spec_config() == config
                },
                Err(e) => {
                    &&& !spec_distinct_symbols(holdings_view(holdings@))
                    &&& e is ConfigError
                    &&& e.spec_reason() == "a symbol is held twice"@
                },
            },
    {
        let ghost all = holdings_view(holdings@);
        let mut kept: Vec<Holding> = Vec::new();
        let mut i: usize = 0;
        while i < holdings.len()
            invariant
                i <= holdings.len(),
                all == holdings_view(holdings@),
                spec_distinct_symbols(all.take(i as int)),
                holdings_view(kept@) == spec_open_positions(all.take(i as int)),
            decreases holdings.len() - i,
        {
            let mut j: usize = 0;
            while j < i
                invariant
                    j <= i < holdings.len(),
                    all == holdings_view(holdings@),
                    forall|k: int| 0 <= k < j ==> (#[trigger] all[k]).symbol != all[i as int].symbol,
                decreases i - j,
            {
                if holdings[j].symbol == holdings[i].symbol {
                    assert(all[j as int].symbol == all[i as int].symbol);
                    return Err(
                        PortfolioError::ConfigError(
                            String::from_str("a symbol is held twice"),
                        ),
                    );
                }
                j += 1;
            }
            proof {
                let before = all.take(i as int);
                let after = all.take(i + 1);
                assert(after.drop_last() =~= before);
                assert(after.last() == all[i as int]);
                assert forall|a: int, b: int| 0 <= a < b < after.len() implies (
                #[trigger] after[a]).symbol != (#[trigger] after[b]).symbol by {
                    if b < i {
                        assert(before[a] == after[a] && before[b] == after[b]);
                    }
                }
            }
            if holdings[i].quantity > 0 {
                let ghost old_kept = holdings_view(kept@);
                kept.push(holdings[i].clone());
                assert(holdings_view(kept@) =~= old_kept.push(all[i as int]));
            }
            i += 1;
        }
        proof {
            assert(all.take(i as int) =~= all);
            lemma_open_positions(all);
        }
        Ok(Portfolio { holdings: kept, cash, config })
    }

    /// Replaces holdings and cash at the end of a pass.
    pub(crate) fn settle(&mut self, holdings: Vec<Holding>, cash: u128)
        requires
            spec_well_formed(holdings_view(holdings@)),
        ensures
            final(self)@.holdings == holdings_view(holdings@),
            final(self)@.cash == cash,
            final(self).spec_config() == old(self).spec_config(),
    {
        self.holdings = holdings;
        self.cash = cash;
    }

    /// The holdings, in their order.
    pub fn holdings(&self) -> (held: &Vec<Holding>)
        ensures
            holdings_view(held@) == self@.holdings,
            spec_well_formed(self@.holdings),
    {
        proof {
            use_type_invariant(self);
        }
        &self.holdings
    }

    /// The cash balance.
    pub fn cash(&self) -> (cash: u128)
        ensures
            cash == self@.cash,
    {
        self.cash
    }

    /// The configuration that the portfolio was made with.
    pub closed spec fn spec_config(self) -> PortfolioConfig {
        self.config
    }

    /// The configuration that the portfolio was made with.
    pub fn config(&self) -> (config: PortfolioConfig)
        ensures
            config == self.spec_config(),
    {
        self.config
    }

    /// Cash and the value of every position at the quoted prices.
    ///
    /// A holding without a quote counts for nothing.  The sum is exact; where
    /// it is too large for a `u128`, that is an error.
    pub fn get_value(&self, quotes: &Vec<Quote>) -> (value: Result<u128, PortfolioError>)
        ensures
            match value {
                Ok(v) => v == self@.total_value(quotes_view(quotes@)),
                Err(e) => {
                    &&& e is ExchangeError
                    &&& e.spec_reason() == "portfolio value out of range"@
                    &&& self@.total_value(quotes_view(quotes@)) > u128::MAX
                },
            },
    {
        let ghost held = holdings_view(self.holdings@);
        let ghost quoted = quotes_view(quotes@);
        let mut total: u128 = self.cash;
        let mut i: usize = 0;
        while i < self.holdings.len()
            invariant
                i <= self.holdings.len(),
                held == holdings_view(self.holdings@),
                quoted == quotes_view(quotes@),
                total == self.cash + spec_holdings_value(held.take(i as int), quoted),
            decreases self.holdings.len() - i,
        {
            let value: u128 = position_value(&self.holdings[i], quotes);
            proof {
                assert(held.take(i + 1).drop_last() =~= held.take(i as int));
                assert(held.take(i + 1).last() == self.holdings[i as int]@);
                lemma_holdings_value_prefix(held, quoted, i + 1);
            }
            if value > u128::MAX - total {
                return Err(
                    PortfolioError::ExchangeError(String::from_str("portfolio value out of range")),
                );
            }
            total = total + value;
            i += 1;
        }
        proof {
            assert(held.take(i as int) =~= held);
        }
        Ok(total)
    }
}

/// The value of one position at the quoted price, and nothing where the
/// symbol has no quote.
pub fn position_value(holding: &Holding, quotes: &Vec<Quote>) -> (value: u128)
    ensures
        value == spec_position_value(holding@, quotes_view(quotes@)),
{
    match find_quote(quotes, &holding.symbol) {
        Some(i) => {
            let quantity: u128 = holding.quantity as u128;
            let price: u128 = quotes[i].price as u128;
            assert(quantity * price <= u128::MAX) by (nonlinear_arith)
                requires
                    0 <= quantity <= u64::MAX,
                    0 <= price <= u64::MAX,
            ;
            quantity * price
        },
        None => {
            assert(holding@.quantity * 0 == 0) by (nonlinear_arith);
            0
        },
    }
}

} // verus!
