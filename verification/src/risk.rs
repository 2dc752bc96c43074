//! The decisions of one cycle: which holdings are sold in full, and which are
//! trimmed back to the largest share that one holding may have.

use vstd::prelude::*;
use vstd::arithmetic::div_mod::{
    lemma_div_denominator,
    lemma_fundamental_div_mod,
    lemma_fundamental_div_mod_converse,
};
use crate::errors::PortfolioError;
use crate::fixed::{SCALE, product_exceeds};
use crate::portfolio::{
    Holding,
    HoldingView,
    Portfolio,
    holdings_view,
    lemma_holdings_value_prefix,
    spec_distinct_symbols,
    spec_holdings_value,
    spec_holds,
    spec_position_value,
    spec_well_formed,
};
use crate::quote::{Quote, QuoteView, quotes_view, spec_find_quote, spec_price_of, find_quote};

verus! {

/// Why a sale was made.
#[derive(Clone, Copy, Debug, PartialEq, Eq, Structural)]
pub enum SaleCause {
    /// The price was at or under the holding's floor.
    StopLoss,
    /// The sentiment score was under the negative threshold.
    Sentiment,
    /// The holding was worth more than its largest share of the portfolio.
    Rebalance,
}

/// The thresholds that the decisions of a cycle are taken against, in
/// millionths.
#[derive(Clone, Copy, Debug)]
pub struct RiskPolicy {
    /// A holding is sold where its sentiment is under this score.
    pub negative_threshold: u64,
    /// A holding is not trimmed while its sentiment is at or above this score.
    pub positive_threshold: u64,
    /// The largest share of the portfolio's value that one holding may have.
    pub max_allocation: u64,
}

/// Whether `quantity` at `price` is worth more than the share
/// `max_allocation` of `total`.  A holding exactly at its cap is not over it.
pub open spec fn spec_over_cap(quantity: nat, price: nat, total: nat, max_allocation: nat) -> bool {
    quantity * price * SCALE > max_allocation * total
}

/// What is left of `quantity` after rebalancing: all of it where the holding
/// is not over its cap, and else as much as the cap has room for.
pub open spec fn spec_kept_quantity(
    quantity: nat,
    price: nat,
    total: nat,
    max_allocation: nat,
) -> nat {
    if spec_over_cap(quantity, price, total, max_allocation) {
        ((max_allocation * total) as int / (SCALE * price)) as nat
    } else {
        quantity
    }
}

/// Why the holding is sold in full, if it is.
///
/// The price floor and the sentiment floor are independent; where both are
/// reached, the price floor is the cause that is reported.  No decision is
/// taken on a holding whose quote is missing or was carried forward.
pub open spec fn spec_liquidation_cause(
    holding: HoldingView,
    quotes: Seq<QuoteView>,
    negative_threshold: nat,
) -> Option<SaleCause> {
    match spec_find_quote(quotes, holding.symbol) {
        Some(q) => if !q.fresh {
            None
        } else if q.price <= holding.stop_loss {
            Some(SaleCause::StopLoss)
        } else if q.sentiment < negative_threshold {
            Some(SaleCause::Sentiment)
        } else {
            None
        },
        None => None,
    }
}

/// How much of the holding is sold to bring it back under its cap, for a
/// portfolio worth `total`.
///
/// A holding is trimmed only on a fresh quote, and only while its sentiment
/// is under the positive threshold: one of strong sentiment may stay over its
/// cap.
pub open spec fn spec_trim(
    holding: HoldingView,
    quotes: Seq<QuoteView>,
    total: nat,
    policy: RiskPolicy,
) -> nat {
    match spec_find_quote(quotes, holding.symbol) {
        Some(q) => if q.fresh && q.sentiment < policy.positive_threshold {
            (holding.quantity - spec_kept_quantity(
                holding.quantity,
                q.price,
                total,
                policy.max_allocation as nat,
            )) as nat
        } else {
            0
        },
        None => 0,
    }
}

/// After a trim the holding is at or under its cap, selling one unit less
/// would have left it over, and something was sold but never more than was
/// held.
pub proof fn lemma_trim_restores_cap(quantity: nat, price: nat, total: nat, max_allocation: nat)
    requires
        spec_over_cap(quantity, price, total, max_allocation),
    ensures
        price > 0,
        spec_kept_quantity(quantity, price, total, max_allocation) < quantity,
        !spec_over_cap(
            spec_kept_quantity(quantity, price, total, max_allocation),
            price,
            total,
            max_allocation,
        ),
        spec_over_cap(
            spec_kept_quantity(quantity, price, total, max_allocation) + 1,
            price,
            total,
            max_allocation,
        ),
{
    let scale = SCALE as int;
    let x = (max_allocation * total) as int;
    let d = scale * price;
    assert(price > 0) by (nonlinear_arith)
        requires
            quantity * price * scale > x,
            x >= 0,
    ;
    assert(d > 0) by (nonlinear_arith)
        requires
            d == scale * price,
            price > 0,
            scale > 0,
    ;
    let kept = x / d;
    lemma_fundamental_div_mod(x, d);
    vstd::arithmetic::div_mod::lemma_mod_pos_bound(x, d);
    vstd::arithmetic::div_mod::lemma_div_pos_is_pos(x, d);
    assert(kept * price * scale == d * kept) by (nonlinear_arith)
        requires
            d == scale * price,
    ;
    assert((kept + 1) * price * scale == d * kept + d) by (nonlinear_arith)
        requires
            d == scale * price,
    ;
    assert(kept < quantity) by (nonlinear_arith)
        requires
            quantity * price * scale > x,
            x >= kept * price * scale,
            price > 0,
            scale > 0,
            kept >= 0,
    ;
}

/// A holding that is not over its cap keeps all it has.
pub proof fn lemma_no_trim_at_cap(quantity: nat, price: nat, total: nat, max_allocation: nat)
    requires
        quantity * price * SCALE <= max_allocation * total,
    ensures
        spec_kept_quantity(quantity, price, total, max_allocation) == quantity,
{
}

/// How much of `quantity` is sold to bring a holding priced at `price` back
/// under the share `max_allocation` of a portfolio worth `total_value`:
/// nothing where it is not over the cap, and else the least amount that
/// leaves it at or under the cap.
pub fn trim_quantity(quantity: u64, price: u64, total_value: u128, max_allocation: u64) -> (sell:
    u64)
    ensures
        sell == quantity - spec_kept_quantity(
            quantity as nat,
            price as nat,
            total_value as nat,
            max_allocation as nat,
        ),
        sell <= quantity,
{
    assert(quantity * price <= u128::MAX) by (nonlinear_arith)
        requires
            0 <= quantity <= u64::MAX,
            0 <= price <= u64::MAX,
    ;
    let value: u128 = quantity as u128 * price as u128;
    if !product_exceeds(value, SCALE, total_value, max_allocation) {
        assert(max_allocation * total_value == total_value * max_allocation) by (nonlinear_arith);
        return 0;
    }
    let scale: u128 = SCALE as u128;
    let share: u128 = max_allocation as u128;
    let whole: u128 = total_value / scale;
    let part: u128 = total_value % scale;
    let ghost x: int = max_allocation * total_value;
    proof {
        assert(x == total_value * max_allocation) by (nonlinear_arith)
            requires
                x == max_allocation * total_value,
        ;
        lemma_trim_restores_cap(
            quantity as nat,
            price as nat,
            total_value as nat,
            max_allocation as nat,
        );
        assert(whole * share < value) by (nonlinear_arith)
            requires
                value * scale > x,
                x == share * total_value,
                total_value == whole * scale + part,
                part >= 0,
                share >= 0,
                scale > 0,
        ;
        assert(part * share <= 1_000_000 * u64::MAX) by (nonlinear_arith)
            requires
                0 <= part < 1_000_000,
                0 <= share <= u64::MAX,
        ;
    }
    let spill: u128 = (part * share) / scale;
    proof {
        let rest = (part * share) % (scale as int);
        assert(x == (whole * share + spill) * scale + rest) by (nonlinear_arith)
            requires
                x == share * total_value,
                total_value == whole * scale + part,
                part * share == scale * spill + rest,
        ;
        lemma_fundamental_div_mod_converse(x, scale as int, whole * share + spill, rest);
        assert(x / (scale as int) < value) by (nonlinear_arith)
            requires
                value * scale > x,
                x == (x / (scale as int)) * scale + rest,
                rest >= 0,
                scale > 0,
        ;
    }
    let cap: u128 = whole * share + spill;
    let keep: u128 = cap / (price as u128);
    proof {
        lemma_div_denominator(x, scale as int, price as int);
        assert(keep == spec_kept_quantity(
            quantity as nat,
            price as nat,
            total_value as nat,
            max_allocation as nat,
        ));
    }
    quantity - keep as u64
}

/// Why the holding is sold in full, if it is.
pub fn liquidation_cause(holding: &Holding, quotes: &Vec<Quote>, negative_threshold: u64) -> (cause:
    Option<SaleCause>)
    ensures
        cause == spec_liquidation_cause(
            holding@,
            quotes_view(quotes@),
            negative_threshold as nat,
        ),
{
    match find_quote(quotes, &holding.symbol) {
        Some(i) => {
            let quote = &quotes[i];
            if !quote.fresh {
                None
            } else if quote.price <= holding.stop_loss {
                Some(SaleCause::StopLoss)
            } else if quote.sentiment < negative_threshold {
                Some(SaleCause::Sentiment)
            } else {
                None
            }
        },
        None => None,
    }
}

/// How much of the holding is sold to bring it back under its cap, for a
/// portfolio worth `total_value`.
pub fn trim_of(holding: &Holding, quotes: &Vec<Quote>, total_value: u128, policy: &RiskPolicy) -> (sell:
    u64)
    ensures
        sell == spec_trim(holding@, quotes_view(quotes@), total_value as nat, *policy),
        sell <= holding.quantity,
{
    match find_quote(quotes, &holding.symbol) {
        Some(i) => {
            let quote = &quotes[i];
            if quote.fresh && quote.sentiment < policy.positive_threshold {
                trim_quantity(holding.quantity, quote.price, total_value, policy.max_allocation)
            } else {
                0
            }
        },
        None => 0,
    }
}

/// One executed sale: a holding sold in full, or the part of it that was
/// trimmed.
#[derive(Debug)]
pub struct Sale {
    pub symbol: String,
    /// How much was sold.
    pub quantity: u64,
    /// The price it was sold at.
    pub price: u64,
    /// The sentiment score at the time.
    pub sentiment: u64,
    /// What the sale brought: quantity times price.
    pub proceeds: u128,
    pub cause: SaleCause,
}

/// The mathematical content of a [`Sale`].
pub struct SaleView {
    pub symbol: Seq<char>,
    pub quantity: nat,
    pub price: nat,
    pub sentiment: nat,
    pub proceeds: nat,
    pub cause: SaleCause,
}

impl View for Sale {
    type V = SaleView;

    open spec fn view(&self) -> SaleView {
        SaleView {
            symbol: self.symbol@,
            quantity: self.quantity as nat,
            price: self.price as nat,
            sentiment: self.sentiment as nat,
            proceeds: self.proceeds as nat,
            cause: self.cause,
        }
    }
}

/// The contents of a list of sales.
pub open spec fn sales_view(sales: Seq<Sale>) -> Seq<SaleView> {
    sales.map_values(|s: Sale| s@)
}

/// The sale of `quantity` of a holding at its quote.
pub open spec fn spec_sale(
    holding: HoldingView,
    quote: QuoteView,
    quantity: nat,
    cause: SaleCause,
) -> SaleView {
    SaleView {
        symbol: holding.symbol,
        quantity,
        price: quote.price,
        sentiment: quote.sentiment,
        proceeds: quantity * quote.price,
        cause,
    }
}

/// The sale of the whole holding, where it is sold in full.
pub open spec fn spec_liquidation(
    holding: HoldingView,
    quotes: Seq<QuoteView>,
    negative_threshold: nat,
) -> Option<SaleView> {
    match spec_liquidation_cause(holding, quotes, negative_threshold) {
        Some(cause) => Some(
            spec_sale(
                holding,
                spec_find_quote(quotes, holding.symbol).unwrap(),
                holding.quantity,
                cause,
            ),
        ),
        None => None,
    }
}

/// The sale that trims the holding, where it is trimmed.
pub open spec fn spec_trim_sale(
    holding: HoldingView,
    quotes: Seq<QuoteView>,
    total: nat,
    policy: RiskPolicy,
) -> Option<SaleView> {
    if spec_trim(holding, quotes, total, policy) > 0 {
        Some(
            spec_sale(
                holding,
                spec_find_quote(quotes, holding.symbol).unwrap(),
                spec_trim(holding, quotes, total, policy),
                SaleCause::Rebalance,
            ),
        )
    } else {
        None
    }
}

/// The holdings that are not sold in full, in their order.
pub open spec fn spec_survivors(
    holdings: Seq<HoldingView>,
    quotes: Seq<QuoteView>,
    negative_threshold: nat,
) -> Seq<HoldingView>
    decreases holdings.len(),
{
    if holdings.len() == 0 {
        Seq::empty()
    } else if spec_liquidation_cause(holdings.last(), quotes, negative_threshold) is Some {
        spec_survivors(holdings.drop_last(), quotes, negative_threshold)
    } else {
        spec_survivors(holdings.drop_last(), quotes, negative_threshold).push(holdings.last())
    }
}

/// The sales of the holdings that are sold in full, in the holdings' order.
pub open spec fn spec_liquidations(
    holdings: Seq<HoldingView>,
    quotes: Seq<QuoteView>,
    negative_threshold: nat,
) -> Seq<SaleView>
    decreases holdings.len(),
{
    if holdings.len() == 0 {
        Seq::empty()
    } else {
        match spec_liquidation(holdings.last(), quotes, negative_threshold) {
            Some(sale) => spec_liquidations(holdings.drop_last(), quotes, negative_threshold).push(
                sale,
            ),
            None => spec_liquidations(holdings.drop_last(), quotes, negative_threshold),
        }
    }
}

/// The holdings after each was trimmed, in their order.  One of which
/// nothing is left is gone.
pub open spec fn spec_rebalanced(
    holdings: Seq<HoldingView>,
    quotes: Seq<QuoteView>,
    total: nat,
    policy: RiskPolicy,
) -> Seq<HoldingView>
    decreases holdings.len(),
{
    if holdings.len() == 0 {
        Seq::empty()
    } else {
        let last = holdings.last();
        let sold = spec_trim(last, quotes, total, policy);
        if sold >= last.quantity {
            spec_rebalanced(holdings.drop_last(), quotes, total, policy)
        } else {
            spec_rebalanced(holdings.drop_last(), quotes, total, policy).push(
                HoldingView { quantity: (last.quantity - sold) as nat, ..last },
            )
        }
    }
}

/// The sales that trim the holdings, in the holdings' order.
pub open spec fn spec_trims(
    holdings: Seq<HoldingView>,
    quotes: Seq<QuoteView>,
    total: nat,
    policy: RiskPolicy,
) -> Seq<SaleView>
    decreases holdings.len(),
{
    if holdings.len() == 0 {
        Seq::empty()
    } else {
        match spec_trim_sale(holdings.last(), quotes, total, policy) {
            Some(sale) => spec_trims(holdings.drop_last(), quotes, total, policy).push(sale),
            None => spec_trims(holdings.drop_last(), quotes, total, policy),
        }
    }
}

/// What a list of sales brought in all.
pub open spec fn spec_proceeds(sales: Seq<SaleView>) -> nat
    decreases sales.len(),
{
    if sales.len() == 0 {
        0
    } else {
        spec_proceeds(sales.drop_last()) + sales.last().proceeds
    }
}

/// A holding whose symbol is new to a list of distinct symbols can be added
/// to it.
proof fn lemma_extend_distinct(out: Seq<HoldingView>, source: Seq<HoldingView>, next: HoldingView)
    requires
        spec_distinct_symbols(out),
        forall|k: int| 0 <= k < out.len() ==> spec_holds(source, (#[trigger] out[k]).symbol),
        !spec_holds(source, next.symbol),
    ensures
        spec_distinct_symbols(out.push(next)),
{
    let all = out.push(next);
    assert forall|i: int, j: int| 0 <= i < j < all.len() implies (#[trigger] all[i]).symbol != (
    #[trigger] all[j]).symbol by {
        if j == out.len() {
            assert(spec_holds(source, out[i].symbol));
        } else {
            assert(all[i] == out[i] && all[j] == out[j]);
        }
    }
}

/// The last of a list of distinct symbols is not among those before it.
proof fn lemma_last_is_new(holdings: Seq<HoldingView>)
    requires
        holdings.len() > 0,
        spec_distinct_symbols(holdings),
    ensures
        spec_distinct_symbols(holdings.drop_last()),
        !spec_holds(holdings.drop_last(), holdings.last().symbol),
{
    let front = holdings.drop_last();
    assert forall|i: int, j: int| 0 <= i < j < front.len() implies (#[trigger] front[i]).symbol != (
    #[trigger] front[j]).symbol by {
        assert(front[i] == holdings[i] && front[j] == holdings[j]);
    }
    if spec_holds(front, holdings.last().symbol) {
        let i = choose|i: int| 0 <= i < front.len() && (#[trigger] front[i]).symbol
            == holdings.last().symbol;
        assert(holdings[i] == front[i]);
        assert(holdings[holdings.len() - 1] == holdings.last());
    }
}

/// The survivors are holdings of the portfolio on which neither floor was
/// reached, and they are well formed where the holdings were.
pub proof fn lemma_survivors(
    holdings: Seq<HoldingView>,
    quotes: Seq<QuoteView>,
    negative_threshold: nat,
)
    requires
        spec_well_formed(holdings),
    ensures
        spec_well_formed(spec_survivors(holdings, quotes, negative_threshold)),
        forall|k: int|
            0 <= k < spec_survivors(holdings, quotes, negative_threshold).len() ==> {
                let s = #[trigger] spec_survivors(holdings, quotes, negative_threshold)[k];
                &&& holdings.contains(s)
                &&& spec_liquidation_cause(s, quotes, negative_threshold) is None
            },
    decreases holdings.len(),
{
    if holdings.len() > 0 {
        let front = holdings.drop_last();
        let last = holdings.last();
        let kept = spec_survivors(front, quotes, negative_threshold);
        lemma_last_is_new(holdings);
        assert forall|i: int| 0 <= i < front.len() implies (#[trigger] front[i]).quantity > 0 by {
            assert(front[i] == holdings[i]);
        }
        lemma_survivors(front, quotes, negative_threshold);
        assert forall|k: int| 0 <= k < kept.len() implies holdings.contains(#[trigger] kept[k])
            && spec_holds(front, kept[k].symbol) by {
            let i = choose|i: int| 0 <= i < front.len() && front[i] == kept[k];
            assert(holdings[i] == kept[k]);
            assert(front[i].symbol == kept[k].symbol);
        }
        assert(holdings[holdings.len() - 1] == last);
        if spec_liquidation_cause(last, quotes, negative_threshold) is None {
            lemma_extend_distinct(kept, front, last);
        }
    }
}

/// After the liquidation pass a holding on which a floor was reached is gone
/// from the portfolio, and every other holding is still there as it was.
pub proof fn lemma_liquidation_settles(
    holdings: Seq<HoldingView>,
    quotes: Seq<QuoteView>,
    negative_threshold: nat,
    i: int,
)
    requires
        spec_well_formed(holdings),
        0 <= i < holdings.len(),
    ensures
        spec_liquidation_cause(holdings[i], quotes, negative_threshold) is Some ==> !spec_holds(
            spec_survivors(holdings, quotes, negative_threshold),
            holdings[i].symbol,
        ),
        spec_liquidation_cause(holdings[i], quotes, negative_threshold) is None ==> spec_survivors(
            holdings,
            quotes,
            negative_threshold,
        ).contains(holdings[i]),
    decreases holdings.len(),
{
    let all = spec_survivors(holdings, quotes, negative_threshold);
    lemma_survivors(holdings, quotes, negative_threshold);
    if spec_liquidation_cause(holdings[i], quotes, negative_threshold) is Some {
        if spec_holds(all, holdings[i].symbol) {
            let k = choose|k: int| 0 <= k < all.len() && (#[trigger] all[k]).symbol
                == holdings[i].symbol;
            let j = choose|j: int| 0 <= j < holdings.len() && holdings[j] == all[k];
            assert(holdings[j].symbol == holdings[i].symbol);
            assert(j == i);
        }
    } else {
        let front = holdings.drop_last();
        let kept = spec_survivors(front, quotes, negative_threshold);
        if i == holdings.len() - 1 {
            assert(all[kept.len() as int] == holdings[i]);
        } else {
            lemma_last_is_new(holdings);
            assert forall|a: int| 0 <= a < front.len() implies (#[trigger] front[a]).quantity
                > 0 by {
                assert(front[a] == holdings[a]);
            }
            assert(front[i] == holdings[i]);
            lemma_liquidation_settles(front, quotes, negative_threshold, i);
            let k = choose|k: int| 0 <= k < kept.len() && kept[k] == holdings[i];
            assert(all[k] == holdings[i]);
        }
    }
}

/// What the liquidation pass sells and what it leaves are together worth
/// what the holdings were worth, and every sale brings quantity times price.
pub proof fn lemma_liquidation_conserves(
    holdings: Seq<HoldingView>,
    quotes: Seq<QuoteView>,
    negative_threshold: nat,
)
    ensures
        spec_holdings_value(spec_survivors(holdings, quotes, negative_threshold), quotes)
            + spec_proceeds(spec_liquidations(holdings, quotes, negative_threshold))
            == spec_holdings_value(holdings, quotes),
        forall|k: int|
            0 <= k < spec_liquidations(holdings, quotes, negative_threshold).len() ==> {
                let s = #[trigger] spec_liquidations(holdings, quotes, negative_threshold)[k];
                s.proceeds == s.quantity * s.price
            },
    decreases holdings.len(),
{
    if holdings.len() > 0 {
        let front = holdings.drop_last();
        let last = holdings.last();
        lemma_liquidation_conserves(front, quotes, negative_threshold);
        let kept = spec_survivors(front, quotes, negative_threshold);
        let sold = spec_liquidations(front, quotes, negative_threshold);
        match spec_liquidation(last, quotes, negative_threshold) {
            Some(sale) => {
                assert(sold.push(sale).drop_last() =~= sold);
                assert(sale.proceeds == spec_position_value(last, quotes));
            },
            None => {
                assert(kept.push(last).drop_last() =~= kept);
            },
        }
    }
}

/// What is left of a holding and what was trimmed off it are together worth
/// what the holding was worth.
proof fn lemma_trim_splits_value(
    holding: HoldingView,
    quotes: Seq<QuoteView>,
    total: nat,
    policy: RiskPolicy,
)
    ensures
        spec_trim(holding, quotes, total, policy) <= holding.quantity,
        spec_position_value(
            HoldingView {
                quantity: (holding.quantity - spec_trim(holding, quotes, total, policy)) as nat,
                ..holding
            },
            quotes,
        ) + spec_trim(holding, quotes, total, policy) * spec_price_of(quotes, holding.symbol)
            == spec_position_value(holding, quotes),
{
    let sold = spec_trim(holding, quotes, total, policy);
    let price = spec_price_of(quotes, holding.symbol);
    if spec_over_cap(holding.quantity, price, total, policy.max_allocation as nat) {
        lemma_trim_restores_cap(holding.quantity, price, total, policy.max_allocation as nat);
    }
    assert((holding.quantity - sold) * price + sold * price == holding.quantity * price)
        by (nonlinear_arith);
}

/// A holding that was trimmed is at or under its cap afterwards, at the price
/// it was trimmed at and for the worth that the shares were taken of; and no
/// more was sold than was held.
pub proof fn lemma_trimmed_within_cap(
    holding: HoldingView,
    quotes: Seq<QuoteView>,
    total: nat,
    policy: RiskPolicy,
)
    requires
        spec_trim(holding, quotes, total, policy) > 0,
    ensures
        spec_trim(holding, quotes, total, policy) <= holding.quantity,
        !spec_over_cap(
            (holding.quantity - spec_trim(holding, quotes, total, policy)) as nat,
            spec_price_of(quotes, holding.symbol),
            total,
            policy.max_allocation as nat,
        ),
{
    let price = spec_price_of(quotes, holding.symbol);
    if spec_over_cap(holding.quantity, price, total, policy.max_allocation as nat) {
        lemma_trim_restores_cap(holding.quantity, price, total, policy.max_allocation as nat);
    }
}

/// What the rebalancing pass sells and what it leaves are together worth what
/// the holdings were worth, and every sale brings quantity times price.
pub proof fn lemma_rebalancing_conserves(
    holdings: Seq<HoldingView>,
    quotes: Seq<QuoteView>,
    total: nat,
    policy: RiskPolicy,
)
    ensures
        spec_holdings_value(spec_rebalanced(holdings, quotes, total, policy), quotes)
            + spec_proceeds(spec_trims(holdings, quotes, total, policy)) == spec_holdings_value(
            holdings,
            quotes,
        ),
        forall|k: int|
            0 <= k < spec_trims(holdings, quotes, total, policy).len() ==> {
                let s = #[trigger] spec_trims(holdings, quotes, total, policy)[k];
                s.proceeds == s.quantity * s.price
            },
    decreases holdings.len(),
{
    if holdings.len() > 0 {
        let front = holdings.drop_last();
        let last = holdings.last();
        lemma_rebalancing_conserves(front, quotes, total, policy);
        lemma_trim_splits_value(last, quotes, total, policy);
        let kept = spec_rebalanced(front, quotes, total, policy);
        let sold = spec_trims(front, quotes, total, policy);
        let trimmed = spec_trim(last, quotes, total, policy);
        let rest = HoldingView { quantity: (last.quantity - trimmed) as nat, ..last };
        if trimmed > 0 {
            let sale = spec_trim_sale(last, quotes, total, policy).unwrap();
            assert(sold.push(sale).drop_last() =~= sold);
        }
        if trimmed < last.quantity {
            assert(kept.push(rest).drop_last() =~= kept);
        } else {
            assert(rest.quantity * spec_price_of(quotes, last.symbol) == 0) by (nonlinear_arith)
                requires
                    rest.quantity == 0,
            ;
        }
    }
}

/// The rebalanced holdings are well formed where the holdings were, and each
/// is what is left of a holding of the same symbol.
pub proof fn lemma_rebalanced(
    holdings: Seq<HoldingView>,
    quotes: Seq<QuoteView>,
    total: nat,
    policy: RiskPolicy,
)
    requires
        spec_distinct_symbols(holdings),
    ensures
        spec_well_formed(spec_rebalanced(holdings, quotes, total, policy)),
        forall|k: int|
            0 <= k < spec_rebalanced(holdings, quotes, total, policy).len() ==> {
                let r = #[trigger] spec_rebalanced(holdings, quotes, total, policy)[k];
                exists|i: int|
                    0 <= i < holdings.len() && r == (HoldingView {
                        quantity: ((#[trigger] holdings[i]).quantity - spec_trim(
                            holdings[i],
                            quotes,
                            total,
                            policy,
                        )) as nat,
                        ..holdings[i]
                    })
            },
    decreases holdings.len(),
{
    if holdings.len() > 0 {
        let front = holdings.drop_last();
        let last = holdings.last();
        let kept = spec_rebalanced(front, quotes, total, policy);
        let all = spec_rebalanced(holdings, quotes, total, policy);
        lemma_last_is_new(holdings);
        lemma_rebalanced(front, quotes, total, policy);
        assert forall|k: int| 0 <= k < kept.len() implies spec_holds(front, (#[trigger] kept[k]).symbol)
            && exists|i: int|
            0 <= i < holdings.len() && kept[k] == (HoldingView {
                quantity: ((#[trigger] holdings[i]).quantity - spec_trim(
                    holdings[i],
                    quotes,
                    total,
                    policy,
                )) as nat,
                ..holdings[i]
            }) by {
            let i = choose|i: int|
                0 <= i < front.len() && kept[k] == (HoldingView {
                    quantity: ((#[trigger] front[i]).quantity - spec_trim(
                        front[i],
                        quotes,
                        total,
                        policy,
                    )) as nat,
                    ..front[i]
                });
            assert(holdings[i] == front[i]);
            assert(front[i].symbol == kept[k].symbol);
        }
        let sold = spec_trim(last, quotes, total, policy);
        if sold < last.quantity {
            let rest = HoldingView { quantity: (last.quantity - sold) as nat, ..last };
            lemma_extend_distinct(kept, front, rest);
            assert(holdings[holdings.len() - 1] == last);
            assert forall|k: int| 0 <= k < all.len() implies exists|i: int|
                0 <= i < holdings.len() && (#[trigger] all[k]) == (HoldingView {
                    quantity: ((#[trigger] holdings[i]).quantity - spec_trim(
                        holdings[i],
                        quotes,
                        total,
                        policy,
                    )) as nat,
                    ..holdings[i]
                }) by {
                if k < kept.len() {
                    assert(all[k] == kept[k]);
                }
            }
        }
    }
}

/// Holdings on none of which a floor is reached all stay, and nothing is
/// sold.
proof fn lemma_all_survive(
    holdings: Seq<HoldingView>,
    quotes: Seq<QuoteView>,
    negative_threshold: nat,
)
    requires
        forall|i: int|
            0 <= i < holdings.len() ==> spec_liquidation_cause(
                #[trigger] holdings[i],
                quotes,
                negative_threshold,
            ) is None,
    ensures
        spec_survivors(holdings, quotes, negative_threshold) == holdings,
        spec_liquidations(holdings, quotes, negative_threshold) == Seq::<SaleView>::empty(),
    decreases holdings.len(),
{
    if holdings.len() > 0 {
        let front = holdings.drop_last();
        assert forall|i: int| 0 <= i < front.len() implies spec_liquidation_cause(
            #[trigger] front[i],
            quotes,
            negative_threshold,
        ) is None by {
            assert(front[i] == holdings[i]);
        }
        lemma_all_survive(front, quotes, negative_threshold);
        assert(holdings[holdings.len() - 1] == holdings.last());
        assert(front.push(holdings.last()) =~= holdings);
    } else {
        assert(spec_survivors(holdings, quotes, negative_threshold) =~= holdings);
    }
}

/// Holdings none of which is over its cap all stay as they are, and nothing
/// is sold.
proof fn lemma_none_trimmed(
    holdings: Seq<HoldingView>,
    quotes: Seq<QuoteView>,
    total: nat,
    policy: RiskPolicy,
)
    requires
        forall|i: int|
            0 <= i < holdings.len() ==> (#[trigger] holdings[i]).quantity > 0 && spec_trim(
                holdings[i],
                quotes,
                total,
                policy,
            ) == 0,
    ensures
        spec_rebalanced(holdings, quotes, total, policy) == holdings,
        spec_trims(holdings, quotes, total, policy) == Seq::<SaleView>::empty(),
    decreases holdings.len(),
{
    if holdings.len() > 0 {
        let front = holdings.drop_last();
        let last = holdings.last();
        assert forall|i: int| 0 <= i < front.len() implies (#[trigger] front[i]).quantity > 0
            && spec_trim(front[i], quotes, total, policy) == 0 by {
            assert(front[i] == holdings[i]);
        }
        lemma_none_trimmed(front, quotes, total, policy);
        assert(holdings[holdings.len() - 1] == last);
        assert((HoldingView { quantity: (last.quantity - 0) as nat, ..last }) == last);
        assert(front.push(last) =~= holdings);
    } else {
        assert(spec_rebalanced(holdings, quotes, total, policy) =~= holdings);
    }
}

/// A cycle settles the portfolio: on the same quotes, and for the same
/// worth, a second cycle sells nothing and leaves every holding as it is.
pub proof fn lemma_second_cycle_is_idle(
    holdings: Seq<HoldingView>,
    quotes: Seq<QuoteView>,
    total: nat,
    policy: RiskPolicy,
)
    requires
        spec_well_formed(holdings),
    ensures
        ({
            let floor = policy.negative_threshold as nat;
            let after = spec_rebalanced(
                spec_survivors(holdings, quotes, floor),
                quotes,
                total,
                policy,
            );
            &&& spec_liquidations(after, quotes, floor) == Seq::<SaleView>::empty()
            &&& spec_survivors(after, quotes, floor) == after
            &&& spec_trims(after, quotes, total, policy) == Seq::<SaleView>::empty()
            &&& spec_rebalanced(after, quotes, total, policy) == after
        }),
{
    let floor = policy.negative_threshold as nat;
    let survivors = spec_survivors(holdings, quotes, floor);
    let after = spec_rebalanced(survivors, quotes, total, policy);
    lemma_survivors(holdings, quotes, floor);
    lemma_rebalanced(survivors, quotes, total, policy);
    assert forall|k: int| 0 <= k < after.len() implies spec_liquidation_cause(
        #[trigger] after[k],
        quotes,
        floor,
    ) is None && after[k].quantity > 0 && spec_trim(after[k], quotes, total, policy) == 0 by {
        let i = choose|i: int|
            0 <= i < survivors.len() && after[k] == (HoldingView {
                quantity: ((#[trigger] survivors[i]).quantity - spec_trim(
                    survivors[i],
                    quotes,
                    total,
                    policy,
                )) as nat,
                ..survivors[i]
            });
        let before = survivors[i];
        assert(spec_liquidation_cause(before, quotes, floor) is None);
        if spec_trim(before, quotes, total, policy) > 0 {
            lemma_trimmed_within_cap(before, quotes, total, policy);
        } else {
            assert(after[k] == before);
        }
    }
    lemma_all_survive(after, quotes, floor);
    lemma_none_trimmed(after, quotes, total, policy);
}

/// The proceeds of two lists of sales add up.
pub proof fn lemma_proceeds_add(first: Seq<SaleView>, second: Seq<SaleView>)
    ensures
        spec_proceeds(first + second) == spec_proceeds(first) + spec_proceeds(second),
    decreases second.len(),
{
    if second.len() == 0 {
        assert(first + second =~= first);
    } else {
        lemma_proceeds_add(first, second.drop_last());
        assert((first + second).drop_last() =~= first + second.drop_last());
    }
}

/// The sale of `quantity` of the holding at `quote`.
fn sale_at(holding: &Holding, quote: &Quote, quantity: u64, cause: SaleCause) -> (sale: Sale)
    ensures
        sale@ == spec_sale(holding@, quote@, quantity as nat, cause),
{
    assert(quantity * quote.price <= u128::MAX) by (nonlinear_arith)
        requires
            0 <= quantity <= u64::MAX,
            0 <= quote.price <= u64::MAX,
    ;
    Sale {
        symbol: holding.symbol.clone(),
        quantity,
        price: quote.price,
        sentiment: quote.sentiment,
        proceeds: quantity as u128 * quote.price as u128,
        cause,
    }
}

/// The sale of the whole holding, where a floor was reached on a fresh quote.
pub fn liquidation_of(holding: &Holding, quotes: &Vec<Quote>, negative_threshold: u64) -> (sale:
    Option<Sale>)
    ensures
        match sale {
            Some(s) => spec_liquidation(holding@, quotes_view(quotes@), negative_threshold as nat)
                == Some(s@),
            None => spec_liquidation(holding@, quotes_view(quotes@), negative_threshold as nat)
                is None,
        },
{
    match find_quote(quotes, &holding.symbol) {
        Some(i) => {
            let quote = &quotes[i];
            if !quote.fresh {
                None
            } else if quote.price <= holding.stop_loss {
                Some(sale_at(holding, quote, holding.quantity, SaleCause::StopLoss))
            } else if quote.sentiment < negative_threshold {
                Some(sale_at(holding, quote, holding.quantity, SaleCause::Sentiment))
            } else {
                None
            }
        },
        None => None,
    }
}

/// The sale that trims the holding, where it is over its cap on a fresh
/// quote and its sentiment is under the positive threshold.
pub fn trim_sale_of(
    holding: &Holding,
    quotes: &Vec<Quote>,
    total_value: u128,
    policy: &RiskPolicy,
) -> (sale: Option<Sale>)
    ensures
        match sale {
            Some(s) => spec_trim_sale(holding@, quotes_view(quotes@), total_value as nat, *policy)
                == Some(s@),
            None => spec_trim_sale(holding@, quotes_view(quotes@), total_value as nat, *policy)
                is None,
        },
{
    match find_quote(quotes, &holding.symbol) {
        Some(i) => {
            let quote = &quotes[i];
            if quote.fresh && quote.sentiment < policy.positive_threshold {
                let sell: u64 = trim_quantity(
                    holding.quantity,
                    quote.price,
                    total_value,
                    policy.max_allocation,
                );
                if sell > 0 {
                    Some(sale_at(holding, quote, sell, SaleCause::Rebalance))
                } else {
                    None
                }
            } else {
                None
            }
        },
        None => None,
    }
}

impl Portfolio {
    /// The first pass of a cycle: every holding whose price is at or under
    /// its floor, or whose sentiment is under `negative_threshold`, is sold in
    /// full at its quoted price and leaves the portfolio.
    ///
    /// Cash grows by what the sales bring, so the portfolio is worth what it
    /// was worth.  Where that worth is too large for a `u128` nothing is
    /// done, and that is an error.
    pub fn liquidation_pass(&mut self, quotes: &Vec<Quote>, negative_threshold: u64) -> (done:
        Result<Vec<Sale>, PortfolioError>)
        ensures
            final(self).spec_config() == old(self).spec_config(),
            match done {
                Ok(sales) => {
                    &&& final(self)@.holdings == spec_survivors(
                        old(self)@.holdings,
                        quotes_view(quotes@),
                        negative_threshold as nat,
                    )
                    &&& sales_view(sales@) == spec_liquidations(
                        old(self)@.holdings,
                        quotes_view(quotes@),
                        negative_threshold as nat,
                    )
                    &&& final(self)@.cash == old(self)@.cash + spec_proceeds(sales_view(sales@))
                    &&& final(self)@.total_value(quotes_view(quotes@)) == old(self)@.total_value(
                        quotes_view(quotes@),
                    )
                    &&& old(self)@.total_value(quotes_view(quotes@)) <= u128::MAX
                },
                Err(e) => {
                    &&& e is ExchangeError
                    &&& e.spec_reason() == "portfolio value out of range"@
                    &&& old(self)@.total_value(quotes_view(quotes@)) > u128::MAX
                    &&& final(self)@ == old(self)@
                },
            },
    {
        let total: u128 = match self.get_value(quotes) {
            Ok(v) => v,
            Err(e) => {
                return Err(e);
            },
        };
        let ghost held = self@.holdings;
        let ghost quoted = quotes_view(quotes@);
        let ghost floor = negative_threshold as nat;
        let mut kept: Vec<Holding> = Vec::new();
        let mut sales: Vec<Sale> = Vec::new();
        let mut cash: u128 = self.cash();
        let count: usize = self.holdings().len();
        let mut i: usize = 0;
        while i < count
            invariant
                i <= count,
                count == held.len(),
                held == self@.holdings,
                quoted == quotes_view(quotes@),
                floor == negative_threshold as nat,
                total == self@.cash + spec_holdings_value(held, quoted),
                holdings_view(kept@) == spec_survivors(held.take(i as int), quoted, floor),
                sales_view(sales@) == spec_liquidations(held.take(i as int), quoted, floor),
                cash == self@.cash + spec_proceeds(sales_view(sales@)),
                cash + spec_holdings_value(holdings_view(kept@), quoted) == self@.cash
                    + spec_holdings_value(held.take(i as int), quoted),
            decreases count - i,
        {
            let holding = &self.holdings()[i];
            let ghost kept_before = holdings_view(kept@);
            let ghost sales_before = sales_view(sales@);
            proof {
                assert(held.take(i + 1).drop_last() =~= held.take(i as int));
                assert(held.take(i + 1).last() == holding@);
                lemma_holdings_value_prefix(held, quoted, i + 1);
            }
            match liquidation_of(holding, quotes, negative_threshold) {
                Some(sale) => {
                    assert(sale@.proceeds == spec_position_value(holding@, quoted));
                    cash = cash + sale.proceeds;
                    sales.push(sale);
                    proof {
                        assert(sales_view(sales@) =~= sales_before.push(sale@));
                        assert(sales_before.push(sale@).drop_last() =~= sales_before);
                    }
                },
                None => {
                    kept.push(holding.clone());
                    proof {
                        assert(holdings_view(kept@) =~= kept_before.push(holding@));
                        assert(kept_before.push(holding@).drop_last() =~= kept_before);
                    }
                },
            }
            i += 1;
        }
        proof {
            assert(held.take(i as int) =~= held);
            lemma_survivors(held, quoted, floor);
        }
        self.settle(kept, cash);
        Ok(sales)
    }

    /// The second pass of a cycle: every holding that is worth more than the
    /// share `max_allocation` of the portfolio, on a fresh quote and with a
    /// sentiment under `positive_threshold`, is trimmed by the least amount
    /// that brings it back to its cap.  One of which nothing is left leaves
    /// the portfolio.
    ///
    /// The shares are taken of what the portfolio is worth when the pass
    /// begins.  Cash grows by what the sales bring, so that worth does not
    /// change.  Where it is too large for a `u128` nothing is done, and that
    /// is an error.
    pub fn rebalancing_pass(&mut self, quotes: &Vec<Quote>, policy: &RiskPolicy) -> (done: Result<
        Vec<Sale>,
        PortfolioError,
    >)
        ensures
            final(self).spec_config() == old(self).spec_config(),
            match done {
                Ok(sales) => {
                    &&& final(self)@.holdings == spec_rebalanced(
                        old(self)@.holdings,
                        quotes_view(quotes@),
                        old(self)@.total_value(quotes_view(quotes@)),
                        *policy,
                    )
                    &&& sales_view(sales@) == spec_trims(
                        old(self)@.holdings,
                        quotes_view(quotes@),
                        old(self)@.total_value(quotes_view(quotes@)),
                        *policy,
                    )
                    &&& final(self)@.cash == old(self)@.cash + spec_proceeds(sales_view(sales@))
                    &&& final(self)@.total_value(quotes_view(quotes@)) == old(self)@.total_value(
                        quotes_view(quotes@),
                    )
                    &&& old(self)@.total_value(quotes_view(quotes@)) <= u128::MAX
                },
                Err(e) => {
                    &&& e is ExchangeError
                    &&& e.spec_reason() == "portfolio value out of range"@
                    &&& old(self)@.total_value(quotes_view(quotes@)) > u128::MAX
                    &&& final(self)@ == old(self)@
                },
            },
    {
        let total: u128 = match self.get_value(quotes) {
            Ok(v) => v,
            Err(e) => {
                return Err(e);
            },
        };
        let ghost held = self@.holdings;
        let ghost quoted = quotes_view(quotes@);
        let ghost worth = total as nat;
        let mut kept: Vec<Holding> = Vec::new();
        let mut sales: Vec<Sale> = Vec::new();
        let mut cash: u128 = self.cash();
        let count: usize = self.holdings().len();
        let mut i: usize = 0;
        while i < count
            invariant
                i <= count,
                count == held.len(),
                held == self@.holdings,
                quoted == quotes_view(quotes@),
                worth == total,
                total == self@.cash + spec_holdings_value(held, quoted),
                holdings_view(kept@) == spec_rebalanced(held.take(i as int), quoted, worth, *policy),
                sales_view(sales@) == spec_trims(held.take(i as int), quoted, worth, *policy),
                cash == self@.cash + spec_proceeds(sales_view(sales@)),
                cash + spec_holdings_value(holdings_view(kept@), quoted) == self@.cash
                    + spec_holdings_value(held.take(i as int), quoted),
            decreases count - i,
        {
            let holding = &self.holdings()[i];
            let ghost kept_before = holdings_view(kept@);
            let ghost sales_before = sales_view(sales@);
            let ghost sold = spec_trim(holding@, quoted, worth, *policy);
            let ghost rest = HoldingView { quantity: (holding@.quantity - sold) as nat, ..holding@ };
            proof {
                assert(held.take(i + 1).drop_last() =~= held.take(i as int));
                assert(held.take(i + 1).last() == holding@);
                lemma_holdings_value_prefix(held, quoted, i + 1);
                lemma_trim_splits_value(holding@, quoted, worth, *policy);
                if sold >= holding@.quantity {
                    assert(rest.quantity * spec_price_of(quoted, rest.symbol) == 0)
                        by (nonlinear_arith)
                        requires
                            rest.quantity == 0,
                    ;
                }
            }
            let left: u64 = match trim_sale_of(holding, quotes, total, policy) {
                Some(sale) => {
                    let left: u64 = holding.quantity - sale.quantity;
                    cash = cash + sale.proceeds;
                    sales.push(sale);
                    proof {
                        assert(sales_view(sales@) =~= sales_before.push(sale@));
                        assert(sales_before.push(sale@).drop_last() =~= sales_before);
                    }
                    left
                },
                None => holding.quantity,
            };
            if left > 0 {
                kept.push(
                    Holding {
                        symbol: holding.symbol.clone(),
                        quantity: left,
                        purchase_price: holding.purchase_price,
                        stop_loss: holding.stop_loss,
                    },
                );
                proof {
                    assert(holdings_view(kept@) =~= kept_before.push(rest));
                    assert(kept_before.push(rest).drop_last() =~= kept_before);
                }
            }
            i += 1;
        }
        proof {
            assert(held.take(i as int) =~= held);
            lemma_rebalanced(held, quoted, worth, *policy);
        }
        self.settle(kept, cash);
        Ok(sales)
    }

    /// The decisions of one cycle: the liquidation pass, then the rebalancing
    /// pass over the holdings that are left.  The sales are returned in the
    /// order in which they were made.
    ///
    /// A holding that was sold in full is not trimmed as well.  The portfolio
    /// is worth after the cycle what it was worth before it, at the quoted
    /// prices.  Where that worth is too large for a `u128` nothing is done,
    /// and that is an error.
    pub fn evaluate(&mut self, quotes: &Vec<Quote>, policy: &RiskPolicy) -> (done: Result<
        Vec<Sale>,
        PortfolioError,
    >)
        ensures
            final(self).spec_config() == old(self).spec_config(),
            match done {
                Ok(sales) => {
                    let quoted = quotes_view(quotes@);
                    let worth = old(self)@.total_value(quoted);
                    let survivors = spec_survivors(
                        old(self)@.holdings,
                        quoted,
                        policy.negative_threshold as nat,
                    );
                    &&& final(self)@.holdings == spec_rebalanced(survivors, quoted, worth, *policy)
                    &&& sales_view(sales@) == spec_liquidations(
                        old(self)@.holdings,
                        quoted,
                        policy.negative_threshold as nat,
                    ) + spec_trims(survivors, quoted, worth, *policy)
                    &&& final(self)@.cash == old(self)@.cash + spec_proceeds(sales_view(sales@))
                    &&& final(self)@.total_value(quoted) == worth
                    &&& worth <= u128::MAX
                },
                Err(e) => {
                    &&& e is ExchangeError
                    &&& e.spec_reason() == "portfolio value out of range"@
                    &&& old(self)@.total_value(quotes_view(quotes@)) > u128::MAX
                    &&& final(self)@ == old(self)@
                },
            },
    {
        let mut sales: Vec<Sale> = match self.liquidation_pass(quotes, policy.negative_threshold) {
            Ok(sales) => sales,
            Err(e) => {
                return Err(e);
            },
        };
        let ghost sold = sales_view(sales@);
        match self.rebalancing_pass(quotes, policy) {
            Ok(mut trims) => {
                let ghost trimmed = sales_view(trims@);
                sales.append(&mut trims);
                proof {
                    assert(sales_view(sales@) =~= sold + trimmed);
                    lemma_proceeds_add(sold, trimmed);
                }
                Ok(sales)
            },
            Err(e) => {
                proof {
                    assert(false);
                }
                Err(e)
            },
        }
    }
}

} // verus!
