//! Market observations: what is known of a symbol in one cycle.

use vstd::prelude::*;

verus! {

/// The defined score of a symbol of which nothing is known: one half.
pub const NEUTRAL_SENTIMENT: u64 = 500_000;

/// The highest sentiment score, the most bullish: one.
pub const MAX_SENTIMENT: u64 = 1_000_000;

/// Price and sentiment of one symbol, in millionths.
///
/// A quote is `fresh` when both numbers were read in the running cycle.  One
/// that was carried forward from an earlier cycle still values the holding,
/// but no decision is taken on it.
#[derive(Debug)]
pub struct Quote {
    pub symbol: String,
    pub price: u64,
    pub sentiment: u64,
    pub fresh: bool,
}

/// The mathematical content of a [`Quote`].
pub struct QuoteView {
    pub symbol: Seq<char>,
    pub price: nat,
    pub sentiment: nat,
    pub fresh: bool,
}

impl View for Quote {
    type V = QuoteView;

    open spec fn view(&self) -> QuoteView {
        QuoteView {
            symbol: self.symbol@,
            price: self.price as nat,
            sentiment: self.sentiment as nat,
            fresh: self.fresh,
        }
    }
}

impl Clone for Quote {
    fn clone(&self) -> (copy: Quote)
        ensures
            copy@ == self@,
    {
        Quote {
            symbol: self.symbol.clone(),
            price: self.price,
            sentiment: self.sentiment,
            fresh: self.fresh,
        }
    }
}

/// The contents of a list of quotes.
pub open spec fn quotes_view(quotes: Seq<Quote>) -> Seq<QuoteView> {
    quotes.map_values(|q: Quote| q@)
}

/// The first quote of `symbol` in `quotes`, if there is one.
pub open spec fn spec_find_quote(quotes: Seq<QuoteView>, symbol: Seq<char>) -> Option<QuoteView>
    decreases quotes.len(),
{
    if quotes.len() == 0 {
        None
    } else {
        match spec_find_quote(quotes.drop_last(), symbol) {
            Some(q) => Some(q),
            None => if quotes.last().symbol == symbol {
                Some(quotes.last())
            } else {
                None
            },
        }
    }
}

/// No symbol is quoted twice.
pub open spec fn spec_distinct_quotes(quotes: Seq<QuoteView>) -> bool {
    forall|i: int, j: int|
        0 <= i < j < quotes.len() ==> (#[trigger] quotes[i]).symbol != (#[trigger] quotes[j]).symbol
}

/// A quote that was found is a quote of the symbol that was asked for.
pub proof fn lemma_found_quote_symbol(quotes: Seq<QuoteView>, symbol: Seq<char>)
    ensures
        spec_find_quote(quotes, symbol) matches Some(q) ==> q.symbol == symbol,
    decreases quotes.len(),
{
    if quotes.len() > 0 {
        lemma_found_quote_symbol(quotes.drop_last(), symbol);
    }
}

/// The price at which `symbol` is valued: that of its quote, and nothing
/// where it has none.
pub open spec fn spec_price_of(quotes: Seq<QuoteView>, symbol: Seq<char>) -> nat {
    match spec_find_quote(quotes, symbol) {
        Some(q) => q.price,
        None => 0,
    }
}

/// What was found in the first `n` quotes is what is found in all of them.
pub proof fn lemma_find_quote_prefix(quotes: Seq<QuoteView>, symbol: Seq<char>, n: int)
    requires
        0 <= n <= quotes.len(),
        spec_find_quote(quotes.take(n), symbol) is Some,
    ensures
        spec_find_quote(quotes, symbol) == spec_find_quote(quotes.take(n), symbol),
    decreases quotes.len() - n,
{
    if n == quotes.len() {
        assert(quotes.take(n) =~= quotes);
    } else {
        assert(quotes.take(n + 1).drop_last() =~= quotes.take(n));
        lemma_find_quote_prefix(quotes, symbol, n + 1);
    }
}

/// The index of the first quote of `symbol`, if there is one.
pub fn find_quote(quotes: &Vec<Quote>, symbol: &String) -> (found: Option<usize>)
    ensures
        match found {
            Some(i) => i < quotes.len() && spec_find_quote(quotes_view(quotes@), symbol@) == Some(
                quotes[i as int]@,
            ),
            None => spec_find_quote(quotes_view(quotes@), symbol@) is None,
        },
{
    let ghost all = quotes_view(quotes@);
    let mut i: usize = 0;
    while i < quotes.len()
        invariant
            i <= quotes.len(),
            all == quotes_view(quotes@),
            spec_find_quote(all.take(i as int), symbol@) is None,
        decreases quotes.len() - i,
    {
        proof {
            assert(all.take(i + 1).drop_last() =~= all.take(i as int));
            assert(all.take(i + 1).last() == quotes[i as int]@);
        }
        if quotes[i].symbol == *symbol {
            proof {
                lemma_find_quote_prefix(all, symbol@, i + 1);
            }
            return Some(i);
        }
        i += 1;
    }
    proof {
        assert(all.take(i as int) =~= all);
    }
    None
}

/// The sentiment to show for a symbol: the score that is known, and the
/// neutral one half where none is.
pub fn sentiment_or_neutral(known: Option<u64>) -> (score: u64)
    ensures
        score == match known {
            Some(s) => s,
            None => NEUTRAL_SENTIMENT,
        },
{
    match known {
        Some(s) => s,
        None => NEUTRAL_SENTIMENT,
    }
}

} // verus!
