//! The sequencing of a cycle's reads.
//!
//! Prices and sentiment scores come through the cache: each number is read
//! from the cache first; only a miss leads to a fetch from the provider; what
//! was fetched is written to the cache before it is used.  A failure of the
//! cache or of the provider is no miss: the symbol is passed over for the
//! cycle, and the other symbols go on.
//!
//! Nothing is read or written from here.  [`Refresh`] says what is to be done
//! next, and is told what came of it.

use vstd::prelude::*;
use crate::cycle::{
    CycleSnapshot,
    CycleSnapshotView,
    spec_change_alerts,
    spec_sale_messages,
    spec_sale_notices,
    spec_sale_trades,
};
use crate::database::{
    CacheKind,
    CachedValue,
    Database,
    PRICE_TTL_SECS,
    lemma_cache_key_injective,
    spec_cache_key,
    spec_read,
    spec_write,
};
use crate::errors::PortfolioError;
use crate::exchange::{Exchange, SentimentProvider};
use crate::notification::{Delivery, Notifier, deliveries_view};
use crate::portfolio::{
    Holding,
    HoldingView,
    Portfolio,
    holdings_view,
    spec_distinct_symbols,
    spec_holds,
};
use crate::risk::{
    RiskPolicy,
    spec_liquidations,
    spec_proceeds,
    spec_rebalanced,
    spec_survivors,
    spec_trims,
};
use crate::quote::{
    MAX_SENTIMENT,
    Quote,
    QuoteView,
    quotes_view,
    lemma_found_quote_symbol,
    spec_distinct_quotes,
    spec_find_quote,
    find_quote,
};
use crate::text::{spec_distinct_texts, texts_view};

verus! {

/// What is to be done next.
#[derive(Debug)]
pub enum Request {
    /// Read the number of this kind of the symbol from the cache.
    ReadCache { kind: CacheKind, symbol: String },
    /// Ask the provider for it.
    Fetch { kind: CacheKind, symbol: String },
    /// Write what the provider gave to the cache.
    WriteCache { kind: CacheKind, symbol: String, value: u64, ttl_secs: u64 },
    /// Nothing: every symbol was gone through.
    Finished,
}

/// The mathematical content of a [`Request`].
pub enum RequestView {
    ReadCache { kind: CacheKind, symbol: Seq<char> },
    Fetch { kind: CacheKind, symbol: Seq<char> },
    WriteCache { kind: CacheKind, symbol: Seq<char>, value: nat, ttl_secs: nat },
    Finished,
}

impl View for Request {
    type V = RequestView;

    open spec fn view(&self) -> RequestView {
        match *self {
            Request::ReadCache { kind, symbol } => RequestView::ReadCache { kind, symbol: symbol@ },
            Request::Fetch { kind, symbol } => RequestView::Fetch { kind, symbol: symbol@ },
            Request::WriteCache { kind, symbol, value, ttl_secs } => RequestView::WriteCache {
                kind,
                symbol: symbol@,
                value: value as nat,
                ttl_secs: ttl_secs as nat,
            },
            Request::Finished => RequestView::Finished,
        }
    }
}

/// What came of a request.
#[derive(Clone, Copy, Debug, PartialEq, Eq, Structural)]
pub enum Reply {
    /// The cache held the number.
    Hit(u64),
    /// The cache did not hold it, or held it too long ago.
    Miss,
    /// The provider gave the number.
    Fetched(u64),
    /// The cache took the number.
    Stored,
    /// The cache or the provider failed.
    Failed,
}

/// How far the number in work has come.
#[derive(Clone, Copy, Debug, PartialEq, Eq, Structural)]
pub enum Stage {
    /// The cache is being read.
    Reading,
    /// The cache missed, and the provider is being asked.
    Fetching,
    /// The provider gave this number, and the cache is being written.
    Storing(u64),
}

/// The mathematical content of a [`Refresh`].
pub struct RefreshView {
    /// The symbols to go through, in their order.
    pub symbols: Seq<Seq<char>>,
    /// Whether prices are read, or sentiment scores alone.
    pub with_prices: bool,
    /// The time to live of a cached sentiment score, in seconds.
    pub sentiment_ttl: nat,
    /// How many symbols were gone through.
    pub at: nat,
    /// Which number of the symbol in work is being read.
    pub kind: CacheKind,
    pub stage: Stage,
    /// The price of the symbol in work, once it is known.
    pub price: nat,
    /// The quotes of the symbols both numbers of which were read.
    pub quotes: Seq<QuoteView>,
}

impl RefreshView {
    /// The kind that is read first of every symbol.
    pub open spec fn first_kind(self) -> CacheKind {
        if self.with_prices {
            CacheKind::Price
        } else {
            CacheKind::Sentiment
        }
    }

    /// Whether every symbol was gone through.
    pub open spec fn finished(self) -> bool {
        self.at >= self.symbols.len()
    }

    /// The time to live that a number of the kind in work is cached with.
    pub open spec fn ttl(self) -> nat {
        match self.kind {
            CacheKind::Price => PRICE_TTL_SECS as nat,
            CacheKind::Sentiment => self.sentiment_ttl,
        }
    }

    /// What is to be done next.
    pub open spec fn request(self) -> RequestView {
        if self.finished() {
            RequestView::Finished
        } else {
            let symbol = self.symbols[self.at as int];
            match self.stage {
                Stage::Reading => RequestView::ReadCache { kind: self.kind, symbol },
                Stage::Fetching => RequestView::Fetch { kind: self.kind, symbol },
                Stage::Storing(value) => RequestView::WriteCache {
                    kind: self.kind,
                    symbol,
                    value: value as nat,
                    ttl_secs: self.ttl(),
                },
            }
        }
    }

    /// Whether `value` can be a number of the kind in work: a sentiment
    /// score is at most one.
    pub open spec fn acceptable(self, value: nat) -> bool {
        self.kind == CacheKind::Price || value <= MAX_SENTIMENT
    }

    /// The state after the symbol in work was left, with or without a quote.
    pub open spec fn next_symbol(self) -> RefreshView {
        RefreshView {
            at: self.at + 1,
            kind: self.first_kind(),
            stage: Stage::Reading,
            price: 0,
            ..self
        }
    }

    /// The state after the number in work was found to be `value`: the
    /// sentiment score is read next, or the quote is complete.
    pub open spec fn resolved(self, value: nat) -> RefreshView {
        match self.kind {
            CacheKind::Price => RefreshView {
                kind: CacheKind::Sentiment,
                stage: Stage::Reading,
                price: value,
                ..self
            },
            CacheKind::Sentiment => RefreshView {
                quotes: self.quotes.push(
                    QuoteView {
                        symbol: self.symbols[self.at as int],
                        price: self.price,
                        sentiment: value,
                        fresh: true,
                    },
                ),
                ..self
            }.next_symbol(),
        }
    }

    /// The state after `reply` came in.
    ///
    /// A hit, or the cache's word that it took what was fetched, settles the
    /// number.  A miss leads to the provider, and what the provider gave to
    /// the cache.  Any other reply, a failure, a number that cannot be one of
    /// its kind, or a reply that is no answer to what was asked, ends the
    /// work on the symbol.
    pub open spec fn advance(self, reply: Reply) -> RefreshView {
        if self.finished() {
            self
        } else {
            match (self.stage, reply) {
                (Stage::Reading, Reply::Hit(value)) => if self.acceptable(value as nat) {
                    self.resolved(value as nat)
                } else {
                    self.next_symbol()
                },
                (Stage::Reading, Reply::Miss) => RefreshView { stage: Stage::Fetching, ..self },
                (Stage::Fetching, Reply::Fetched(value)) => if self.acceptable(value as nat) {
                    RefreshView { stage: Stage::Storing(value), ..self }
                } else {
                    self.next_symbol()
                },
                (Stage::Storing(value), Reply::Stored) => if self.acceptable(value as nat) {
                    self.resolved(value as nat)
                } else {
                    self.next_symbol()
                },
                _ => self.next_symbol(),
            }
        }
    }

    /// How many requests are still to come at most.
    pub open spec fn steps_left(self) -> nat {
        if self.finished() {
            0
        } else {
            let kinds: nat = match self.kind {
                CacheKind::Price => 6,
                CacheKind::Sentiment => 3,
            };
            let done: nat = match self.stage {
                Stage::Reading => 0,
                Stage::Fetching => 1,
                Stage::Storing(_) => 2,
            };
            (6 * (self.symbols.len() - self.at - 1) + kinds - done) as nat
        }
    }
}

/// The provider is asked only after the cache was read and missed: not
/// before the read, and not after a failure.
pub proof fn lemma_fetch_follows_miss(state: RefreshView, reply: Reply)
    requires
        state.advance(reply).request() is Fetch,
    ensures
        state.request() is ReadCache,
        reply is Miss,
        state.advance(reply).request() == (RequestView::Fetch {
            kind: state.request()->ReadCache_kind,
            symbol: state.request()->ReadCache_symbol,
        }),
{
}

/// What the provider gave is written to the cache next, as it was given and
/// with the time to live of its kind: five minutes for a price.
pub proof fn lemma_store_follows_fetch(state: RefreshView, value: u64)
    requires
        state.request() is Fetch,
        state.acceptable(value as nat),
    ensures
        state.advance(Reply::Fetched(value)).request() == (RequestView::WriteCache {
            kind: state.kind,
            symbol: state.request()->Fetch_symbol,
            value: value as nat,
            ttl_secs: state.ttl(),
        }),
        state.kind == CacheKind::Price ==> state.ttl() == 300,
        state.advance(Reply::Fetched(value)).quotes == state.quotes,
{
}

/// A quote is made of nothing but what the cache gave or took: the list of
/// quotes grows only on a hit or on the cache's word that it took what was
/// fetched, and then by one fresh quote of the symbol in work.
pub proof fn lemma_quotes_come_through_cache(state: RefreshView, reply: Reply)
    ensures
        state.advance(reply).quotes == state.quotes || {
            &&& !state.finished()
            &&& state.kind == CacheKind::Sentiment
            &&& (state.stage is Reading && reply is Hit) || (state.stage is Storing && reply
                is Stored)
            &&& state.advance(reply).quotes.len() == state.quotes.len() + 1
            &&& state.advance(reply).quotes.drop_last() == state.quotes
            &&& state.advance(reply).quotes.last().symbol == state.symbols[state.at as int]
            &&& state.advance(reply).quotes.last().fresh
            &&& state.advance(reply).quotes.last().price == state.price
            &&& state.advance(reply).quotes.last().sentiment <= MAX_SENTIMENT
        },
{
    let after = state.advance(reply);
    if after.quotes != state.quotes {
        assert(after.quotes.drop_last() =~= state.quotes);
    }
}

/// A failure ends the work on the symbol, leaves the quotes as they were,
/// and the next symbol is taken up with a read of the cache.
pub proof fn lemma_failure_skips_symbol(state: RefreshView)
    requires
        !state.finished(),
    ensures
        state.advance(Reply::Failed).at == state.at + 1,
        state.advance(Reply::Failed).quotes == state.quotes,
        state.advance(Reply::Failed).request() is ReadCache || state.advance(
            Reply::Failed,
        ).finished(),
{
}

/// Every reply brings the end nearer, so the requests of a cycle end: after
/// six for each symbol at most.
pub proof fn lemma_advance_makes_progress(state: RefreshView, reply: Reply)
    requires
        !state.finished(),
    ensures
        state.advance(reply).steps_left() < state.steps_left(),
        state.steps_left() <= 6 * (state.symbols.len() - state.at),
        state.advance(reply).symbols == state.symbols,
        state.advance(reply).at >= state.at,
{
}

/// Every quote is fresh, holds a sentiment score of at most one, and is the
/// quote of a symbol that was gone through; and where no symbol is gone
/// through twice, no symbol is quoted twice.
pub open spec fn spec_quotes_sound(state: RefreshView) -> bool {
    &&& forall|k: int|
        0 <= k < state.quotes.len() ==> (#[trigger] state.quotes[k]).fresh && state.quotes[k].sentiment
            <= MAX_SENTIMENT && exists|j: int|
            0 <= j < state.symbols.len() && j < state.at && #[trigger] state.symbols[j]
                == state.quotes[k].symbol
    &&& spec_distinct_texts(state.symbols) ==> spec_distinct_quotes(state.quotes)
}

/// Whatever comes in, the quotes stay sound.
pub proof fn lemma_quotes_stay_sound(state: RefreshView, reply: Reply)
    requires
        spec_quotes_sound(state),
    ensures
        spec_quotes_sound(state.advance(reply)),
{
    let after = state.advance(reply);
    assert forall|k: int| 0 <= k < after.quotes.len() implies (#[trigger] after.quotes[k]).fresh
        && after.quotes[k].sentiment <= MAX_SENTIMENT && exists|j: int|
        0 <= j < after.symbols.len() && j < after.at && #[trigger] after.symbols[j]
            == after.quotes[k].symbol by {
        if k < state.quotes.len() {
            assert(after.quotes[k] == state.quotes[k]);
            let j = choose|j: int|
                0 <= j < state.symbols.len() && j < state.at && #[trigger] state.symbols[j]
                    == state.quotes[k].symbol;
            assert(after.symbols[j] == after.quotes[k].symbol);
        } else {
            assert(after.symbols[state.at as int] == after.quotes[k].symbol);
        }
    }
    if spec_distinct_texts(state.symbols) {
        assert forall|a: int, b: int| 0 <= a < b < after.quotes.len() implies (
        #[trigger] after.quotes[a]).symbol != (#[trigger] after.quotes[b]).symbol by {
            assert(after.quotes[a] == state.quotes[a]);
            if b < state.quotes.len() {
                assert(after.quotes[b] == state.quotes[b]);
            } else {
                let j = choose|j: int|
                    0 <= j < state.symbols.len() && j < state.at && #[trigger] state.symbols[j]
                        == state.quotes[a].symbol;
                assert(state.symbols[j] != state.symbols[state.at as int]);
            }
        }
    }
}

/// What a reply leads to.
enum Step {
    /// The number in work is settled.
    Settle(u64),
    /// The work on the number goes on at another stage.
    Stay(Stage),
    /// The symbol in work is left.
    Skip,
}

/// The sequencing of the reads of one cycle.
#[derive(Debug)]
pub struct Refresh {
    symbols: Vec<String>,
    with_prices: bool,
    sentiment_ttl: u64,
    at: usize,
    kind: CacheKind,
    stage: Stage,
    price: u64,
    quotes: Vec<Quote>,
}

impl View for Refresh {
    type V = RefreshView;

    closed spec fn view(&self) -> RefreshView {
        RefreshView {
            symbols: texts_view(self.symbols@),
            with_prices: self.with_prices,
            sentiment_ttl: self.sentiment_ttl as nat,
            at: self.at as nat,
            kind: self.kind,
            stage: self.stage,
            price: self.price as nat,
            quotes: quotes_view(self.quotes@),
        }
    }
}

impl Refresh {
    /// What holds of the quotes at every stage of the reads.
    #[verifier::type_invariant]
    closed spec fn inv(self) -> bool {
        spec_quotes_sound(self@)
    }

    /// The start of a cycle's reads: of price and sentiment of each of
    /// `symbols`, or of the sentiment alone.
    pub fn begin(symbols: Vec<String>, with_prices: bool, sentiment_ttl: u64) -> (refresh: Refresh)
        ensures
            refresh@ == (RefreshView {
                symbols: texts_view(symbols@),
                with_prices,
                sentiment_ttl: sentiment_ttl as nat,
                at: 0,
                kind: if with_prices {
                    CacheKind::Price
                } else {
                    CacheKind::Sentiment
                },
                stage: Stage::Reading,
                price: 0,
                quotes: Seq::empty(),
            }),
    {
        let refresh = Refresh {
            symbols,
            with_prices,
            sentiment_ttl,
            at: 0,
            kind: if with_prices {
                CacheKind::Price
            } else {
                CacheKind::Sentiment
            },
            stage: Stage::Reading,
            price: 0,
            quotes: Vec::new(),
        };
        assert(quotes_view(refresh.quotes@) =~= Seq::<QuoteView>::empty());
        refresh
    }

    /// Whether every symbol was gone through.
    pub fn finished(&self) -> (done: bool)
        ensures
            done == self@.finished(),
    {
        self.at >= self.symbols.len()
    }

    /// What is to be done next.
    pub fn request(&self) -> (next: Request)
        ensures
            next@ == self@.request(),
    {
        if self.at >= self.symbols.len() {
            Request::Finished
        } else {
            let symbol = self.symbols[self.at].clone();
            match self.stage {
                Stage::Reading => Request::ReadCache { kind: self.kind, symbol },
                Stage::Fetching => Request::Fetch { kind: self.kind, symbol },
                Stage::Storing(value) => Request::WriteCache {
                    kind: self.kind,
                    symbol,
                    value,
                    ttl_secs: match self.kind {
                        CacheKind::Price => PRICE_TTL_SECS,
                        CacheKind::Sentiment => self.sentiment_ttl,
                    },
                },
            }
        }
    }

    /// Takes in what came of the last request.
    pub fn advance(&mut self, reply: Reply)
        ensures
            final(self)@ == old(self)@.advance(reply),
    {
        proof {
            use_type_invariant(&*self);
            lemma_quotes_stay_sound(self@, reply);
        }
        if self.at >= self.symbols.len() {
            return ;
        }
        let mut state = Refresh::begin(Vec::new(), false, 0);
        core::mem::swap(self, &mut state);
        let Refresh { symbols, with_prices, sentiment_ttl, at, kind, stage, price, quotes } = state;
        let ghost before = quotes_view(quotes@);
        let mut quotes = quotes;
        let sentiment = match kind {
            CacheKind::Price => false,
            CacheKind::Sentiment => true,
        };
        let step = match (stage, reply) {
            (Stage::Reading, Reply::Hit(value)) => if sentiment && value > MAX_SENTIMENT {
                Step::Skip
            } else {
                Step::Settle(value)
            },
            (Stage::Reading, Reply::Miss) => Step::Stay(Stage::Fetching),
            (Stage::Fetching, Reply::Fetched(value)) => if sentiment && value > MAX_SENTIMENT {
                Step::Skip
            } else {
                Step::Stay(Stage::Storing(value))
            },
            (Stage::Storing(value), Reply::Stored) => if sentiment && value > MAX_SENTIMENT {
                Step::Skip
            } else {
                Step::Settle(value)
            },
            _ => Step::Skip,
        };
        let first = if with_prices {
            CacheKind::Price
        } else {
            CacheKind::Sentiment
        };
        let next = match step {
            Step::Stay(stage) => Refresh {
                symbols,
                with_prices,
                sentiment_ttl,
                at,
                kind,
                stage,
                price,
                quotes,
            },
            Step::Skip => Refresh {
                symbols,
                with_prices,
                sentiment_ttl,
                at: at + 1,
                kind: first,
                stage: Stage::Reading,
                price: 0,
                quotes,
            },
            Step::Settle(value) => if sentiment {
                let quote = Quote {
                    symbol: symbols[at].clone(),
                    price,
                    sentiment: value,
                    fresh: true,
                };
                quotes.push(quote);
                assert(quotes_view(quotes@) =~= before.push(quote@));
                Refresh {
                    symbols,
                    with_prices,
                    sentiment_ttl,
                    at: at + 1,
                    kind: first,
                    stage: Stage::Reading,
                    price: 0,
                    quotes,
                }
            } else {
                Refresh {
                    symbols,
                    with_prices,
                    sentiment_ttl,
                    at,
                    kind: CacheKind::Sentiment,
                    stage: Stage::Reading,
                    price: value,
                    quotes,
                }
            },
        };
        assert(next@ == old(self)@.advance(reply));
        *self = next;
    }

    /// Hands over the quotes.  No symbol is quoted twice, unless one was
    /// gone through twice.
    pub fn into_quotes(self) -> (quotes: Vec<Quote>)
        ensures
            quotes_view(quotes@) == self@.quotes,
            spec_quotes_sound(self@),
            spec_distinct_texts(self@.symbols) ==> spec_distinct_quotes(quotes_view(quotes@)),
    {
        proof {
            use_type_invariant(&self);
        }
        self.quotes
    }

    /// The quotes of the symbols both numbers of which were read, in the
    /// symbols' order.  No symbol is quoted twice, unless one was gone
    /// through twice.
    pub fn quotes(&self) -> (quotes: &Vec<Quote>)
        ensures
            quotes_view(quotes@) == self@.quotes,
            spec_quotes_sound(self@),
            spec_distinct_texts(self@.symbols) ==> spec_distinct_quotes(quotes_view(quotes@)),
    {
        proof {
            use_type_invariant(self);
        }
        &self.quotes
    }
}

/// The quote that a cycle runs on for one symbol: the one that was read in
/// this cycle, or else the one of the previous cycle, carried forward and
/// marked as not fresh; none where the symbol was never quoted.
pub open spec fn spec_quote_for(
    symbol: Seq<char>,
    read: Seq<QuoteView>,
    previous: Option<CycleSnapshotView>,
) -> Option<QuoteView> {
    match spec_find_quote(read, symbol) {
        Some(q) => Some(q),
        None => match previous {
            Some(before) => match spec_find_quote(before.quotes, symbol) {
                Some(q) => Some(QuoteView { fresh: false, ..q }),
                None => None,
            },
            None => None,
        },
    }
}

/// The quotes that a cycle runs on, in the order of the holdings.
pub open spec fn spec_cycle_quotes(
    holdings: Seq<HoldingView>,
    read: Seq<QuoteView>,
    previous: Option<CycleSnapshotView>,
) -> Seq<QuoteView>
    decreases holdings.len(),
{
    if holdings.len() == 0 {
        Seq::empty()
    } else {
        match spec_quote_for(holdings.last().symbol, read, previous) {
            Some(q) => spec_cycle_quotes(holdings.drop_last(), read, previous).push(q),
            None => spec_cycle_quotes(holdings.drop_last(), read, previous),
        }
    }
}

/// The quotes of a cycle are quotes of holdings, and where no two holdings
/// share a symbol, no symbol is quoted twice.
pub proof fn lemma_cycle_quotes_distinct(
    holdings: Seq<HoldingView>,
    read: Seq<QuoteView>,
    previous: Option<CycleSnapshotView>,
)
    requires
        spec_distinct_symbols(holdings),
    ensures
        spec_distinct_quotes(spec_cycle_quotes(holdings, read, previous)),
        forall|k: int|
            0 <= k < spec_cycle_quotes(holdings, read, previous).len() ==> spec_holds(
                holdings,
                (#[trigger] spec_cycle_quotes(holdings, read, previous)[k]).symbol,
            ),
    decreases holdings.len(),
{
    if holdings.len() > 0 {
        let front = holdings.drop_last();
        let last = holdings.last();
        let before = spec_cycle_quotes(front, read, previous);
        let all = spec_cycle_quotes(holdings, read, previous);
        assert forall|i: int, j: int| 0 <= i < j < front.len() implies (#[trigger] front[i]).symbol != (
        #[trigger] front[j]).symbol by {
            assert(front[i] == holdings[i] && front[j] == holdings[j]);
        }
        lemma_cycle_quotes_distinct(front, read, previous);
        lemma_found_quote_symbol(read, last.symbol);
        if previous is Some {
            lemma_found_quote_symbol(previous.unwrap().quotes, last.symbol);
        }
        assert(holdings[holdings.len() - 1] == last);
        assert forall|k: int| 0 <= k < all.len() implies spec_holds(
            holdings,
            (#[trigger] all[k]).symbol,
        ) by {
            if k < before.len() {
                assert(all[k] == before[k]);
                let a = choose|a: int|
                    0 <= a < front.len() && (#[trigger] front[a]).symbol == before[k].symbol;
                assert(holdings[a].symbol == all[k].symbol);
            } else {
                assert(holdings[holdings.len() - 1].symbol == all[k].symbol);
            }
        }
        assert forall|i: int, j: int| 0 <= i < j < all.len() implies (#[trigger] all[i]).symbol != (
        #[trigger] all[j]).symbol by {
            if j < before.len() {
                assert(all[i] == before[i] && all[j] == before[j]);
            } else {
                assert(all[i] == before[i]);
                let a = choose|a: int|
                    0 <= a < front.len() && (#[trigger] front[a]).symbol == before[i].symbol;
                assert(holdings[a].symbol != holdings[holdings.len() - 1].symbol);
            }
        }
    }
}

/// The quotes that a cycle runs on: for each holding the quote that was
/// read in this cycle, or else the last known one, carried forward.  Where no
/// two holdings share a symbol, no symbol is quoted twice.
///
/// No decision is taken on a quote that was carried forward, but the holding
/// keeps its last known price in the value of the portfolio, and the next
/// cycle compares with it.
pub fn cycle_quotes(holdings: &Vec<Holding>, read: &Vec<Quote>, previous: Option<&CycleSnapshot>) -> (quotes:
    Vec<Quote>)
    ensures
        quotes_view(quotes@) == spec_cycle_quotes(
            holdings_view(holdings@),
            quotes_view(read@),
            match previous {
                Some(p) => Some(p@),
                None => None,
            },
        ),
        spec_distinct_symbols(holdings_view(holdings@)) ==> spec_distinct_quotes(
            quotes_view(quotes@),
        ),
{
    let ghost held = holdings_view(holdings@);
    let ghost fresh = quotes_view(read@);
    let ghost before: Option<CycleSnapshotView> = match previous {
        Some(p) => Some(p@),
        None => None,
    };
    let mut quotes: Vec<Quote> = Vec::new();
    assert(quotes_view(quotes@) =~= Seq::<QuoteView>::empty());
    let mut i: usize = 0;
    while i < holdings.len()
        invariant
            i <= holdings.len(),
            held == holdings_view(holdings@),
            fresh == quotes_view(read@),
            before == match previous {
                Some(p) => Some(p@),
                None => None,
            },
            quotes_view(quotes@) == spec_cycle_quotes(held.take(i as int), fresh, before),
        decreases holdings.len() - i,
    {
        let symbol = &holdings[i].symbol;
        let ghost so_far = quotes_view(quotes@);
        proof {
            assert(held.take(i + 1).drop_last() =~= held.take(i as int));
            assert(held.take(i + 1).last() == holdings[i as int]@);
        }
        match find_quote(read, symbol) {
            Some(r) => {
                quotes.push(read[r].clone());
                assert(quotes_view(quotes@) =~= so_far.push(read[r as int]@));
            },
            None => {
                match previous {
                    Some(p) => {
                        match find_quote(&p.quotes, symbol) {
                            Some(c) => {
                                let carried = Quote {
                                    symbol: p.quotes[c].symbol.clone(),
                                    price: p.quotes[c].price,
                                    sentiment: p.quotes[c].sentiment,
                                    fresh: false,
                                };
                                quotes.push(carried);
                                assert(quotes_view(quotes@) =~= so_far.push(carried@));
                            },
                            None => {},
                        }
                    },
                    None => {},
                }
            },
        }
        i += 1;
    }
    proof {
        assert(held.take(i as int) =~= held);
        if spec_distinct_symbols(held) {
            lemma_cycle_quotes_distinct(held, fresh, before);
        }
    }
    quotes
}

/// The symbols of a list of holdings, in their order.
pub fn symbols_of(holdings: &Vec<Holding>) -> (symbols: Vec<String>)
    ensures
        symbols@.len() == holdings@.len(),
        forall|i: int| 0 <= i < holdings@.len() ==> (#[trigger] symbols@[i])@ == holdings@[i].symbol@,
{
    let mut symbols: Vec<String> = Vec::new();
    let mut i: usize = 0;
    while i < holdings.len()
        invariant
            i <= holdings.len(),
            symbols@.len() == i,
            forall|k: int| 0 <= k < i ==> (#[trigger] symbols@[k])@ == holdings@[k].symbol@,
        decreases holdings.len() - i,
    {
        symbols.push(holdings[i].symbol.clone());
        i += 1;
    }
    symbols
}

/// Whether the cache serves every number of `symbol` that a cycle reads,
/// the sentiment score being one that can be.
pub open spec fn spec_served(
    cache: Map<Seq<char>, CachedValue>,
    symbol: Seq<char>,
    with_prices: bool,
    now: nat,
) -> bool {
    &&& with_prices ==> spec_read(cache, spec_cache_key(CacheKind::Price, symbol), now) is Some
    &&& spec_read(cache, spec_cache_key(CacheKind::Sentiment, symbol), now) matches Some(score)
        && score <= MAX_SENTIMENT
}

/// The quote of `symbol` that the cache serves.
pub open spec fn spec_cached_quote(
    cache: Map<Seq<char>, CachedValue>,
    symbol: Seq<char>,
    with_prices: bool,
    now: nat,
) -> QuoteView {
    QuoteView {
        symbol,
        price: if with_prices {
            spec_read(cache, spec_cache_key(CacheKind::Price, symbol), now).unwrap()
        } else {
            0
        },
        sentiment: spec_read(cache, spec_cache_key(CacheKind::Sentiment, symbol), now).unwrap(),
        fresh: true,
    }
}

/// The quotes of `symbols` that the cache serves, in the symbols' order.
pub open spec fn spec_cached_quotes(
    cache: Map<Seq<char>, CachedValue>,
    symbols: Seq<Seq<char>>,
    with_prices: bool,
    now: nat,
) -> Seq<QuoteView> {
    symbols.map_values(|s: Seq<char>| spec_cached_quote(cache, s, with_prices, now))
}

/// Whether the reads went as they go while the cache serves every number:
/// the cache is being read, and the quotes so far are the ones it serves.
pub open spec fn spec_served_so_far(
    state: RefreshView,
    cache: Map<Seq<char>, CachedValue>,
    now: nat,
) -> bool {
    &&& state.stage is Reading
    &&& state.at <= state.symbols.len()
    &&& state.kind == CacheKind::Price ==> state.with_prices
    &&& state.quotes == spec_cached_quotes(
        cache,
        state.symbols.take(state.at as int),
        state.with_prices,
        now,
    )
    &&& !state.finished() && state.kind == CacheKind::Sentiment ==> state.price
        == spec_cached_quote(cache, state.symbols[state.at as int], state.with_prices, now).price
}

/// While the cache serves every number, each read is a hit, and after it the
/// cache is read again or the reads are over: the provider is not asked.
pub proof fn lemma_served_step(
    state: RefreshView,
    cache: Map<Seq<char>, CachedValue>,
    now: nat,
    value: u64,
)
    requires
        spec_served_so_far(state, cache, now),
        !state.finished(),
        spec_served(cache, state.symbols[state.at as int], state.with_prices, now),
        spec_read(cache, spec_cache_key(state.kind, state.symbols[state.at as int]), now) == Some(
            value as nat,
        ),
    ensures
        state.request() is ReadCache,
        spec_served_so_far(state.advance(Reply::Hit(value)), cache, now),
{
    let after = state.advance(Reply::Hit(value));
    if state.kind == CacheKind::Sentiment {
        let before = state.symbols.take(state.at as int);
        let symbol = state.symbols[state.at as int];
        assert(state.symbols.take((state.at + 1) as int) =~= before.push(symbol));
        assert(after.quotes =~= spec_cached_quotes(
            cache,
            state.symbols.take((state.at + 1) as int),
            state.with_prices,
            now,
        ));
    }
}

/// Whether the reads went as they go for the symbols that the cache served
/// when the reads began, whatever became of the other symbols: the cache
/// `cache` serves them as the cache `first` did, the provider is not asked
/// for them, and the quote of each that was gone through is the one that the
/// cache served.
pub open spec fn spec_served_kept(
    state: RefreshView,
    first: Map<Seq<char>, CachedValue>,
    cache: Map<Seq<char>, CachedValue>,
    now: nat,
) -> bool {
    &&& forall|j: int|
        0 <= j < state.symbols.len() && spec_served(
            first,
            #[trigger] state.symbols[j],
            state.with_prices,
            now,
        ) ==> {
            &&& spec_read(cache, spec_cache_key(CacheKind::Price, state.symbols[j]), now)
                == spec_read(first, spec_cache_key(CacheKind::Price, state.symbols[j]), now)
            &&& spec_read(cache, spec_cache_key(CacheKind::Sentiment, state.symbols[j]), now)
                == spec_read(first, spec_cache_key(CacheKind::Sentiment, state.symbols[j]), now)
        }
    &&& forall|j: int|
        0 <= j < state.symbols.len() && j < state.at && spec_served(
            first,
            #[trigger] state.symbols[j],
            state.with_prices,
            now,
        ) ==> state.quotes.contains(
            spec_cached_quote(first, state.symbols[j], state.with_prices, now),
        )
    &&& state.kind == CacheKind::Price ==> state.with_prices
    &&& !state.finished() && spec_served(
        first,
        state.symbols[state.at as int],
        state.with_prices,
        now,
    ) ==> {
        &&& state.stage is Reading
        &&& state.kind == CacheKind::Sentiment ==> state.price == spec_cached_quote(
            first,
            state.symbols[state.at as int],
            state.with_prices,
            now,
        ).price
    }
}

/// Whether `reply` is an answer that the cache `cache` or a provider can give
/// to what the state asks for, the cache being `after` then.
pub open spec fn spec_answers(
    state: RefreshView,
    cache: Map<Seq<char>, CachedValue>,
    after: Map<Seq<char>, CachedValue>,
    now: nat,
    reply: Reply,
) -> bool {
    match state.request() {
        RequestView::ReadCache { kind, symbol } => after == cache && match reply {
            Reply::Hit(value) => spec_read(cache, spec_cache_key(kind, symbol), now) == Some(
                value as nat,
            ),
            Reply::Miss => spec_read(cache, spec_cache_key(kind, symbol), now) is None,
            _ => false,
        },
        RequestView::Fetch { kind, symbol } => after == cache && (reply is Fetched || reply
            is Failed),
        RequestView::WriteCache { kind, symbol, value, ttl_secs } => (reply is Stored && after
            == spec_write(cache, spec_cache_key(kind, symbol), value, now, ttl_secs)) || (reply
            is Failed && after == cache),
        RequestView::Finished => false,
    }
}

/// A symbol that the cache served when the reads began is served to the
/// end: a write for another symbol does not reach it, each of its reads is a
/// hit, and its quote is the one that the cache served.
pub proof fn lemma_served_kept_step(
    state: RefreshView,
    first: Map<Seq<char>, CachedValue>,
    cache: Map<Seq<char>, CachedValue>,
    after: Map<Seq<char>, CachedValue>,
    now: nat,
    reply: Reply,
)
    requires
        spec_served_kept(state, first, cache, now),
        spec_answers(state, cache, after, now, reply),
    ensures
        spec_served_kept(state.advance(reply), first, after, now),
{
    let next = state.advance(reply);
    let at = state.at as int;
    let symbol = state.symbols[at];
    let own = spec_served(first, symbol, state.with_prices, now);
    assert forall|j: int|
        0 <= j < next.symbols.len() && spec_served(
            first,
            #[trigger] next.symbols[j],
            next.with_prices,
            now,
        ) implies {
        &&& spec_read(after, spec_cache_key(CacheKind::Price, next.symbols[j]), now) == spec_read(
            first,
            spec_cache_key(CacheKind::Price, next.symbols[j]),
            now,
        )
        &&& spec_read(after, spec_cache_key(CacheKind::Sentiment, next.symbols[j]), now)
            == spec_read(first, spec_cache_key(CacheKind::Sentiment, next.symbols[j]), now)
    } by {
        let other = state.symbols[j];
        if after != cache {
            let written = spec_cache_key(state.kind, symbol);
            assert(!own);
            if spec_cache_key(CacheKind::Price, other) == written {
                lemma_cache_key_injective(CacheKind::Price, other, state.kind, symbol);
            }
            if spec_cache_key(CacheKind::Sentiment, other) == written {
                lemma_cache_key_injective(CacheKind::Sentiment, other, state.kind, symbol);
            }
        }
    }
    assert forall|j: int|
        0 <= j < next.symbols.len() && j < next.at && spec_served(
            first,
            #[trigger] next.symbols[j],
            next.with_prices,
            now,
        ) implies next.quotes.contains(
        spec_cached_quote(first, next.symbols[j], next.with_prices, now),
    ) by {
        let wanted = spec_cached_quote(first, state.symbols[j], state.with_prices, now);
        if j < at {
            let k = choose|k: int| 0 <= k < state.quotes.len() && state.quotes[k] == wanted;
            assert(next.quotes[k] == wanted);
        } else {
            assert(own);
            assert(next.quotes.len() == state.quotes.len() + 1);
            assert(next.quotes[state.quotes.len() as int] == wanted);
        }
    }
}

/// Reads price and sentiment of each of `symbols` through the cache, or the
/// sentiment alone: from the cache where it holds the number, and else from
/// the provider and then into the cache.
///
/// Whatever the providers answer, the reads end, each quote that is returned
/// is a fresh quote of one of the symbols with a sentiment score of at most
/// one, and the ledger is left alone.  A symbol of which a number could not
/// be had has no quote, and no symbol is quoted twice unless it is listed
/// twice.
///
/// A symbol every number of which the cache serves has the quote that the
/// cache serves, whatever becomes of the others.  Where the cache serves
/// every number of every symbol, the quotes are the ones it serves, in the
/// symbols' order, and the cache is left alone as well.
pub fn refresh_quotes<E: Exchange, S: SentimentProvider>(
    symbols: Vec<String>,
    with_prices: bool,
    sentiment_ttl: u64,
    db: &mut Database,
    exchange: &E,
    provider: &S,
    now: u64,
) -> (quotes: Vec<Quote>)
    ensures
        final(db)@.trades == old(db)@.trades,
        forall|k: int|
            0 <= k < quotes@.len() ==> (#[trigger] quotes@[k]).fresh && quotes@[k].sentiment
                <= MAX_SENTIMENT && exists|j: int|
                0 <= j < symbols@.len() && (#[trigger] symbols@[j])@ == quotes@[k].symbol@,
        spec_distinct_texts(texts_view(symbols@)) ==> spec_distinct_quotes(quotes_view(quotes@)),
        forall|j: int|
            0 <= j < symbols@.len() && spec_served(
                old(db)@.cache,
                #[trigger] texts_view(symbols@)[j],
                with_prices,
                now as nat,
            ) ==> quotes_view(quotes@).contains(
                spec_cached_quote(
                    old(db)@.cache,
                    texts_view(symbols@)[j],
                    with_prices,
                    now as nat,
                ),
            ),
        (forall|j: int|
            0 <= j < symbols@.len() ==> spec_served(
                old(db)@.cache,
                #[trigger] texts_view(symbols@)[j],
                with_prices,
                now as nat,
            )) ==> {
            &&& final(db)@ == old(db)@
            &&& quotes_view(quotes@) == spec_cached_quotes(
                old(db)@.cache,
                texts_view(symbols@),
                with_prices,
                now as nat,
            )
        },
{
    let ghost names = texts_view(symbols@);
    let ghost cache = db@.cache;
    let ghost served = forall|j: int|
        0 <= j < names.len() ==> spec_served(cache, #[trigger] names[j], with_prices, now as nat);
    let mut refresh = Refresh::begin(symbols, with_prices, sentiment_ttl);
    assert(names.take(0) =~= Seq::<Seq<char>>::empty());
    assert(spec_cached_quotes(cache, names.take(0), with_prices, now as nat) =~= Seq::<
        QuoteView,
    >::empty());
    while !refresh.finished()
        invariant
            refresh@.symbols == names,
            refresh@.with_prices == with_prices,
            spec_quotes_sound(refresh@),
            spec_served_kept(refresh@, cache, db@.cache, now as nat),
            cache == old(db)@.cache,
            db@.trades == old(db)@.trades,
            served == (forall|j: int|
                0 <= j < names.len() ==> spec_served(
                    cache,
                    #[trigger] names[j],
                    with_prices,
                    now as nat,
                )),
            served ==> db@ == old(db)@ && cache == db@.cache && spec_served_so_far(
                refresh@,
                cache,
                now as nat,
            ),
        decreases refresh@.steps_left(),
    {
        let ghost at = refresh@.at as int;
        let ghost read_from = db@.cache;
        let reply = match refresh.request() {
            Request::ReadCache { kind, symbol } => match db.get(kind, symbol.as_str(), now) {
                Some(value) => {
                    proof {
                        if served {
                            assert(spec_served(cache, names[at], with_prices, now as nat));
                            lemma_served_step(refresh@, cache, now as nat, value);
                        }
                    }
                    Reply::Hit(value)
                },
                None => {
                    proof {
                        if served {
                            assert(spec_served(cache, names[at], with_prices, now as nat));
                        }
                    }
                    Reply::Miss
                },
            },
            Request::Fetch { kind, symbol } => {
                let fetched = match kind {
                    CacheKind::Price => exchange.fetch_price(symbol.as_str()),
                    CacheKind::Sentiment => provider.fetch_sentiment(symbol.as_str()),
                };
                match fetched {
                    Ok(value) => Reply::Fetched(value),
                    Err(_) => Reply::Failed,
                }
            },
            Request::WriteCache { kind, symbol, value, ttl_secs } => match db.set(
                kind,
                symbol.as_str(),
                value,
                ttl_secs,
                now,
            ) {
                Ok(_) => Reply::Stored,
                Err(_) => Reply::Failed,
            },
            Request::Finished => Reply::Failed,
        };
        proof {
            lemma_advance_makes_progress(refresh@, reply);
            lemma_quotes_stay_sound(refresh@, reply);
            lemma_served_kept_step(refresh@, cache, read_from, db@.cache, now as nat, reply);
        }
        refresh.advance(reply);
    }
    let ghost last = refresh@;
    let quotes = refresh.into_quotes();
    proof {
        assert forall|k: int| 0 <= k < quotes@.len() implies (#[trigger] quotes@[k]).fresh
            && quotes@[k].sentiment <= MAX_SENTIMENT && exists|j: int|
            0 <= j < symbols@.len() && (#[trigger] symbols@[j])@ == quotes@[k].symbol@ by {
            let view = quotes_view(quotes@);
            assert(view[k] == quotes@[k]@);
            let j = choose|j: int|
                0 <= j < names.len() && j < last.at && #[trigger] names[j] == view[k].symbol;
            assert(symbols@[j]@ == names[j]);
        }
        if served {
            assert(names.take(last.at as int) =~= names);
        }
    }
    quotes
}

/// Whether `read` can be what the reads of a cycle gave: fresh quotes with a
/// sentiment score of at most one.
pub open spec fn spec_read_quotes(read: Seq<QuoteView>) -> bool {
    forall|k: int|
        0 <= k < read.len() ==> (#[trigger] read[k]).fresh && read[k].sentiment <= MAX_SENTIMENT
}

/// The symbols of a list of holdings, in their order.
pub open spec fn spec_symbols(holdings: Seq<HoldingView>) -> Seq<Seq<char>> {
    holdings.map_values(|h: HoldingView| h.symbol)
}

/// What one whole cycle did, and what it leaves for the next one to compare
/// with.
#[derive(Debug)]
pub struct CycleOutcome {
    pub snapshot: CycleSnapshot,
    /// The description of each sale, in the order in which they were made.
    pub actions: Vec<String>,
}

/// One whole cycle: the reads through the cache, the decisions on what
/// they gave, the ledger entries and the messages.
///
/// Whatever the providers answer, the cycle is the one that
/// [`Portfolio::check_portfolio`] makes on the quotes that it returns: the
/// quotes that were read, and for a holding without one, the last known.
/// Where the portfolio's worth at those quotes is too large for a `u128`,
/// and only then, that is an error; portfolio and ledger are then as they
/// were.
///
/// Where the cache serves every number of every holding, no provider
/// decides anything: the quotes that were read are the ones that the cache
/// serves, and the cache is left alone.
pub fn run_cycle<E: Exchange, S: SentimentProvider>(
    portfolio: &mut Portfolio,
    db: &mut Database,
    exchange: &E,
    provider: &S,
    notifier: &Notifier,
    policy: &RiskPolicy,
    sentiment_ttl: u64,
    previous: Option<&CycleSnapshot>,
    now: u64,
    outbox: &mut Vec<Delivery>,
) -> (done: Result<CycleOutcome, PortfolioError>)
    ensures
        final(portfolio).spec_config() == old(portfolio).spec_config(),
        exists|read: Seq<QuoteView>| #[trigger]
            spec_read_quotes(read) && {
                let quoted = spec_cycle_quotes(
                    old(portfolio)@.holdings,
                    read,
                    match previous {
                        Some(p) => Some(p@),
                        None => None,
                    },
                );
                match done {
                    Ok(outcome) => outcome.snapshot@.quotes == quoted,
                    Err(_) => old(portfolio)@.total_value(quoted) > u128::MAX,
                }
            },
        (forall|i: int|
            0 <= i < old(portfolio)@.holdings.len() ==> spec_served(
                old(db)@.cache,
                (#[trigger] old(portfolio)@.holdings[i]).symbol,
                true,
                now as nat,
            )) ==> {
            let read = spec_cached_quotes(
                old(db)@.cache,
                spec_symbols(old(portfolio)@.holdings),
                true,
                now as nat,
            );
            let quoted = spec_cycle_quotes(
                old(portfolio)@.holdings,
                read,
                match previous {
                    Some(p) => Some(p@),
                    None => None,
                },
            );
            &&& final(db)@.cache == old(db)@.cache
            &&& (done is Ok) == (old(portfolio)@.total_value(quoted) <= u128::MAX)
            &&& done matches Ok(outcome) ==> outcome.snapshot@.quotes == quoted
        },
        match done {
            Ok(outcome) => {
                let snapshot = outcome.snapshot;
                let quoted = snapshot@.quotes;
                let worth = old(portfolio)@.total_value(quoted);
                let survivors = spec_survivors(
                    old(portfolio)@.holdings,
                    quoted,
                    policy.negative_threshold as nat,
                );
                let sales = spec_liquidations(
                    old(portfolio)@.holdings,
                    quoted,
                    policy.negative_threshold as nat,
                ) + spec_trims(survivors, quoted, worth, *policy);
                &&& snapshot@.total_value == worth
                &&& spec_distinct_quotes(quoted)
                &&& texts_view(outcome.actions@) == spec_sale_messages(sales)
                &&& final(portfolio)@.total_value(quoted) == worth
                &&& final(portfolio)@.holdings == spec_rebalanced(
                    survivors,
                    quoted,
                    worth,
                    *policy,
                )
                &&& final(portfolio)@.cash == old(portfolio)@.cash + spec_proceeds(sales)
                &&& final(db)@.trades == old(db)@.trades + spec_sale_trades(sales, now as nat)
                &&& deliveries_view(final(outbox)@) == deliveries_view(old(outbox)@)
                    + spec_sale_notices(
                    notifier.spec_config().sms_enabled,
                    notifier.spec_config().email_enabled,
                    sales,
                ) + spec_change_alerts(
                    notifier.spec_config(),
                    match previous {
                        Some(p) => Some(p@),
                        None => None,
                    },
                    final(portfolio)@.holdings,
                    worth,
                    quoted,
                )
            },
            Err(e) => {
                &&& e is ExchangeError
                &&& e.spec_reason() == "portfolio value out of range"@
                &&& final(portfolio)@ == old(portfolio)@
                &&& final(db)@.trades == old(db)@.trades
                &&& final(outbox)@ == old(outbox)@
            },
        },
{
    let ghost held = portfolio@.holdings;
    let ghost cache = db@.cache;
    let symbols = symbols_of(portfolio.holdings());
    let ghost names = texts_view(symbols@);
    proof {
        assert(names =~= spec_symbols(held));
        assert forall|j: int| 0 <= j < names.len() implies #[trigger] names[j]
            == held[j].symbol by {}
    }
    let read = refresh_quotes(symbols, true, sentiment_ttl, db, exchange, provider, now);
    let ghost read_view = quotes_view(read@);
    proof {
        assert forall|k: int| 0 <= k < read_view.len() implies (#[trigger] read_view[k]).fresh
            && read_view[k].sentiment <= MAX_SENTIMENT by {
            assert(read_view[k] == read@[k]@);
        }
        assert(spec_read_quotes(read_view));
    }
    let quotes = cycle_quotes(portfolio.holdings(), &read, previous);
    match portfolio.check_portfolio(&quotes, db, notifier, policy, previous, now, outbox) {
        Ok(report) => Ok(
            CycleOutcome {
                snapshot: CycleSnapshot { quotes, total_value: report.total_value },
                actions: report.actions,
            },
        ),
        Err(e) => Err(e),
    }
}

} // verus!
