//! What is known of the providers of prices and of sentiment scores without
//! asking them: which symbols the exchange lists, and where each number is
//! asked for.

use vstd::prelude::*;
use crate::config::ExchangeConfig;
use crate::errors::PortfolioError;

verus! {

/// A source of prices, in millionths.
pub trait Exchange {
    fn fetch_price(&self, symbol: &str) -> Result<u64, PortfolioError>;
}

/// A source of sentiment scores, in millionths: from nothing, the most
/// bearish, to one million, the most bullish.
pub trait SentimentProvider {
    fn fetch_sentiment(&self, symbol: &str) -> Result<u64, PortfolioError>;
}

/// The name under which the exchange lists a symbol of the portfolio.
#[derive(Debug)]
pub struct Listing {
    pub symbol: String,
    pub ticker: String,
}

/// The mathematical content of a [`Listing`].
pub struct ListingView {
    pub symbol: Seq<char>,
    pub ticker: Seq<char>,
}

impl View for Listing {
    type V = ListingView;

    open spec fn view(&self) -> ListingView {
        ListingView { symbol: self.symbol@, ticker: self.ticker@ }
    }
}

/// The contents of a list of listings.
pub open spec fn listings_view(listings: Seq<Listing>) -> Seq<ListingView> {
    listings.map_values(|l: Listing| l@)
}

/// The name of `symbol` on the exchange: that of its first listing.
pub open spec fn spec_ticker(listings: Seq<ListingView>, symbol: Seq<char>) -> Option<Seq<char>>
    decreases listings.len(),
{
    if listings.len() == 0 {
        None
    } else {
        match spec_ticker(listings.drop_last(), symbol) {
            Some(t) => Some(t),
            None => if listings.last().symbol == symbol {
                Some(listings.last().ticker)
            } else {
                None
            },
        }
    }
}

/// No symbol is listed twice.
pub open spec fn spec_distinct_listings(listings: Seq<ListingView>) -> bool {
    forall|i: int, j: int|
        0 <= i < j < listings.len() ==> (#[trigger] listings[i]).symbol != (
        #[trigger] listings[j]).symbol
}

/// What was found among the first `n` listings is what is found among all.
proof fn lemma_ticker_prefix(listings: Seq<ListingView>, symbol: Seq<char>, n: int)
    requires
        0 <= n <= listings.len(),
        spec_ticker(listings.take(n), symbol) is Some,
    ensures
        spec_ticker(listings, symbol) == spec_ticker(listings.take(n), symbol),
    decreases listings.len() - n,
{
    if n == listings.len() {
        assert(listings.take(n) =~= listings);
    } else {
        assert(listings.take(n + 1).drop_last() =~= listings.take(n));
        lemma_ticker_prefix(listings, symbol, n + 1);
    }
}

/// The lower-case form of a text.
pub uninterp spec fn spec_lowercase(text: Seq<char>) -> Seq<char>;

/// `str::to_lowercase` of the standard library: the result is the
/// lower-case form of the text, which depends on the text alone.
#[verifier::external_body]
fn lowercase(text: &str) -> (lower: String)
    ensures
        lower@ == spec_lowercase(text@),
{
    text.to_lowercase()
}

/// Where the exchange answers for the price of a listed name.
pub open spec fn spec_price_url(api_url: Seq<char>, ticker: Seq<char>) -> Seq<char> {
    api_url + "/api/v3/ticker/price?symbol="@ + ticker
}

/// Where the sentiment of a symbol is asked for, given its lower-case form.
pub open spec fn spec_sentiment_url(base_url: Seq<char>, lower: Seq<char>, api_key: Seq<char>) -> Seq<
    char,
> {
    base_url + "/topic/"@ + lower + "/sentiment?key="@ + api_key
}

/// The exchange that prices are asked of.
#[derive(Debug)]
pub struct BinanceExchange {
    pub api_key: String,
    pub api_secret: String,
    pub api_url: String,
    pub symbol_map: Vec<Listing>,
}

impl BinanceExchange {
    /// The listings that the exchange was made with.
    pub open spec fn spec_listings(self) -> Seq<ListingView> {
        listings_view(self.symbol_map@)
    }

    /// An exchange at `api_url` that lists the symbols of `symbol_map`.
    pub fn new(api_url: &str, api_key: &str, api_secret: &str, symbol_map: Vec<Listing>) -> (exchange:
        BinanceExchange)
        ensures
            exchange.api_url@ == api_url@,
            exchange.api_key@ == api_key@,
            exchange.api_secret@ == api_secret@,
            exchange.spec_listings() == listings_view(symbol_map@),
    {
        BinanceExchange {
            api_url: String::from_str(api_url),
            api_key: String::from_str(api_key),
            api_secret: String::from_str(api_secret),
            symbol_map,
        }
    }

    /// The name of `symbol` on the exchange.  A symbol that the exchange
    /// does not list is an error.
    pub fn ticker(&self, symbol: &str) -> (name: Result<String, PortfolioError>)
        ensures
            match name {
                Ok(t) => spec_ticker(self.spec_listings(), symbol@) == Some(t@),
                Err(e) => {
                    &&& spec_ticker(self.spec_listings(), symbol@) is None
                    &&& e is ApiError
                    &&& e.spec_reason() == "Symbol "@ + symbol@ + " not supported by Binance"@
                },
            },
    {
        let wanted = String::from_str(symbol);
        let ghost all = listings_view(self.symbol_map@);
        let mut i: usize = 0;
        while i < self.symbol_map.len()
            invariant
                i <= self.symbol_map.len(),
                all == listings_view(self.symbol_map@),
                wanted@ == symbol@,
                spec_ticker(all.take(i as int), symbol@) is None,
            decreases self.symbol_map.len() - i,
        {
            proof {
                assert(all.take(i + 1).drop_last() =~= all.take(i as int));
                assert(all.take(i + 1).last() == self.symbol_map[i as int]@);
            }
            if self.symbol_map[i].symbol == wanted {
                proof {
                    lemma_ticker_prefix(all, symbol@, i + 1);
                }
                return Ok(self.symbol_map[i].ticker.clone());
            }
            i += 1;
        }
        proof {
            assert(all.take(i as int) =~= all);
        }
        let mut reason = String::from_str("Symbol ");
        reason.append(symbol);
        reason.append(" not supported by Binance");
        Err(PortfolioError::ApiError(reason))
    }

    /// Where the price of `symbol` is asked for.  A symbol that the exchange
    /// does not list is an error.
    pub fn price_url(&self, symbol: &str) -> (url: Result<String, PortfolioError>)
        ensures
            match url {
                Ok(u) => {
                    &&& spec_ticker(self.spec_listings(), symbol@) is Some
                    &&& u@ == spec_price_url(
                        self.api_url@,
                        spec_ticker(self.spec_listings(), symbol@).unwrap(),
                    )
                },
                Err(e) => {
                    &&& spec_ticker(self.spec_listings(), symbol@) is None
                    &&& e is ApiError
                    &&& e.spec_reason() == "Symbol "@ + symbol@ + " not supported by Binance"@
                },
            },
    {
        match self.ticker(symbol) {
            Ok(ticker) => {
                let mut url = self.api_url.clone();
                url.append("/api/v3/ticker/price?symbol=");
                url.append(ticker.as_str());
                Ok(url)
            },
            Err(e) => Err(e),
        }
    }
}

/// The provider that sentiment scores are asked of.
#[derive(Debug)]
pub struct LunarCrushProvider {
    base_url: String,
    api_key: String,
}

impl LunarCrushProvider {
    /// The address that the provider was made with.
    pub closed spec fn spec_base_url(self) -> Seq<char> {
        self.base_url@
    }

    /// The key that the provider was made with.
    pub closed spec fn spec_api_key(self) -> Seq<char> {
        self.api_key@
    }

    /// A provider at `api_url` that is asked with `api_key`.
    pub fn new(api_url: &str, api_key: &str) -> (provider: LunarCrushProvider)
        ensures
            provider.spec_base_url() == api_url@,
            provider.spec_api_key() == api_key@,
    {
        LunarCrushProvider {
            base_url: String::from_str(api_url),
            api_key: String::from_str(api_key),
        }
    }

    /// Where the sentiment of `symbol` is asked for: under the lower-case
    /// form of the symbol.
    pub fn sentiment_url(&self, symbol: &str) -> (url: String)
        ensures
            url@ == spec_sentiment_url(
                self.spec_base_url(),
                spec_lowercase(symbol@),
                self.spec_api_key(),
            ),
    {
        let lower = lowercase(symbol);
        compose_sentiment_url(self.base_url.as_str(), lower.as_str(), self.api_key.as_str())
    }
}

/// Where the sentiment of a symbol is asked for, given its lower-case form.
pub fn compose_sentiment_url(base_url: &str, lower: &str, api_key: &str) -> (url: String)
    ensures
        url@ == spec_sentiment_url(base_url@, lower@, api_key@),
{
    let mut url = String::from_str(base_url);
    url.append("/topic/");
    url.append(lower);
    url.append("/sentiment?key=");
    url.append(api_key);
    url
}

/// The provider of sentiment scores at `api_url`.
pub fn create_sentiment_provider(api_url: &str, api_key: &str) -> (provider: LunarCrushProvider)
    ensures
        provider.spec_base_url() == api_url@,
        provider.spec_api_key() == api_key@,
{
    LunarCrushProvider::new(api_url, api_key)
}

/// The listings of the one exchange that is supported.
pub open spec fn spec_binance_listings() -> Seq<ListingView> {
    seq![
        ListingView { symbol: "PHA"@, ticker: "PHAUSDT"@ },
        ListingView { symbol: "SUI"@, ticker: "SUIUSDT"@ },
        ListingView { symbol: "DUSK"@, ticker: "DUSKUSDT"@ },
    ]
}

/// Whether an exchange of this name can be made.
pub fn is_supported_exchange(name: &str) -> (supported: bool)
    ensures
        supported == (name@ == "binance"@),
{
    String::from_str(name) == String::from_str("binance")
}

/// The exchange that `config` names, with its listings, none of which lists
/// a symbol twice.
pub fn create_exchange(config: &ExchangeConfig) -> (exchange: BinanceExchange)
    requires
        config.name@ == "binance"@,
    ensures
        exchange.api_url@ == config.base_url@,
        exchange.api_key@ == config.api_key@,
        exchange.api_secret@ == config.api_secret@,
        exchange.spec_listings() == spec_binance_listings(),
        spec_distinct_listings(exchange.spec_listings()),
{
    proof {
        reveal_strlit("PHA");
        reveal_strlit("SUI");
        reveal_strlit("DUSK");
        let listed = spec_binance_listings();
        assert(listed[0].symbol[0] == 'P' && listed[1].symbol[0] == 'S' && listed[2].symbol[0]
            == 'D');
    }
    let mut symbol_map: Vec<Listing> = Vec::new();
    symbol_map.push(
        Listing { symbol: String::from_str("PHA"), ticker: String::from_str("PHAUSDT") },
    );
    symbol_map.push(
        Listing { symbol: String::from_str("SUI"), ticker: String::from_str("SUIUSDT") },
    );
    symbol_map.push(
        Listing { symbol: String::from_str("DUSK"), ticker: String::from_str("DUSKUSDT") },
    );
    assert(listings_view(symbol_map@) =~= spec_binance_listings());
    BinanceExchange::new(
        config.base_url.as_str(),
        config.api_key.as_str(),
        config.api_secret.as_str(),
        symbol_map,
    )
}

} // verus!
