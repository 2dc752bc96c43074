//! The store behind a cycle: the cache of quotes and the ledger of trades.
//!
//! The cache holds one value per kind and symbol, under the key
//! `kind:symbol`, until the time to live that it was written with has
//! passed.  The ledger is append-only.  Time is a count of seconds that the
//! caller supplies.

use vstd::prelude::*;
use crate::errors::PortfolioError;

verus! {

/// The time to live of a cached price, in seconds.
pub const PRICE_TTL_SECS: u64 = 300;

/// What a cached number is.
#[derive(Clone, Copy, Debug, PartialEq, Eq, Structural)]
pub enum CacheKind {
    Price,
    Sentiment,
}

/// The side of a trade.
#[derive(Clone, Copy, Debug, PartialEq, Eq, Structural)]
pub enum TradeAction {
    Buy,
    Sell,
}

/// One executed trade, as the ledger records it.
#[derive(Debug)]
pub struct Trade {
    pub symbol: String,
    pub quantity: u64,
    pub price: u64,
    pub action: TradeAction,
    pub timestamp: u64,
}

/// The mathematical content of a [`Trade`].
pub struct TradeView {
    pub symbol: Seq<char>,
    pub quantity: nat,
    pub price: nat,
    pub action: TradeAction,
    pub timestamp: nat,
}

impl View for Trade {
    type V = TradeView;

    open spec fn view(&self) -> TradeView {
        TradeView {
            symbol: self.symbol@,
            quantity: self.quantity as nat,
            price: self.price as nat,
            action: self.action,
            timestamp: self.timestamp as nat,
        }
    }
}

/// The contents of a list of trades.
pub open spec fn trades_view(trades: Seq<Trade>) -> Seq<TradeView> {
    trades.map_values(|t: Trade| t@)
}

/// A cached number and the first second at which it is no longer served.
pub struct CachedValue {
    pub value: nat,
    pub expires_at: nat,
}

/// One entry of the cache.
#[derive(Debug)]
struct CacheEntry {
    key: String,
    value: u64,
    expires_at: u64,
}

impl CacheEntry {
    spec fn cached(self) -> CachedValue {
        CachedValue { value: self.value as nat, expires_at: self.expires_at as nat }
    }
}

/// The name of a kind in a cache key.
pub open spec fn spec_kind_name(kind: CacheKind) -> Seq<char> {
    match kind {
        CacheKind::Price => "price"@,
        CacheKind::Sentiment => "sentiment"@,
    }
}

/// The key of a symbol's number of one kind: `price:BTC`.
pub open spec fn spec_cache_key(kind: CacheKind, symbol: Seq<char>) -> Seq<char> {
    spec_kind_name(kind) + seq![':'] + symbol
}

/// What a read of `key` at the time `now` returns: the value that was
/// written last, while it has not expired.
pub open spec fn spec_read(cache: Map<Seq<char>, CachedValue>, key: Seq<char>, now: nat) -> Option<
    nat,
> {
    if cache.dom().contains(key) && now < cache[key].expires_at {
        Some(cache[key].value)
    } else {
        None
    }
}

/// How many seconds a read of `key` will still be served after `now`.
pub open spec fn spec_time_left(
    cache: Map<Seq<char>, CachedValue>,
    key: Seq<char>,
    now: nat,
) -> Option<nat> {
    if cache.dom().contains(key) && now < cache[key].expires_at {
        Some((cache[key].expires_at - now) as nat)
    } else {
        None
    }
}

/// The cache after `value` was written under `key` at the time `now`, to
/// live for `ttl` seconds.
pub open spec fn spec_write(
    cache: Map<Seq<char>, CachedValue>,
    key: Seq<char>,
    value: nat,
    now: nat,
    ttl: nat,
) -> Map<Seq<char>, CachedValue> {
    cache.insert(key, CachedValue { value, expires_at: now + ttl })
}

/// A value that was written with a time to live is read back for as long as
/// less than that time has passed, and not from then on.  Other keys are
/// read as before.
pub proof fn lemma_read_after_write(
    cache: Map<Seq<char>, CachedValue>,
    key: Seq<char>,
    value: nat,
    now: nat,
    ttl: nat,
    elapsed: nat,
    other: Seq<char>,
)
    ensures
        elapsed < ttl ==> spec_read(spec_write(cache, key, value, now, ttl), key, now + elapsed)
            == Some(value),
        elapsed >= ttl ==> spec_read(spec_write(cache, key, value, now, ttl), key, now + elapsed)
            is None,
        other != key ==> spec_read(spec_write(cache, key, value, now, ttl), other, now + elapsed)
            == spec_read(cache, other, now + elapsed),
{
}

/// Two keys are equal only where kind and symbol are.
pub proof fn lemma_cache_key_injective(
    kind: CacheKind,
    symbol: Seq<char>,
    other_kind: CacheKind,
    other_symbol: Seq<char>,
)
    requires
        spec_cache_key(kind, symbol) == spec_cache_key(other_kind, other_symbol),
    ensures
        kind == other_kind,
        symbol == other_symbol,
{
    reveal_strlit("price");
    reveal_strlit("sentiment");
    let key = spec_cache_key(kind, symbol);
    let other = spec_cache_key(other_kind, other_symbol);
    assert(key[0] == spec_kind_name(kind)[0]);
    assert(other[0] == spec_kind_name(other_kind)[0]);
    let skip = spec_kind_name(kind).len() + 1;
    assert(key.subrange(skip as int, key.len() as int) =~= symbol);
    assert(other.subrange(skip as int, other.len() as int) =~= other_symbol);
}

/// The map that a list of entries stands for: a later entry of a key
/// replaces an earlier one.
spec fn spec_cache_map(entries: Seq<CacheEntry>) -> Map<Seq<char>, CachedValue>
    decreases entries.len(),
{
    if entries.len() == 0 {
        Map::empty()
    } else {
        spec_cache_map(entries.drop_last()).insert(entries.last().key@, entries.last().cached())
    }
}

/// No two entries share a key.
spec fn spec_distinct_keys(entries: Seq<CacheEntry>) -> bool {
    forall|i: int, j: int|
        0 <= i < j < entries.len() ==> (#[trigger] entries[i]).key@ != (#[trigger] entries[j]).key@
}

/// With distinct keys the map holds each entry under its key and nothing
/// else.
proof fn lemma_cache_map(entries: Seq<CacheEntry>)
    requires
        spec_distinct_keys(entries),
    ensures
        forall|i: int|
            0 <= i < entries.len() ==> spec_cache_map(entries).dom().contains(
                (#[trigger] entries[i]).key@,
            ) && spec_cache_map(entries)[entries[i].key@] == entries[i].cached(),
        forall|key: Seq<char>| #[trigger]
            spec_cache_map(entries).dom().contains(key) ==> exists|i: int|
                0 <= i < entries.len() && (#[trigger] entries[i]).key@ == key,
    decreases entries.len(),
{
    if entries.len() > 0 {
        let front = entries.drop_last();
        let last = entries.last();
        assert forall|i: int, j: int| 0 <= i < j < front.len() implies (#[trigger] front[i]).key@ != (
        #[trigger] front[j]).key@ by {
            assert(front[i] == entries[i] && front[j] == entries[j]);
        }
        lemma_cache_map(front);
        assert(entries[entries.len() - 1] == last);
        assert forall|i: int| 0 <= i < entries.len() implies spec_cache_map(
            entries,
        ).dom().contains((#[trigger] entries[i]).key@) && spec_cache_map(entries)[entries[i].key@]
            == entries[i].cached() by {
            if i < front.len() {
                assert(front[i] == entries[i]);
                assert(entries[i].key@ != entries[entries.len() - 1].key@);
            }
        }
        assert forall|key: Seq<char>| #[trigger]
            spec_cache_map(entries).dom().contains(key) implies exists|i: int|
            0 <= i < entries.len() && (#[trigger] entries[i]).key@ == key by {
            if key == last.key@ {
                assert(entries[entries.len() - 1].key@ == key);
            } else {
                assert(spec_cache_map(front).dom().contains(key));
                let i = choose|i: int| 0 <= i < front.len() && (#[trigger] front[i]).key@ == key;
                assert(entries[i] == front[i]);
            }
        }
    }
}

/// Replacing an entry by one of the same key writes that key.
proof fn lemma_cache_map_update(entries: Seq<CacheEntry>, at: int, entry: CacheEntry)
    requires
        spec_distinct_keys(entries),
        0 <= at < entries.len(),
        entry.key@ == entries[at].key@,
    ensures
        spec_distinct_keys(entries.update(at, entry)),
        spec_cache_map(entries.update(at, entry)) == spec_cache_map(entries).insert(
            entry.key@,
            entry.cached(),
        ),
{
    let after = entries.update(at, entry);
    assert forall|i: int, j: int| 0 <= i < j < after.len() implies (#[trigger] after[i]).key@ != (
    #[trigger] after[j]).key@ by {
        assert(after[i].key@ == entries[i].key@);
        assert(after[j].key@ == entries[j].key@);
    }
    lemma_cache_map(entries);
    lemma_cache_map(after);
    let wanted = spec_cache_map(entries).insert(entry.key@, entry.cached());
    let got = spec_cache_map(after);
    assert forall|key: Seq<char>| wanted.dom().contains(key) <==> got.dom().contains(key) by {
        if wanted.dom().contains(key) {
            if key != entry.key@ {
                let i = choose|i: int| 0 <= i < entries.len() && (#[trigger] entries[i]).key@ == key;
                assert(after[i].key@ == key);
            } else {
                assert(after[at].key@ == key);
            }
        }
        if got.dom().contains(key) {
            let i = choose|i: int| 0 <= i < after.len() && (#[trigger] after[i]).key@ == key;
            assert(entries[i].key@ == key);
        }
    }
    assert forall|key: Seq<char>| wanted.dom().contains(key) implies wanted[key] == got[key] by {
        let i = choose|i: int| 0 <= i < after.len() && (#[trigger] after[i]).key@ == key;
        if i != at {
            assert(after[i] == entries[i]);
        }
    }
    assert(wanted =~= got);
}

/// The key of a symbol's number of one kind.
pub fn cache_key(kind: CacheKind, symbol: &str) -> (key: String)
    ensures
        key@ == spec_cache_key(kind, symbol@),
{
    let mut key = match kind {
        CacheKind::Price => String::from_str("price"),
        CacheKind::Sentiment => String::from_str("sentiment"),
    };
    key.append(":");
    key.append(symbol);
    proof {
        reveal_strlit(":");
        assert(":"@ =~= seq![':']);
    }
    key
}

/// The name under which the side of a trade is recorded.
pub fn action_name(action: TradeAction) -> (name: &'static str)
    ensures
        name@ == match action {
            TradeAction::Buy => "buy"@,
            TradeAction::Sell => "sell"@,
        },
{
    match action {
        TradeAction::Buy => "buy",
        TradeAction::Sell => "sell",
    }
}

/// The mathematical content of a [`Database`].
pub struct DatabaseView {
    pub cache: Map<Seq<char>, CachedValue>,
    pub trades: Seq<TradeView>,
}

/// The cache of quotes and the ledger of trades, held in memory.
#[derive(Debug)]
pub struct Database {
    entries: Vec<CacheEntry>,
    trades: Vec<Trade>,
}

impl View for Database {
    type V = DatabaseView;

    closed spec fn view(&self) -> DatabaseView {
        DatabaseView { cache: spec_cache_map(self.entries@), trades: trades_view(self.trades@) }
    }
}

impl Database {
    #[verifier::type_invariant]
    closed spec fn inv(self) -> bool {
        spec_distinct_keys(self.entries@)
    }

    /// An empty cache and an empty ledger.
    pub fn new() -> (db: Database)
        ensures
            db@.cache == Map::<Seq<char>, CachedValue>::empty(),
            db@.trades == Seq::<TradeView>::empty(),
    {
        let db = Database { entries: Vec::new(), trades: Vec::new() };
        assert(trades_view(db.trades@) =~= Seq::<TradeView>::empty());
        db
    }

    /// Where the entry of `key` stands, if there is one.
    fn find(&self, key: &String) -> (found: Option<usize>)
        ensures
            match found {
                Some(i) => i < self.entries.len() && self.entries[i as int].key@ == key@,
                None => forall|i: int|
                    0 <= i < self.entries.len() ==> (#[trigger] self.entries[i]).key@ != key@,
            },
    {
        let mut i: usize = 0;
        while i < self.entries.len()
            invariant
                i <= self.entries.len(),
                forall|k: int| 0 <= k < i ==> (#[trigger] self.entries[k]).key@ != key@,
            decreases self.entries.len() - i,
        {
            if self.entries[i].key == *key {
                return Some(i);
            }
            i += 1;
        }
        None
    }

    /// The cached number of one kind of `symbol`, unless it has expired or
    /// was never written.
    pub fn get(&self, kind: CacheKind, symbol: &str, now: u64) -> (value: Option<u64>)
        ensures
            match value {
                Some(v) => spec_read(self@.cache, spec_cache_key(kind, symbol@), now as nat)
                    == Some(v as nat),
                None => spec_read(self@.cache, spec_cache_key(kind, symbol@), now as nat) is None,
            },
    {
        let key = cache_key(kind, symbol);
        proof {
            use_type_invariant(self);
            lemma_cache_map(self.entries@);
        }
        match self.find(&key) {
            Some(i) => {
                if now < self.entries[i].expires_at {
                    Some(self.entries[i].value)
                } else {
                    None
                }
            },
            None => None,
        }
    }

    /// For how many seconds the cached number of one kind of `symbol` will
    /// still be served.
    pub fn time_left(&self, kind: CacheKind, symbol: &str, now: u64) -> (left: Option<u64>)
        ensures
            match left {
                Some(t) => spec_time_left(self@.cache, spec_cache_key(kind, symbol@), now as nat)
                    == Some(t as nat),
                None => spec_time_left(self@.cache, spec_cache_key(kind, symbol@), now as nat)
                    is None,
            },
    {
        let key = cache_key(kind, symbol);
        proof {
            use_type_invariant(self);
            lemma_cache_map(self.entries@);
        }
        match self.find(&key) {
            Some(i) => {
                if now < self.entries[i].expires_at {
                    Some(self.entries[i].expires_at - now)
                } else {
                    None
                }
            },
            None => None,
        }
    }

    /// Stores `value` as the number of one kind of `symbol`, from now and
    /// for `ttl_secs` seconds, in place of what was stored before.
    ///
    /// A time to live that ends after the last second that can be counted
    /// is an error, and nothing is stored.
    pub fn set(&mut self, kind: CacheKind, symbol: &str, value: u64, ttl_secs: u64, now: u64) -> (done:
        Result<(), PortfolioError>)
        ensures
            final(self)@.trades == old(self)@.trades,
            match done {
                Ok(_) => {
                    &&& now + ttl_secs <= u64::MAX
                    &&& final(self)@.cache == spec_write(
                        old(self)@.cache,
                        spec_cache_key(kind, symbol@),
                        value as nat,
                        now as nat,
                        ttl_secs as nat,
                    )
                },
                Err(e) => {
                    &&& e is DatabaseError
                    &&& e.spec_reason() == "time to live too large"@
                    &&& now + ttl_secs > u64::MAX
                    &&& final(self)@.cache == old(self)@.cache
                },
            },
    {
        if ttl_secs > u64::MAX - now {
            return Err(PortfolioError::DatabaseError(String::from_str("time to live too large")));
        }
        let key = cache_key(kind, symbol);
        let found = self.find(&key);
        let entry = CacheEntry { key, value, expires_at: now + ttl_secs };
        proof {
            use_type_invariant(&*self);
        }
        let mut store = Database::new();
        core::mem::swap(self, &mut store);
        let Database { entries: mut entries, trades } = store;
        let ghost before = entries@;
        match found {
            Some(i) => {
                proof {
                    lemma_cache_map_update(before, i as int, entry);
                }
                entries.set(i, entry);
            },
            None => {
                proof {
                    assert(before.push(entry).drop_last() =~= before);
                    assert forall|a: int, b: int| 0 <= a < b < before.push(entry).len() implies (
                    #[trigger] before.push(entry)[a]).key@ != (#[trigger] before.push(entry)[b]).key@ by {
                        if b < before.len() {
                            assert(before.push(entry)[a] == before[a]);
                            assert(before.push(entry)[b] == before[b]);
                        } else {
                            assert(before.push(entry)[a] == before[a]);
                        }
                    }
                }
                entries.push(entry);
            },
        }
        *self = Database { entries, trades };
        Ok(())
    }

    /// The cached price of `symbol`.
    pub fn get_cached_price(&self, symbol: &str, now: u64) -> (price: Option<u64>)
        ensures
            match price {
                Some(v) => spec_read(
                    self@.cache,
                    spec_cache_key(CacheKind::Price, symbol@),
                    now as nat,
                ) == Some(v as nat),
                None => spec_read(
                    self@.cache,
                    spec_cache_key(CacheKind::Price, symbol@),
                    now as nat,
                ) is None,
            },
    {
        self.get(CacheKind::Price, symbol, now)
    }

    /// Caches the price of `symbol` for five minutes.
    pub fn cache_price(&mut self, symbol: &str, price: u64, now: u64) -> (done: Result<
        (),
        PortfolioError,
    >)
        ensures
            final(self)@.trades == old(self)@.trades,
            match done {
                Ok(_) => {
                    &&& now + PRICE_TTL_SECS <= u64::MAX
                    &&& final(self)@.cache == spec_write(
                        old(self)@.cache,
                        spec_cache_key(CacheKind::Price, symbol@),
                        price as nat,
                        now as nat,
                        PRICE_TTL_SECS as nat,
                    )
                },
                Err(e) => {
                    &&& e is DatabaseError
                    &&& e.spec_reason() == "time to live too large"@
                    &&& now + PRICE_TTL_SECS > u64::MAX
                    &&& final(self)@.cache == old(self)@.cache
                },
            },
    {
        self.set(CacheKind::Price, symbol, price, PRICE_TTL_SECS, now)
    }

    /// The cached sentiment score of `symbol`.
    pub fn get_cached_sentiment(&self, symbol: &str, now: u64) -> (score: Option<u64>)
        ensures
            match score {
                Some(v) => spec_read(
                    self@.cache,
                    spec_cache_key(CacheKind::Sentiment, symbol@),
                    now as nat,
                ) == Some(v as nat),
                None => spec_read(
                    self@.cache,
                    spec_cache_key(CacheKind::Sentiment, symbol@),
                    now as nat,
                ) is None,
            },
    {
        self.get(CacheKind::Sentiment, symbol, now)
    }

    /// Caches the sentiment score of `symbol` for `ttl` seconds.
    pub fn cache_sentiment(&mut self, symbol: &str, sentiment: u64, ttl: u64, now: u64) -> (done:
        Result<(), PortfolioError>)
        ensures
            final(self)@.trades == old(self)@.trades,
            match done {
                Ok(_) => {
                    &&& now + ttl <= u64::MAX
                    &&& final(self)@.cache == spec_write(
                        old(self)@.cache,
                        spec_cache_key(CacheKind::Sentiment, symbol@),
                        sentiment as nat,
                        now as nat,
                        ttl as nat,
                    )
                },
                Err(e) => {
                    &&& e is DatabaseError
                    &&& e.spec_reason() == "time to live too large"@
                    &&& now + ttl > u64::MAX
                    &&& final(self)@.cache == old(self)@.cache
                },
            },
    {
        self.set(CacheKind::Sentiment, symbol, sentiment, ttl, now)
    }

    /// For how many seconds the cached sentiment score of `symbol` will
    /// still be served.
    pub fn get_cached_sentiment_ttl(&self, symbol: &str, now: u64) -> (left: Option<u64>)
        ensures
            match left {
                Some(t) => spec_time_left(
                    self@.cache,
                    spec_cache_key(CacheKind::Sentiment, symbol@),
                    now as nat,
                ) == Some(t as nat),
                None => spec_time_left(
                    self@.cache,
                    spec_cache_key(CacheKind::Sentiment, symbol@),
                    now as nat,
                ) is None,
            },
    {
        self.time_left(CacheKind::Sentiment, symbol, now)
    }

    /// Appends one trade to the ledger.  What the ledger held stays as it
    /// was.
    pub fn log_trade(
        &mut self,
        symbol: &str,
        quantity: u64,
        price: u64,
        action: TradeAction,
        now: u64,
    )
        ensures
            final(self)@.cache == old(self)@.cache,
            final(self)@.trades == old(self)@.trades.push(
                TradeView {
                    symbol: symbol@,
                    quantity: quantity as nat,
                    price: price as nat,
                    action,
                    timestamp: now as nat,
                },
            ),
    {
        let trade = Trade {
            symbol: String::from_str(symbol),
            quantity,
            price,
            action,
            timestamp: now,
        };
        proof {
            use_type_invariant(&*self);
        }
        let mut store = Database::new();
        core::mem::swap(self, &mut store);
        let Database { entries, trades: mut trades } = store;
        proof {
            assert(trades_view(trades@.push(trade)) =~= trades_view(trades@).push(trade@));
        }
        trades.push(trade);
        *self = Database { entries, trades };
    }

    /// The ledger, oldest trade first.
    pub fn trades(&self) -> (trades: &Vec<Trade>)
        ensures
            trades_view(trades@) == self@.trades,
    {
        &self.trades
    }
}

} // verus!
