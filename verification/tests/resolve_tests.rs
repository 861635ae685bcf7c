use token_analytics_api::keys::{cache_key, QueryKind};
use token_analytics_api::models::{Chain, Token, TokenAnalytics};
use token_analytics_api::resolve::{
    get_analytics, get_token, ChainDataProvider, MutationRoot, ProviderError, ProviderSet,
    QueryRoot, ResolveError, DEFAULT_CACHE_TTL_SECONDS,
};
use token_analytics_api::store::{MemStore, Store};

struct MockProvider {
    token_calls: u32,
    analytics_calls: u32,
    token_reply: Option<Token>,
    analytics_reply: Option<TokenAnalytics>,
}

impl MockProvider {
    fn returning(token: Token, analytics: TokenAnalytics) -> MockProvider {
        MockProvider {
            token_calls: 0,
            analytics_calls: 0,
            token_reply: Some(token),
            analytics_reply: Some(analytics),
        }
    }

    fn failing() -> MockProvider {
        MockProvider { token_calls: 0, analytics_calls: 0, token_reply: None, analytics_reply: None }
    }
}

impl ChainDataProvider for MockProvider {
    fn fetch_token(&mut self, _address: &str) -> Result<Token, ProviderError> {
        self.token_calls += 1;
        match &self.token_reply {
            Some(t) => Ok(t.clone()),
            None => Err(ProviderError),
        }
    }

    fn fetch_analytics(&mut self, _address: &str) -> Result<TokenAnalytics, ProviderError> {
        self.analytics_calls += 1;
        match &self.analytics_reply {
            Some(a) => Ok(a.clone()),
            None => Err(ProviderError),
        }
    }
}

fn eth_token(address: &str) -> Token {
    Token {
        address: address.to_string(),
        chain: "ethereum".to_string(),
        name: Some("Test Token".to_string()),
        symbol: Some("TST".to_string()),
        decimals: Some(18),
        total_supply: Some("1000000".to_string()),
        price_usd: Some(f64::to_bits(2.5)),
        price_change_24h: None,
        volume_24h: None,
        market_cap: None,
    }
}

fn eth_analytics(address: &str) -> TokenAnalytics {
    TokenAnalytics {
        token: eth_token(address),
        holders: Vec::new(),
        transfers: Vec::new(),
        liquidity_pools: Vec::new(),
    }
}

fn providers_with(token: Token, analytics: TokenAnalytics) -> ProviderSet<MockProvider, MockProvider> {
    ProviderSet { ethereum: MockProvider::returning(token, analytics), solana: MockProvider::failing() }
}

#[test]
fn read_through_calls_provider_exactly_once() {
    let mut store = MemStore::new();
    let mut providers = providers_with(eth_token("0xA"), eth_analytics("0xA"));
    let q = QueryRoot;

    let first = q.token(&mut store, &mut providers, "0xA", Chain::Ethereum, DEFAULT_CACHE_TTL_SECONDS);
    assert_eq!(first, Ok(eth_token("0xA")));
    assert_eq!(providers.ethereum.token_calls, 1);

    let second = q.token(&mut store, &mut providers, "0xA", Chain::Ethereum, DEFAULT_CACHE_TTL_SECONDS);
    assert_eq!(second, Ok(eth_token("0xA")));
    assert_eq!(providers.ethereum.token_calls, 1, "second resolution must be served from cache");
}

#[test]
fn refresh_invalidates_and_next_resolution_refetches() {
    let mut store = MemStore::new();
    let mut providers = providers_with(eth_token("0xA"), eth_analytics("0xA"));
    let q = QueryRoot;
    let m = MutationRoot;

    assert!(q.token(&mut store, &mut providers, "0xA", Chain::Ethereum, 300).is_ok());
    assert!(q.token(&mut store, &mut providers, "0xA", Chain::Ethereum, 300).is_ok());
    assert_eq!(providers.ethereum.token_calls, 1);

    assert_eq!(m.refresh_token_data(&mut store, "0xA", Chain::Ethereum), Ok(true));

    let after = q.token(&mut store, &mut providers, "0xA", Chain::Ethereum, 300);
    assert!(after.is_ok());
    assert_eq!(providers.ethereum.token_calls, 2, "refresh must force a refetch");
}

#[test]
fn refresh_invalidates_analytics_too() {
    let mut store = MemStore::new();
    let mut providers = providers_with(eth_token("0xA"), eth_analytics("0xA"));
    let q = QueryRoot;
    let m = MutationRoot;

    assert!(q.token_analytics(&mut store, &mut providers, "0xA", Chain::Ethereum, 300).is_ok());
    assert_eq!(providers.ethereum.analytics_calls, 1);

    assert_eq!(m.refresh_token_data(&mut store, "0xA", Chain::Ethereum), Ok(true));

    assert!(q.token_analytics(&mut store, &mut providers, "0xA", Chain::Ethereum, 300).is_ok());
    assert_eq!(providers.ethereum.analytics_calls, 2);
}

#[test]
fn unsupported_chain_resolves_to_default_token() {
    let mut store = MemStore::new();
    let mut providers = providers_with(eth_token("0xA"), eth_analytics("0xA"));
    let q = QueryRoot;

    let r = q.token(&mut store, &mut providers, "0xA", Chain::Bsc, 300).expect("must resolve");
    assert_eq!(r.address, "0xA");
    assert_eq!(r.chain, "bsc");
    assert_eq!(r.name, None);
    assert_eq!(r.symbol, None);
    assert_eq!(r.decimals, None);
    assert_eq!(r.total_supply, None);
    assert_eq!(r.price_usd, None);
    assert_eq!(r.price_change_24h, None);
    assert_eq!(r.volume_24h, None);
    assert_eq!(r.market_cap, None);
    assert_eq!(providers.ethereum.token_calls, 0);
    assert_eq!(providers.solana.token_calls, 0);

    // the default value was stored like any other resolution
    let key = cache_key(QueryKind::TokenInfo, Chain::Bsc, "0xA");
    assert_eq!(get_token(&store, &key), Ok(Some(r)));
}

#[test]
fn unsupported_chain_resolves_to_empty_analytics() {
    let mut store = MemStore::new();
    let mut providers = providers_with(eth_token("0xA"), eth_analytics("0xA"));
    let q = QueryRoot;

    let r = q
        .token_analytics(&mut store, &mut providers, "0xA", Chain::Other, 300)
        .expect("must resolve");
    assert_eq!(r.token.address, "0xA");
    assert_eq!(r.token.chain, "other");
    assert!(r.holders.is_empty());
    assert!(r.transfers.is_empty());
    assert!(r.liquidity_pools.is_empty());
    assert_eq!(providers.ethereum.analytics_calls, 0);
    assert_eq!(providers.solana.analytics_calls, 0);
}

#[test]
fn corrupt_entry_behaves_as_a_miss() {
    let mut store = MemStore::new();
    let mut providers = providers_with(eth_token("0xA"), eth_analytics("0xA"));
    let q = QueryRoot;

    let key = cache_key(QueryKind::TokenInfo, Chain::Ethereum, "0xA");
    store.set(&key, "definitely not a cache entry", 300).expect("memory store never fails");

    let r = q.token(&mut store, &mut providers, "0xA", Chain::Ethereum, 300);
    assert_eq!(r, Ok(eth_token("0xA")), "corrupt entry must cost a refetch, not an error");
    assert_eq!(providers.ethereum.token_calls, 1);

    // the corrupt entry was overwritten by the fresh value
    let second = q.token(&mut store, &mut providers, "0xA", Chain::Ethereum, 300);
    assert_eq!(second, Ok(eth_token("0xA")));
    assert_eq!(providers.ethereum.token_calls, 1);
}

#[test]
fn provider_failure_propagates_and_caches_nothing() {
    let mut store = MemStore::new();
    let mut providers: ProviderSet<MockProvider, MockProvider> =
        ProviderSet { ethereum: MockProvider::failing(), solana: MockProvider::failing() };
    let q = QueryRoot;

    let r = q.token(&mut store, &mut providers, "0xA", Chain::Ethereum, 300);
    assert_eq!(r, Err(ResolveError::FetchFailed));

    let key = cache_key(QueryKind::TokenInfo, Chain::Ethereum, "0xA");
    assert_eq!(get_token(&store, &key), Ok(None), "a failed fetch must not poison the cache");

    // a later resolution consults the provider again
    let again = q.token(&mut store, &mut providers, "0xA", Chain::Ethereum, 300);
    assert_eq!(again, Err(ResolveError::FetchFailed));
    assert_eq!(providers.ethereum.token_calls, 2);
}

#[test]
fn analytics_read_through_is_cached() {
    let mut store = MemStore::new();
    let mut providers = providers_with(eth_token("0xA"), eth_analytics("0xA"));
    let q = QueryRoot;

    let first = q.token_analytics(&mut store, &mut providers, "0xA", Chain::Ethereum, 300);
    assert_eq!(first, Ok(eth_analytics("0xA")));
    let second = q.token_analytics(&mut store, &mut providers, "0xA", Chain::Ethereum, 300);
    assert_eq!(second, Ok(eth_analytics("0xA")));
    assert_eq!(providers.ethereum.analytics_calls, 1);

    let key = cache_key(QueryKind::Analytics, Chain::Ethereum, "0xA");
    assert_eq!(get_analytics(&store, &key), Ok(Some(eth_analytics("0xA"))));
}

#[test]
fn default_ttl_is_five_minutes() {
    assert_eq!(DEFAULT_CACHE_TTL_SECONDS, 300);
}

#[test]
fn memory_store_set_get_delete() {
    let mut store = MemStore::new();
    assert_eq!(store.get("k"), Ok(None));
    store.set("k", "v", 0).unwrap();
    assert_eq!(store.get("k"), Ok(Some("v".to_string())));
    store.set("k", "w", 300).unwrap();
    assert_eq!(store.get("k"), Ok(Some("w".to_string())));
    store.delete("k").unwrap();
    assert_eq!(store.get("k"), Ok(None));
    store.delete("k").unwrap();
}
