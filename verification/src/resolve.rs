//! The resolution cache and query dispatcher.
//!
//! A query for (chain, address) first consults the store under the key of
//! its kind; a decodable entry is served as-is. On a miss the chain's
//! provider is invoked — or, for a chain without one, a default entity is
//! synthesized — and the result is stored before it is returned. Provider
//! failures propagate without poisoning the cache; corrupt cache entries
//! read as misses and only cost a refetch. Concurrent identical requests
//! are not deduplicated: both may fetch and both store, last write wins.

use vstd::prelude::*;
use vstd::string::StringExecFns;
use crate::models::{
    Chain, Token, TokenAnalytics, TokenAnalyticsModel, TokenModel, default_analytics,
    default_analytics_model, default_token, default_token_model,
};
use crate::codec::{
    decode_token, decode_token_model, enc_token, encode_token, lemma_token_round_trip,
    token_model_wf,
};
use crate::entities::{
    analytics_model_wf, decode_analytics, decode_analytics_model, enc_analytics,
    encode_analytics, lemma_analytics_round_trip,
};
use crate::keys::{QueryKind, cache_key, key_model};
use crate::store::Store;

verus! {

/// How long cache entries live unless the host configures otherwise, in
/// seconds.
pub const DEFAULT_CACHE_TTL_SECONDS: u64 = 300;

/// A provider's failure. The cache layer treats every provider error as
/// an opaque fetch-failed signal.
#[derive(Clone, Copy, Debug, PartialEq, Eq, Structural)]
pub struct ProviderError;

/// Why a resolution failed.
#[derive(Clone, Copy, Debug, PartialEq, Eq, Structural)]
pub enum ResolveError {
    /// The backing store could not be reached, so the request cannot be
    /// served.
    StoreUnavailable,
    /// The chain's provider failed; nothing was cached.
    FetchFailed,
}

/// A chain-specific data source, implemented by the host program against
/// its RPC backends and by mocks in tests. Nothing is assumed of what an
/// implementation returns.
pub trait ChainDataProvider {
    /// Fetches the token's information.
    fn fetch_token(&mut self, address: &str) -> Result<Token, ProviderError>;

    /// Fetches the token's analytics snapshot.
    fn fetch_analytics(&mut self, address: &str) -> Result<TokenAnalytics, ProviderError>;
}

/// The providers of the supported chains, chosen once at composition
/// time.
pub struct ProviderSet<E, S> {
    pub ethereum: E,
    pub solana: S,
}

/// Whether the store holds a decodable token entry under `key`.
pub open spec fn token_hit(m: Map<Seq<char>, Seq<char>>, key: Seq<char>) -> bool {
    m.contains_key(key) && decode_token_model(m[key]) is Some
}

/// The token such an entry decodes to.
pub open spec fn token_hit_value(m: Map<Seq<char>, Seq<char>>, key: Seq<char>) -> TokenModel {
    decode_token_model(m[key]).unwrap()
}

/// Whether the store holds a decodable analytics entry under `key`.
pub open spec fn analytics_hit(m: Map<Seq<char>, Seq<char>>, key: Seq<char>) -> bool {
    m.contains_key(key) && decode_analytics_model(m[key]) is Some
}

/// The snapshot such an entry decodes to.
pub open spec fn analytics_hit_value(
    m: Map<Seq<char>, Seq<char>>,
    key: Seq<char>,
) -> TokenAnalyticsModel {
    decode_analytics_model(m[key]).unwrap()
}

/// Looks a token up in the cache. A corrupt entry reads as a miss: decode
/// errors never surface to the request path.
pub fn get_token<S: Store>(store: &S, key: &str) -> (r: Result<Option<Token>, ResolveError>)
    ensures
        match r {
            Ok(Some(t)) => token_hit(store.model(), key@) && t@ == token_hit_value(
                store.model(),
                key@,
            ),
            Ok(None) => !token_hit(store.model(), key@),
            Err(e) => e == ResolveError::StoreUnavailable,
        },
{
    match store.get(key) {
        Err(_) => Err(ResolveError::StoreUnavailable),
        Ok(None) => Ok(None),
        Ok(Some(raw)) => match decode_token(raw.as_str()) {
            Some(t) => Ok(Some(t)),
            None => Ok(None),
        },
    }
}

/// Stores a token under `key` with the given TTL, overwriting.
pub fn cache_token<S: Store>(store: &mut S, key: &str, token: &Token, ttl_seconds: u64) -> (r:
    Result<(), ResolveError>)
    ensures
        token_model_wf(token@),
        match r {
            Ok(_) => final (store).model() == old(store).model().insert(
                key@,
                enc_token(token@),
            ),
            Err(e) => e == ResolveError::StoreUnavailable && final (store).model() == old(
                store,
            ).model(),
        },
{
    let encoded = encode_token(token);
    match store.set(key, encoded.as_str(), ttl_seconds) {
        Ok(_) => Ok(()),
        Err(_) => Err(ResolveError::StoreUnavailable),
    }
}

/// Looks an analytics snapshot up in the cache; a corrupt entry reads as
/// a miss.
pub fn get_analytics<S: Store>(store: &S, key: &str) -> (r: Result<
    Option<TokenAnalytics>,
    ResolveError,
>)
    ensures
        match r {
            Ok(Some(a)) => analytics_hit(store.model(), key@) && a@ == analytics_hit_value(
                store.model(),
                key@,
            ),
            Ok(None) => !analytics_hit(store.model(), key@),
            Err(e) => e == ResolveError::StoreUnavailable,
        },
{
    match store.get(key) {
        Err(_) => Err(ResolveError::StoreUnavailable),
        Ok(None) => Ok(None),
        Ok(Some(raw)) => match decode_analytics(raw.as_str()) {
            Some(a) => Ok(Some(a)),
            None => Ok(None),
        },
    }
}

/// Stores an analytics snapshot under `key` with the given TTL.
pub fn cache_analytics<S: Store>(
    store: &mut S,
    key: &str,
    analytics: &TokenAnalytics,
    ttl_seconds: u64,
) -> (r: Result<(), ResolveError>)
    ensures
        analytics_model_wf(analytics@),
        match r {
            Ok(_) => final (store).model() == old(store).model().insert(
                key@,
                enc_analytics(analytics@),
            ),
            Err(e) => e == ResolveError::StoreUnavailable && final (store).model() == old(
                store,
            ).model(),
        },
{
    let encoded = encode_analytics(analytics);
    match store.set(key, encoded.as_str(), ttl_seconds) {
        Ok(_) => Ok(()),
        Err(_) => Err(ResolveError::StoreUnavailable),
    }
}

/// Deletes the entry under `key` outright, so that no later lookup can
/// return the invalidated value.
pub fn invalidate<S: Store>(store: &mut S, key: &str) -> (r: Result<(), ResolveError>)
    ensures
        match r {
            Ok(_) => final (store).model() == old(store).model().remove(key@),
            Err(e) => e == ResolveError::StoreUnavailable && final (store).model() == old(
                store,
            ).model(),
        },
{
    match store.delete(key) {
        Ok(_) => Ok(()),
        Err(_) => Err(ResolveError::StoreUnavailable),
    }
}

/// The query dispatcher: maps a (chain, address, kind) request to the
/// cache and the right provider.
pub struct QueryRoot;

impl QueryRoot {
    /// Resolves token information cache-aside: a decodable cached entry
    /// is returned as-is with no provider call and no re-store; on a miss
    /// the chain's provider (or the default entity, for an unsupported
    /// chain) supplies the token, which is stored and returned; a
    /// provider failure propagates and caches nothing.
    pub fn token<S: Store, E: ChainDataProvider, P: ChainDataProvider>(
        &self,
        store: &mut S,
        providers: &mut ProviderSet<E, P>,
        address: &str,
        chain: Chain,
        ttl_seconds: u64,
    ) -> (r: Result<Token, ResolveError>)
        ensures
            ({
                let key = key_model(QueryKind::TokenInfo, chain, address@);
                let m0 = old(store).model();
                match r {
                    Ok(t) => if token_hit(m0, key) {
                        &&& t@ == token_hit_value(m0, key)
                        &&& final (store).model() == m0
                        &&& *final (providers) == *old(providers)
                    } else {
                        &&& final (store).model() == m0.insert(key, enc_token(t@))
                        &&& token_model_wf(t@)
                        &&& (!chain.spec_supported() ==> t@ == default_token_model(
                            chain,
                            address@,
                        ) && *final (providers) == *old(providers))
                    },
                    Err(ResolveError::FetchFailed) => {
                        &&& final (store).model() == m0
                        &&& !token_hit(m0, key)
                        &&& chain.spec_supported()
                    },
                    Err(ResolveError::StoreUnavailable) => final (store).model() == m0,
                }
            }),
    {
        let key = cache_key(QueryKind::TokenInfo, chain, address);
        match get_token(store, key.as_str()) {
            Err(e) => {
                return Err(e);
            },
            Ok(Some(t)) => {
                return Ok(t);
            },
            Ok(None) => {},
        }
        let fetched: Result<Token, ProviderError> = match chain {
            Chain::Ethereum => providers.ethereum.fetch_token(address),
            Chain::Solana => providers.solana.fetch_token(address),
            Chain::Bsc | Chain::Other => Ok(default_token(chain, address)),
        };
        match fetched {
            Err(_) => Err(ResolveError::FetchFailed),
            Ok(t) => match cache_token(store, key.as_str(), &t, ttl_seconds) {
                Err(e) => Err(e),
                Ok(_) => Ok(t),
            },
        }
    }

    /// Resolves an analytics snapshot by the same cache-aside protocol as
    /// [`QueryRoot::token`].
    pub fn token_analytics<S: Store, E: ChainDataProvider, P: ChainDataProvider>(
        &self,
        store: &mut S,
        providers: &mut ProviderSet<E, P>,
        address: &str,
        chain: Chain,
        ttl_seconds: u64,
    ) -> (r: Result<TokenAnalytics, ResolveError>)
        ensures
            ({
                let key = key_model(QueryKind::Analytics, chain, address@);
                let m0 = old(store).model();
                match r {
                    Ok(a) => if analytics_hit(m0, key) {
                        &&& a@ == analytics_hit_value(m0, key)
                        &&& final (store).model() == m0
                        &&& *final (providers) == *old(providers)
                    } else {
                        &&& final (store).model() == m0.insert(key, enc_analytics(a@))
                        &&& analytics_model_wf(a@)
                        &&& (!chain.spec_supported() ==> a@ == default_analytics_model(
                            chain,
                            address@,
                        ) && *final (providers) == *old(providers))
                    },
                    Err(ResolveError::FetchFailed) => {
                        &&& final (store).model() == m0
                        &&& !analytics_hit(m0, key)
                        &&& chain.spec_supported()
                    },
                    Err(ResolveError::StoreUnavailable) => final (store).model() == m0,
                }
            }),
    {
        let key = cache_key(QueryKind::Analytics, chain, address);
        match get_analytics(store, key.as_str()) {
            Err(e) => {
                return Err(e);
            },
            Ok(Some(a)) => {
                return Ok(a);
            },
            Ok(None) => {},
        }
        let fetched: Result<TokenAnalytics, ProviderError> = match chain {
            Chain::Ethereum => providers.ethereum.fetch_analytics(address),
            Chain::Solana => providers.solana.fetch_analytics(address),
            Chain::Bsc | Chain::Other => Ok(default_analytics(chain, address)),
        };
        match fetched {
            Err(_) => Err(ResolveError::FetchFailed),
            Ok(a) => match cache_analytics(store, key.as_str(), &a, ttl_seconds) {
                Err(e) => Err(e),
                Ok(_) => Ok(a),
            },
        }
    }
}

/// The mutation dispatcher: explicit cache-busting.
pub struct MutationRoot;

impl MutationRoot {
    /// Invalidates both the token and the analytics entry for (chain,
    /// address) and reports success. It does not eagerly refetch: the
    /// next resolution of either key misses and consults the provider.
    pub fn refresh_token_data<S: Store>(&self, store: &mut S, address: &str, chain: Chain) -> (r:
        Result<bool, ResolveError>)
        ensures
            ({
                let tkey = key_model(QueryKind::TokenInfo, chain, address@);
                let akey = key_model(QueryKind::Analytics, chain, address@);
                let m0 = old(store).model();
                match r {
                    Ok(b) => b && final (store).model() == m0.remove(tkey).remove(akey),
                    Err(e) => e == ResolveError::StoreUnavailable && (final (store).model() == m0
                        || final (store).model() == m0.remove(tkey)),
                }
            }),
    {
        let tkey = cache_key(QueryKind::TokenInfo, chain, address);
        let akey = cache_key(QueryKind::Analytics, chain, address);
        match invalidate(store, tkey.as_str()) {
            Err(e) => {
                return Err(e);
            },
            Ok(_) => {},
        }
        match invalidate(store, akey.as_str()) {
            Err(e) => {
                return Err(e);
            },
            Ok(_) => {},
        }
        Ok(true)
    }
}

/// Subscriptions are not part of this layer; the struct stands as the
/// root for hosts that mount one.
pub struct SubscriptionRoot;

/// Read-through law: once a resolved token is stored under its key, a
/// lookup of that key is a hit that decodes to the very same token — so a
/// second resolution serves the cache and leaves the providers untouched.
pub proof fn lemma_read_through_token(
    m: Map<Seq<char>, Seq<char>>,
    chain: Chain,
    address: Seq<char>,
    t: TokenModel,
)
    requires
        token_model_wf(t),
    ensures
        token_hit(m.insert(key_model(QueryKind::TokenInfo, chain, address), enc_token(t)), key_model(QueryKind::TokenInfo, chain, address)),
        token_hit_value(m.insert(key_model(QueryKind::TokenInfo, chain, address), enc_token(t)), key_model(QueryKind::TokenInfo, chain, address)) == t,
{
    lemma_token_round_trip(t);
}

/// Read-through law for analytics snapshots.
pub proof fn lemma_read_through_analytics(
    m: Map<Seq<char>, Seq<char>>,
    chain: Chain,
    address: Seq<char>,
    a: TokenAnalyticsModel,
)
    requires
        analytics_model_wf(a),
    ensures
        analytics_hit(m.insert(key_model(QueryKind::Analytics, chain, address), enc_analytics(a)), key_model(QueryKind::Analytics, chain, address)),
        analytics_hit_value(m.insert(key_model(QueryKind::Analytics, chain, address), enc_analytics(a)), key_model(QueryKind::Analytics, chain, address)) == a,
{
    lemma_analytics_round_trip(a);
}

/// Invalidation law: immediately after a refresh removed both keys,
/// neither lookup can hit, so the next resolution consults the provider
/// again.
pub proof fn lemma_refresh_invalidates(
    m: Map<Seq<char>, Seq<char>>,
    chain: Chain,
    address: Seq<char>,
)
    ensures
        !token_hit(
            m.remove(key_model(QueryKind::TokenInfo, chain, address)).remove(
                key_model(QueryKind::Analytics, chain, address),
            ),
            key_model(QueryKind::TokenInfo, chain, address),
        ),
        !analytics_hit(
            m.remove(key_model(QueryKind::TokenInfo, chain, address)).remove(
                key_model(QueryKind::Analytics, chain, address),
            ),
            key_model(QueryKind::Analytics, chain, address),
        ),
{
}

/// Corrupt-entry law: an entry that fails to decode is a miss, never an
/// error — resolution then behaves exactly as if the key were absent.
pub proof fn lemma_corrupt_token_entry_is_miss(m: Map<Seq<char>, Seq<char>>, key: Seq<char>)
    requires
        m.contains_key(key),
        decode_token_model(m[key]) is None,
    ensures
        !token_hit(m, key),
{
}

} // verus!
