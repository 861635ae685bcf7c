//! Domain entities resolved and cached by this crate.
//!
//! All entities are immutable value objects. Optional market figures
//! (prices, volumes, reserves) are carried as the IEEE-754 bit patterns of
//! the 64-bit values reported by the upstream providers, so that caching
//! round-trips them exactly; the host program converts them to and from its
//! own floating-point representation at the boundary.

use vstd::prelude::*;
use vstd::string::StringExecFns;

verus! {

/// The blockchains a query may name. Only Ethereum and Solana have data
/// providers; the others resolve to a well-defined empty entity.
#[derive(Clone, Copy, Debug, PartialEq, Eq, Structural)]
pub enum Chain {
    Ethereum,
    Solana,
    Bsc,
    Other,
}

impl Chain {
    /// The lowercase chain identifier used in cache keys and in the
    /// `chain` field of resolved entities.
    pub open spec fn name_chars(self) -> Seq<char> {
        match self {
            Chain::Ethereum => seq!['e', 't', 'h', 'e', 'r', 'e', 'u', 'm'],
            Chain::Solana => seq!['s', 'o', 'l', 'a', 'n', 'a'],
            Chain::Bsc => seq!['b', 's', 'c'],
            Chain::Other => seq!['o', 't', 'h', 'e', 'r'],
        }
    }

    /// Whether a data provider exists for this chain.
    pub open spec fn spec_supported(self) -> bool {
        self == Chain::Ethereum || self == Chain::Solana
    }

    /// The lowercase name of the chain.
    pub fn name(&self) -> (r: String)
        ensures
            r@ == self.name_chars(),
    {
        match self {
            Chain::Ethereum => {
                let s = String::from_str("ethereum");
                proof {
                    reveal_strlit("ethereum");
                    assert(s@ =~= self.name_chars());
                }
                s
            },
            Chain::Solana => {
                let s = String::from_str("solana");
                proof {
                    reveal_strlit("solana");
                    assert(s@ =~= self.name_chars());
                }
                s
            },
            Chain::Bsc => {
                let s = String::from_str("bsc");
                proof {
                    reveal_strlit("bsc");
                    assert(s@ =~= self.name_chars());
                }
                s
            },
            Chain::Other => {
                let s = String::from_str("other");
                proof {
                    reveal_strlit("other");
                    assert(s@ =~= self.name_chars());
                }
                s
            },
        }
    }

    /// Whether a data provider exists for this chain.
    pub fn is_supported(&self) -> (r: bool)
        ensures
            r == self.spec_supported(),
    {
        match self {
            Chain::Ethereum => true,
            Chain::Solana => true,
            Chain::Bsc => false,
            Chain::Other => false,
        }
    }
}

/// Mathematical model of a [`Token`].
#[verifier::ext_equal]
pub struct TokenModel {
    pub address: Seq<char>,
    pub chain: Seq<char>,
    pub name: Option<Seq<char>>,
    pub symbol: Option<Seq<char>>,
    pub decimals: Option<u8>,
    pub total_supply: Option<Seq<char>>,
    pub price_usd: Option<u64>,
    pub price_change_24h: Option<u64>,
    pub volume_24h: Option<u64>,
    pub market_cap: Option<u64>,
}

/// Information about a token on one chain. `address` and `chain` identify
/// the token; every other field is optional so that entries written by an
/// older schema still decode.
#[derive(Clone, Debug, PartialEq)]
pub struct Token {
    pub address: String,
    pub chain: String,
    pub name: Option<String>,
    pub symbol: Option<String>,
    pub decimals: Option<u8>,
    pub total_supply: Option<String>,
    pub price_usd: Option<u64>,
    pub price_change_24h: Option<u64>,
    pub volume_24h: Option<u64>,
    pub market_cap: Option<u64>,
}

impl View for Token {
    type V = TokenModel;

    open spec fn view(&self) -> TokenModel {
        TokenModel {
            address: self.address@,
            chain: self.chain@,
            name: self.name.deep_view(),
            symbol: self.symbol.deep_view(),
            decimals: self.decimals,
            total_supply: self.total_supply.deep_view(),
            price_usd: self.price_usd,
            price_change_24h: self.price_change_24h,
            volume_24h: self.volume_24h,
            market_cap: self.market_cap,
        }
    }
}

impl DeepView for Token {
    type V = TokenModel;

    open spec fn deep_view(&self) -> TokenModel {
        self.view()
    }
}

/// Mathematical model of a [`Holder`].
#[verifier::ext_equal]
pub struct HolderModel {
    pub address: Seq<char>,
    pub balance: Seq<char>,
    pub value_usd: Option<u64>,
    pub share: Option<u64>,
}

/// One holder of a token, with its balance as a decimal string.
#[derive(Clone, Debug, PartialEq)]
pub struct Holder {
    pub address: String,
    pub balance: String,
    pub value_usd: Option<u64>,
    pub share: Option<u64>,
}

impl View for Holder {
    type V = HolderModel;

    open spec fn view(&self) -> HolderModel {
        HolderModel {
            address: self.address@,
            balance: self.balance@,
            value_usd: self.value_usd,
            share: self.share,
        }
    }
}

impl DeepView for Holder {
    type V = HolderModel;

    open spec fn deep_view(&self) -> HolderModel {
        self.view()
    }
}

/// Mathematical model of a [`Transfer`].
#[verifier::ext_equal]
pub struct TransferModel {
    pub tx_hash: Seq<char>,
    pub from: Seq<char>,
    pub to: Seq<char>,
    pub amount: Seq<char>,
    pub timestamp: i64,
    pub block_number: u64,
}

/// One transfer of a token, identified by its transaction hash.
#[derive(Clone, Debug, PartialEq)]
pub struct Transfer {
    pub tx_hash: String,
    pub from: String,
    pub to: String,
    pub amount: String,
    pub timestamp: i64,
    pub block_number: u64,
}

impl View for Transfer {
    type V = TransferModel;

    open spec fn view(&self) -> TransferModel {
        TransferModel {
            tx_hash: self.tx_hash@,
            from: self.from@,
            to: self.to@,
            amount: self.amount@,
            timestamp: self.timestamp,
            block_number: self.block_number,
        }
    }
}

impl DeepView for Transfer {
    type V = TransferModel;

    open spec fn deep_view(&self) -> TransferModel {
        self.view()
    }
}

/// Mathematical model of a [`LiquidityPool`].
#[verifier::ext_equal]
pub struct LiquidityPoolModel {
    pub address: Seq<char>,
    pub exchange: Seq<char>,
    pub token0: Seq<char>,
    pub token1: Seq<char>,
    pub reserve0: Seq<char>,
    pub reserve1: Seq<char>,
    pub reserve_usd: u64,
    pub volume_24h: u64,
}

/// One liquidity pool holding the token on some exchange.
#[derive(Clone, Debug, PartialEq)]
pub struct LiquidityPool {
    pub address: String,
    pub exchange: String,
    pub token0: String,
    pub token1: String,
    pub reserve0: String,
    pub reserve1: String,
    pub reserve_usd: u64,
    pub volume_24h: u64,
}

impl View for LiquidityPool {
    type V = LiquidityPoolModel;

    open spec fn view(&self) -> LiquidityPoolModel {
        LiquidityPoolModel {
            address: self.address@,
            exchange: self.exchange@,
            token0: self.token0@,
            token1: self.token1@,
            reserve0: self.reserve0@,
            reserve1: self.reserve1@,
            reserve_usd: self.reserve_usd,
            volume_24h: self.volume_24h,
        }
    }
}

impl DeepView for LiquidityPool {
    type V = LiquidityPoolModel;

    open spec fn deep_view(&self) -> LiquidityPoolModel {
        self.view()
    }
}

/// Mathematical model of a [`TokenAnalytics`].
#[verifier::ext_equal]
pub struct TokenAnalyticsModel {
    pub token: TokenModel,
    pub holders: Seq<HolderModel>,
    pub transfers: Seq<TransferModel>,
    pub liquidity_pools: Seq<LiquidityPoolModel>,
}

/// A token together with snapshots of its holders, transfers and liquidity
/// pools. The sequences are snapshots with no enforced maximum size.
#[derive(Clone, Debug, PartialEq)]
pub struct TokenAnalytics {
    pub token: Token,
    pub holders: Vec<Holder>,
    pub transfers: Vec<Transfer>,
    pub liquidity_pools: Vec<LiquidityPool>,
}

impl View for TokenAnalytics {
    type V = TokenAnalyticsModel;

    open spec fn view(&self) -> TokenAnalyticsModel {
        TokenAnalyticsModel {
            token: self.token@,
            holders: self.holders.deep_view(),
            transfers: self.transfers.deep_view(),
            liquidity_pools: self.liquidity_pools.deep_view(),
        }
    }
}

impl DeepView for TokenAnalytics {
    type V = TokenAnalyticsModel;

    open spec fn deep_view(&self) -> TokenAnalyticsModel {
        self.view()
    }
}

/// The entity an unsupported chain resolves to: address and chain name set,
/// every optional field unset.
pub open spec fn default_token_model(chain: Chain, address: Seq<char>) -> TokenModel {
    TokenModel {
        address: address,
        chain: chain.name_chars(),
        name: None,
        symbol: None,
        decimals: None,
        total_supply: None,
        price_usd: None,
        price_change_24h: None,
        volume_24h: None,
        market_cap: None,
    }
}

/// The analytics an unsupported chain resolves to: the default token and
/// empty snapshots.
pub open spec fn default_analytics_model(chain: Chain, address: Seq<char>) -> TokenAnalyticsModel {
    TokenAnalyticsModel {
        token: default_token_model(chain, address),
        holders: Seq::empty(),
        transfers: Seq::empty(),
        liquidity_pools: Seq::empty(),
    }
}

/// Builds the default token for a chain without a data provider.
pub fn default_token(chain: Chain, address: &str) -> (r: Token)
    ensures
        r@ == default_token_model(chain, address@),
{
    let r = Token {
        address: String::from_str(address),
        chain: chain.name(),
        name: None,
        symbol: None,
        decimals: None,
        total_supply: None,
        price_usd: None,
        price_change_24h: None,
        volume_24h: None,
        market_cap: None,
    };
    proof {
        assert(r@ =~= default_token_model(chain, address@));
    }
    r
}

/// Builds the default analytics for a chain without a data provider.
pub fn default_analytics(chain: Chain, address: &str) -> (r: TokenAnalytics)
    ensures
        r@ == default_analytics_model(chain, address@),
{
    let r = TokenAnalytics {
        token: default_token(chain, address),
        holders: Vec::new(),
        transfers: Vec::new(),
        liquidity_pools: Vec::new(),
    };
    proof {
        assert(r.holders.deep_view() =~= Seq::<HolderModel>::empty());
        assert(r.transfers.deep_view() =~= Seq::<TransferModel>::empty());
        assert(r.liquidity_pools.deep_view() =~= Seq::<LiquidityPoolModel>::empty());
        assert(r@ =~= default_analytics_model(chain, address@));
    }
    r
}

} // verus!
