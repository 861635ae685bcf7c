//! Cache-key naming: `{namespace}:{chain}:{address}`.
//!
//! The key is deterministic in its three parts, and two requests that
//! differ in any part never collide; the address passes through unmodified.

use vstd::prelude::*;
use vstd::string::StringExecFns;
use crate::models::Chain;
use crate::hex::push_char;

verus! {

/// The two query kinds the cache serves, each with its own namespace tag.
#[derive(Clone, Copy, Debug, PartialEq, Eq, Structural)]
pub enum QueryKind {
    TokenInfo,
    Analytics,
}

impl QueryKind {
    /// The namespace tag that opens the cache key.
    pub open spec fn tag_chars(self) -> Seq<char> {
        match self {
            QueryKind::TokenInfo => seq!['t', 'o', 'k', 'e', 'n'],
            QueryKind::Analytics => seq!['a', 'n', 'a', 'l', 'y', 't', 'i', 'c', 's'],
        }
    }
}

/// The cache key for a query: namespace, chain name and address joined
/// with `:`.
pub open spec fn key_model(kind: QueryKind, chain: Chain, address: Seq<char>) -> Seq<char> {
    kind.tag_chars() + seq![':'] + chain.name_chars() + seq![':'] + address
}

/// Builds the cache key for a query. The key is a function of kind, chain
/// and address alone, so two identical requests always name the same
/// entry.
pub fn cache_key(kind: QueryKind, chain: Chain, address: &str) -> (r: String)
    ensures
        r@ == key_model(kind, chain, address@),
{
    let mut out = match kind {
        QueryKind::TokenInfo => {
            let s = String::from_str("token");
            proof {
                reveal_strlit("token");
                assert(s@ =~= kind.tag_chars());
            }
            s
        },
        QueryKind::Analytics => {
            let s = String::from_str("analytics");
            proof {
                reveal_strlit("analytics");
                assert(s@ =~= kind.tag_chars());
            }
            s
        },
    };
    push_char(&mut out, ':');
    let chain_name = chain.name();
    out.append(chain_name.as_str());
    push_char(&mut out, ':');
    out.append(address);
    proof {
        assert(out@ =~= key_model(kind, chain, address@));
    }
    out
}

/// No two distinct (kind, chain, address) requests collide: the token and
/// analytics namespaces differ, chains differ, and the address is
/// recovered unchanged.
pub proof fn lemma_cache_key_injective(
    k1: QueryKind,
    c1: Chain,
    a1: Seq<char>,
    k2: QueryKind,
    c2: Chain,
    a2: Seq<char>,
)
    requires
        key_model(k1, c1, a1) == key_model(k2, c2, a2),
    ensures
        k1 == k2,
        c1 == c2,
        a1 == a2,
{
    let x = key_model(k1, c1, a1);
    let y = key_model(k2, c2, a2);
    assert(x[0] == k1.tag_chars()[0]);
    assert(y[0] == k2.tag_chars()[0]);
    assert(k1 == k2);
    let tlen = k1.tag_chars().len() as int;
    assert(x[tlen + 1] == c1.name_chars()[0]);
    assert(y[tlen + 1] == c2.name_chars()[0]);
    assert(c1 == c2);
    let plen = tlen + 1 + c1.name_chars().len() as int + 1;
    assert(x.len() == plen + a1.len());
    assert(y.len() == plen + a2.len());
    assert(a1.len() == a2.len());
    assert forall|i: int| 0 <= i < a1.len() implies a1[i] == a2[i] by {
        assert(x[plen + i] == a1[i]);
        assert(y[plen + i] == a2[i]);
    }
    assert(a1 =~= a2);
}

} // verus!
