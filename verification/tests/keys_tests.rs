use token_analytics_api::keys::{cache_key, QueryKind};
use token_analytics_api::models::Chain;

#[test]
fn key_format_is_namespace_chain_address() {
    assert_eq!(cache_key(QueryKind::TokenInfo, Chain::Ethereum, "0xA"), "token:ethereum:0xA");
    assert_eq!(cache_key(QueryKind::Analytics, Chain::Solana, "So1"), "analytics:solana:So1");
    assert_eq!(cache_key(QueryKind::TokenInfo, Chain::Bsc, "0xB"), "token:bsc:0xB");
    assert_eq!(cache_key(QueryKind::TokenInfo, Chain::Other, ""), "token:other:");
}

#[test]
fn identical_requests_give_identical_keys() {
    assert_eq!(
        cache_key(QueryKind::TokenInfo, Chain::Ethereum, "0xA"),
        cache_key(QueryKind::TokenInfo, Chain::Ethereum, "0xA"),
    );
}

#[test]
fn keys_differing_in_any_part_never_collide() {
    assert_ne!(
        cache_key(QueryKind::TokenInfo, Chain::Ethereum, "0xA"),
        cache_key(QueryKind::Analytics, Chain::Ethereum, "0xA"),
    );
    assert_ne!(
        cache_key(QueryKind::TokenInfo, Chain::Ethereum, "0xA"),
        cache_key(QueryKind::TokenInfo, Chain::Solana, "0xA"),
    );
    assert_ne!(
        cache_key(QueryKind::TokenInfo, Chain::Ethereum, "0xA"),
        cache_key(QueryKind::TokenInfo, Chain::Ethereum, "0xB"),
    );
}

#[test]
fn chain_names_are_lowercase() {
    assert_eq!(Chain::Ethereum.name(), "ethereum");
    assert_eq!(Chain::Solana.name(), "solana");
    assert_eq!(Chain::Bsc.name(), "bsc");
    assert_eq!(Chain::Other.name(), "other");
}

#[test]
fn only_ethereum_and_solana_are_supported() {
    assert!(Chain::Ethereum.is_supported());
    assert!(Chain::Solana.is_supported());
    assert!(!Chain::Bsc.is_supported());
    assert!(!Chain::Other.is_supported());
}
