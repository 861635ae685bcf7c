use token_analytics_api::codec::{decode_token, encode_token};
use token_analytics_api::entities::{decode_analytics, encode_analytics};
use token_analytics_api::models::{Holder, LiquidityPool, Token, TokenAnalytics, Transfer};

fn full_token() -> Token {
    Token {
        address: "0x1234abcd".to_string(),
        chain: "ethereum".to_string(),
        name: Some("Wrapped Ether".to_string()),
        symbol: Some("WETH".to_string()),
        decimals: Some(18),
        total_supply: Some("120000000000000000000".to_string()),
        price_usd: Some(f64::to_bits(1825.44)),
        price_change_24h: Some(f64::to_bits(-2.5)),
        volume_24h: Some(f64::to_bits(1.0e9)),
        market_cap: Some(f64::to_bits(219000000000.0)),
    }
}

fn bare_token() -> Token {
    Token {
        address: "A".to_string(),
        chain: "b".to_string(),
        name: None,
        symbol: None,
        decimals: None,
        total_supply: None,
        price_usd: None,
        price_change_24h: None,
        volume_24h: None,
        market_cap: None,
    }
}

#[test]
fn token_round_trips_with_all_fields() {
    let t = full_token();
    let encoded = encode_token(&t);
    assert_eq!(decode_token(&encoded), Some(t));
}

#[test]
fn token_round_trips_with_no_optional_fields() {
    let t = bare_token();
    let encoded = encode_token(&t);
    assert_eq!(decode_token(&encoded), Some(t));
}

#[test]
fn token_round_trips_with_unicode_strings() {
    let mut t = full_token();
    t.name = Some("Ünïcodé tökén \u{1F600}".to_string());
    t.address = "addr:with:colons".to_string();
    let encoded = encode_token(&t);
    assert_eq!(decode_token(&encoded), Some(t));
}

#[test]
fn minimal_token_has_exact_encoding() {
    let t = bare_token();
    let expected = "0000000000000001A0000000000000001bnnnnnnnn";
    assert_eq!(encode_token(&t), expected);
}

#[test]
fn decimals_and_price_fields_have_exact_encoding() {
    let mut t = bare_token();
    t.decimals = Some(18);
    t.price_usd = Some(f64::to_bits(1.0));
    let expected = "0000000000000001A0000000000000001bnns12ns3ff0000000000000nnn";
    assert_eq!(encode_token(&t), expected);
}

#[test]
fn corrupt_payloads_decode_to_none() {
    assert_eq!(decode_token(""), None);
    assert_eq!(decode_token("not a cache entry"), None);
    assert_eq!(decode_token("zzzzzzzzzzzzzzzz"), None);
    // a length field pointing past the end of the payload
    assert_eq!(decode_token("0000000000000099A"), None);
}

#[test]
fn trailing_garbage_is_rejected() {
    let mut encoded = encode_token(&bare_token());
    encoded.push('x');
    assert_eq!(decode_token(&encoded), None);
}

#[test]
fn older_schema_entry_reads_optional_fields_as_absent() {
    // only address and chain, as an entry written before any optional
    // field existed
    let entry = "00000000000000030xA0000000000000003bsc";
    let decoded = decode_token(entry).expect("older entry must decode");
    assert_eq!(decoded.address, "0xA");
    assert_eq!(decoded.chain, "bsc");
    assert_eq!(decoded.name, None);
    assert_eq!(decoded.symbol, None);
    assert_eq!(decoded.decimals, None);
    assert_eq!(decoded.total_supply, None);
    assert_eq!(decoded.price_usd, None);
}

fn sample_analytics() -> TokenAnalytics {
    TokenAnalytics {
        token: full_token(),
        holders: vec![
            Holder {
                address: "0xholder1".to_string(),
                balance: "1000".to_string(),
                value_usd: Some(f64::to_bits(1000.0)),
                share: Some(f64::to_bits(10.0)),
            },
            Holder {
                address: "0xholder2".to_string(),
                balance: "250".to_string(),
                value_usd: None,
                share: None,
            },
        ],
        transfers: vec![Transfer {
            tx_hash: "0xdeadbeef".to_string(),
            from: "0xfrom".to_string(),
            to: "0xto".to_string(),
            amount: "100".to_string(),
            timestamp: 1234567890,
            block_number: 12345678,
        }],
        liquidity_pools: vec![LiquidityPool {
            address: "0xpool".to_string(),
            exchange: "uniswap".to_string(),
            token0: "0xa".to_string(),
            token1: "0xb".to_string(),
            reserve0: "500".to_string(),
            reserve1: "700".to_string(),
            reserve_usd: f64::to_bits(1200.5),
            volume_24h: f64::to_bits(300.25),
        }],
    }
}

#[test]
fn analytics_round_trips() {
    let a = sample_analytics();
    let encoded = encode_analytics(&a);
    assert_eq!(decode_analytics(&encoded), Some(a));
}

#[test]
fn analytics_round_trips_with_empty_sections() {
    let a = TokenAnalytics {
        token: bare_token(),
        holders: Vec::new(),
        transfers: Vec::new(),
        liquidity_pools: Vec::new(),
    };
    let encoded = encode_analytics(&a);
    assert_eq!(decode_analytics(&encoded), Some(a));
}

#[test]
fn analytics_round_trips_with_negative_timestamp() {
    let mut a = sample_analytics();
    a.transfers[0].timestamp = -62135596800;
    let encoded = encode_analytics(&a);
    assert_eq!(decode_analytics(&encoded), Some(a));
}

#[test]
fn analytics_rejects_corrupt_payloads() {
    assert_eq!(decode_analytics(""), None);
    let token_only = encode_token(&bare_token());
    // a token payload alone is not an analytics payload
    assert_eq!(decode_analytics(&token_only), None);
}
