//! Cache codec: converts domain entities to and from the store's string
//! representation.
//!
//! The format is self-describing structured text: every field is written in
//! a fixed order, strings as a 16-digit hex character count followed by the
//! characters themselves, numbers as fixed-width hex, and optional fields
//! behind a one-character presence tag (`s` present, `n` absent). A decoder
//! that knows more trailing optional fields than the entry holds reads the
//! missing ones as absent, so adding optional fields does not break entries
//! written by an older schema. Decoding never panics; a malformed payload
//! decodes to `None`.

use vstd::prelude::*;
use vstd::string::StringExecFns;
use crate::hex::{
    all_hex, enc_hex, encode_hex, hex_value_of, lemma_dec_of_enc_hex, lemma_pow16_sixteen,
    lemma_pow16_two, parse_hex, pow16, push_char,
};
use crate::models::{Token, TokenModel};

verus! {

/// The largest character count a string field can carry.
pub open spec fn str_wf(t: Seq<char>) -> bool {
    t.len() < 0x10000000000000000
}

pub open spec fn opt_str_wf(o: Option<Seq<char>>) -> bool {
    match o {
        Some(t) => str_wf(t),
        None => true,
    }
}

/// A token model whose string fields all fit the codec's length fields.
/// Every token built by executable code satisfies this.
pub open spec fn token_model_wf(m: TokenModel) -> bool {
    &&& str_wf(m.address)
    &&& str_wf(m.chain)
    &&& opt_str_wf(m.name)
    &&& opt_str_wf(m.symbol)
    &&& opt_str_wf(m.total_supply)
}

// ---------------------------------------------------------------------
// string fields
// ---------------------------------------------------------------------
/// A string field: its character count, then its characters.
pub open spec fn enc_string(t: Seq<char>) -> Seq<char> {
    enc_hex(t.len(), 16) + t
}

/// Reads a string field from the front of `s`, returning it and the number
/// of characters consumed.
pub open spec fn dec_string(s: Seq<char>) -> Option<(Seq<char>, int)> {
    if 16 <= s.len() && all_hex(s.take(16)) {
        let len = hex_value_of(s.take(16)) as int;
        if 16 + len <= s.len() {
            Some((s.subrange(16, 16 + len), 16 + len))
        } else {
            None
        }
    } else {
        None
    }
}

pub proof fn lemma_dec_enc_string(t: Seq<char>, rest: Seq<char>)
    requires
        str_wf(t),
    ensures
        enc_string(t).len() == 16 + t.len(),
        dec_string(enc_string(t) + rest) == Some((t, 16 + t.len() as int)),
{
    let w = enc_string(t) + rest;
    lemma_pow16_sixteen();
    lemma_dec_of_enc_hex(t.len() as u64, 16);
    assert(w.take(16) =~= enc_hex(t.len(), 16));
    assert(w.subrange(16, 16 + t.len() as int) =~= t);
}

// ---------------------------------------------------------------------
// optional fields
// ---------------------------------------------------------------------
/// An optional string field behind a presence tag.
pub open spec fn enc_opt_string(o: Option<Seq<char>>) -> Seq<char> {
    match o {
        None => seq!['n'],
        Some(t) => seq!['s'] + enc_string(t),
    }
}

pub open spec fn dec_opt_string(s: Seq<char>) -> Option<(Option<Seq<char>>, int)> {
    if s.len() == 0 {
        None
    } else if s[0] == 'n' {
        Some((None, 1))
    } else if s[0] == 's' {
        match dec_string(s.skip(1)) {
            Some((t, c)) => Some((Some(t), 1 + c)),
            None => None,
        }
    } else {
        None
    }
}

/// An optional string field that may also be missing entirely because the
/// entry was written by an older schema.
pub open spec fn dec_opt_string_field(s: Seq<char>) -> Option<(Option<Seq<char>>, int)> {
    if s.len() == 0 {
        Some((None, 0))
    } else {
        dec_opt_string(s)
    }
}

pub proof fn lemma_dec_enc_opt_string(o: Option<Seq<char>>, rest: Seq<char>)
    requires
        opt_str_wf(o),
    ensures
        dec_opt_string(enc_opt_string(o) + rest) == Some((o, enc_opt_string(o).len() as int)),
        dec_opt_string_field(enc_opt_string(o) + rest) == Some((
            o,
            enc_opt_string(o).len() as int,
        )),
{
    let w = enc_opt_string(o) + rest;
    match o {
        None => {
            assert(w[0] == 'n');
        },
        Some(t) => {
            assert(w[0] == 's');
            assert(w.skip(1) =~= enc_string(t) + rest);
            lemma_dec_enc_string(t, rest);
        },
    }
}

/// An optional number field behind a presence tag, `k` hex digits wide.
pub open spec fn enc_opt_hex(o: Option<u64>, k: nat) -> Seq<char> {
    match o {
        None => seq!['n'],
        Some(v) => seq!['s'] + enc_hex(v as nat, k),
    }
}

pub open spec fn dec_opt_hex(s: Seq<char>, k: nat) -> Option<(Option<u64>, int)> {
    if s.len() == 0 {
        None
    } else if s[0] == 'n' {
        Some((None, 1))
    } else if s[0] == 's' {
        if 1 + k <= s.len() && all_hex(s.subrange(1, 1 + k as int)) {
            Some((Some(hex_value_of(s.subrange(1, 1 + k as int)) as u64), 1 + k as int))
        } else {
            None
        }
    } else {
        None
    }
}

pub open spec fn dec_opt_hex_field(s: Seq<char>, k: nat) -> Option<(Option<u64>, int)> {
    if s.len() == 0 {
        Some((None, 0))
    } else {
        dec_opt_hex(s, k)
    }
}

pub proof fn lemma_dec_enc_opt_hex(o: Option<u64>, k: nat, rest: Seq<char>)
    requires
        k <= 16,
        match o {
            Some(v) => (v as nat) < pow16(k),
            None => true,
        },
    ensures
        dec_opt_hex(enc_opt_hex(o, k) + rest, k) == Some((o, enc_opt_hex(o, k).len() as int)),
        dec_opt_hex_field(enc_opt_hex(o, k) + rest, k) == Some((
            o,
            enc_opt_hex(o, k).len() as int,
        )),
{
    let w = enc_opt_hex(o, k) + rest;
    match o {
        None => {
            assert(w[0] == 'n');
        },
        Some(v) => {
            assert(w[0] == 's');
            lemma_dec_of_enc_hex(v, k);
            assert(w.subrange(1, 1 + k as int) =~= enc_hex(v as nat, k));
        },
    }
}

// ---------------------------------------------------------------------
// executable field parsers
// ---------------------------------------------------------------------
/// Reads a string field at `pos`.
pub fn parse_string(s: &str, pos: usize) -> (r: Option<(String, usize)>)
    requires
        pos <= s@.len(),
    ensures
        match r {
            Some((v, p)) => pos < p <= s@.len() && dec_string(s@.skip(pos as int)) == Some(
                (v@, p - pos as int),
            ),
            None => dec_string(s@.skip(pos as int)) is None,
        },
{
    let suffix = Ghost(s@.skip(pos as int));
    match parse_hex(s, pos, 16) {
        None => {
            proof {
                if 16 <= suffix@.len() {
                    assert(suffix@.take(16) =~= s@.subrange(pos as int, pos + 16));
                }
            }
            None
        },
        Some((len64, p2)) => {
            proof {
                assert(suffix@.take(16) =~= s@.subrange(pos as int, pos + 16));
            }
            let slen: usize = s.unicode_len();
            let avail: usize = slen - p2;
            if len64 > avail as u64 {
                None
            } else {
                let l: usize = len64 as usize;
                let sub = s.substring_char(p2, p2 + l);
                let v = String::from_str(sub);
                proof {
                    assert(suffix@.subrange(16, 16 + len64 as int) =~= s@.subrange(
                        p2 as int,
                        p2 + l,
                    ));
                }
                Some((v, p2 + l))
            }
        },
    }
}

/// Reads an optional string field at `pos`; a position at the end of the
/// input reads as an absent field written by an older schema.
pub fn parse_opt_string_field(s: &str, pos: usize) -> (r: Option<(Option<String>, usize)>)
    requires
        pos <= s@.len(),
    ensures
        match r {
            Some((v, p)) => pos <= p <= s@.len() && dec_opt_string_field(s@.skip(pos as int))
                == Some((v.deep_view(), p - pos as int)),
            None => dec_opt_string_field(s@.skip(pos as int)) is None,
        },
{
    let suffix = Ghost(s@.skip(pos as int));
    let slen: usize = s.unicode_len();
    if pos == slen {
        proof {
            assert(suffix@.len() == 0);
        }
        Some((None, pos))
    } else {
        let c = s.get_char(pos);
        proof {
            assert(suffix@[0] == c);
        }
        if c == 'n' {
            Some((None, pos + 1))
        } else if c == 's' {
            proof {
                assert(suffix@.skip(1) =~= s@.skip(pos + 1));
            }
            match parse_string(s, pos + 1) {
                None => None,
                Some((v, p)) => Some((Some(v), p)),
            }
        } else {
            None
        }
    }
}

/// Reads an optional `k`-digit number field at `pos`; a position at the end
/// of the input reads as an absent field.
pub fn parse_opt_hex_field(s: &str, pos: usize, k: usize) -> (r: Option<(Option<u64>, usize)>)
    requires
        pos <= s@.len(),
        k <= 16,
    ensures
        match r {
            Some((v, p)) => pos <= p <= s@.len() && dec_opt_hex_field(s@.skip(pos as int), k as nat)
                == Some((v, p - pos as int)),
            None => dec_opt_hex_field(s@.skip(pos as int), k as nat) is None,
        },
{
    let suffix = Ghost(s@.skip(pos as int));
    let slen: usize = s.unicode_len();
    if pos == slen {
        proof {
            assert(suffix@.len() == 0);
        }
        Some((None, pos))
    } else {
        let c = s.get_char(pos);
        proof {
            assert(suffix@[0] == c);
        }
        if c == 'n' {
            Some((None, pos + 1))
        } else if c == 's' {
            match parse_hex(s, pos + 1, k) {
                None => {
                    proof {
                        if 1 + k <= suffix@.len() && all_hex(suffix@.subrange(1, 1 + k as int)) {
                            assert(suffix@.subrange(1, 1 + k as int) =~= s@.subrange(
                                pos + 1,
                                pos + 1 + k,
                            ));
                        }
                    }
                    None
                },
                Some((v, p)) => {
                    proof {
                        assert(suffix@.subrange(1, 1 + k as int) =~= s@.subrange(
                            pos + 1,
                            pos + 1 + k,
                        ));
                    }
                    Some((Some(v), p))
                },
            }
        } else {
            None
        }
    }
}

// ---------------------------------------------------------------------
// executable field encoders
// ---------------------------------------------------------------------
/// Appends a string field to `out`.
pub fn encode_string(out: &mut String, t: &str)
    ensures
        final(out)@ == old(out)@ + enc_string(t@),
        str_wf(t@),
{
    let l: usize = t.unicode_len();
    encode_hex(out, l as u64, 16);
    out.append(t);
    proof {
        lemma_pow16_sixteen();
        assert(out@ =~= old(out)@ + enc_string(t@));
    }
}

/// Appends an optional string field to `out`.
pub fn encode_opt_string(out: &mut String, t: &Option<String>)
    ensures
        final(out)@ == old(out)@ + enc_opt_string(t.deep_view()),
        opt_str_wf(t.deep_view()),
{
    match t {
        None => {
            push_char(out, 'n');
            proof {
                assert(out@ =~= old(out)@ + enc_opt_string(t.deep_view()));
            }
        },
        Some(v) => {
            push_char(out, 's');
            encode_string(out, v.as_str());
            proof {
                assert(out@ =~= old(out)@ + enc_opt_string(t.deep_view()));
            }
        },
    }
}

/// Appends an optional `k`-digit number field to `out`.
pub fn encode_opt_hex(out: &mut String, v: &Option<u64>, k: usize)
    ensures
        final(out)@ == old(out)@ + enc_opt_hex(*v, k as nat),
{
    match v {
        None => {
            push_char(out, 'n');
            proof {
                assert(out@ =~= old(out)@ + enc_opt_hex(*v, k as nat));
            }
        },
        Some(n) => {
            push_char(out, 's');
            encode_hex(out, *n, k);
            proof {
                assert(out@ =~= old(out)@ + enc_opt_hex(*v, k as nat));
            }
        },
    }
}

// ---------------------------------------------------------------------
// tokens
// ---------------------------------------------------------------------
pub open spec fn opt_u8_as_u64(o: Option<u8>) -> Option<u64> {
    match o {
        Some(d) => Some(d as u64),
        None => None,
    }
}

pub open spec fn opt_u64_as_u8(o: Option<u64>) -> Option<u8> {
    match o {
        Some(d) => Some(d as u8),
        None => None,
    }
}

/// The descriptive optional fields of a token: name, symbol, decimals,
/// total supply.
pub open spec fn enc_meta(m: TokenModel) -> Seq<char> {
    enc_opt_string(m.name) + enc_opt_string(m.symbol) + enc_opt_hex(opt_u8_as_u64(m.decimals), 2)
        + enc_opt_string(m.total_supply)
}

pub open spec fn dec_meta(s: Seq<char>) -> Option<
    ((Option<Seq<char>>, Option<Seq<char>>, Option<u64>, Option<Seq<char>>), int),
> {
    match dec_opt_string_field(s) {
        None => None,
        Some((name, c0)) => match dec_opt_string_field(s.skip(c0)) {
            None => None,
            Some((symbol, c1)) => match dec_opt_hex_field(s.skip(c0 + c1), 2) {
                None => None,
                Some((decimals, c2)) => match dec_opt_string_field(s.skip(c0 + c1 + c2)) {
                    None => None,
                    Some((total_supply, c3)) => Some(
                        ((name, symbol, decimals, total_supply), c0 + c1 + c2 + c3),
                    ),
                },
            },
        },
    }
}

/// The market figures of a token: price, 24h change, 24h volume, market
/// cap, each the bit pattern of the provider's 64-bit value.
pub open spec fn enc_prices(m: TokenModel) -> Seq<char> {
    enc_opt_hex(m.price_usd, 16) + enc_opt_hex(m.price_change_24h, 16) + enc_opt_hex(
        m.volume_24h,
        16,
    ) + enc_opt_hex(m.market_cap, 16)
}

pub open spec fn dec_prices(s: Seq<char>) -> Option<
    ((Option<u64>, Option<u64>, Option<u64>, Option<u64>), int),
> {
    match dec_opt_hex_field(s, 16) {
        None => None,
        Some((price_usd, c0)) => match dec_opt_hex_field(s.skip(c0), 16) {
            None => None,
            Some((price_change_24h, c1)) => match dec_opt_hex_field(s.skip(c0 + c1), 16) {
                None => None,
                Some((volume_24h, c2)) => match dec_opt_hex_field(s.skip(c0 + c1 + c2), 16) {
                    None => None,
                    Some((market_cap, c3)) => Some(
                        ((price_usd, price_change_24h, volume_24h, market_cap), c0 + c1 + c2 + c3),
                    ),
                },
            },
        },
    }
}

/// A token: address and chain, then its optional fields in a fixed order.
pub open spec fn enc_token(m: TokenModel) -> Seq<char> {
    enc_string(m.address) + enc_string(m.chain) + enc_meta(m) + enc_prices(m)
}

/// Reads a token from the front of `s`. Optional fields missing at the end
/// of the input read as absent.
pub open spec fn dec_token(s: Seq<char>) -> Option<(TokenModel, int)> {
    match dec_string(s) {
        None => None,
        Some((address, c0)) => match dec_string(s.skip(c0)) {
            None => None,
            Some((chain, c1)) => match dec_meta(s.skip(c0 + c1)) {
                None => None,
                Some(((name, symbol, decimals, total_supply), c2)) => match dec_prices(
                    s.skip(c0 + c1 + c2),
                ) {
                    None => None,
                    Some(((price_usd, price_change_24h, volume_24h, market_cap), c3)) => Some(
                        (
                            TokenModel {
                                address,
                                chain,
                                name,
                                symbol,
                                decimals: opt_u64_as_u8(decimals),
                                total_supply,
                                price_usd,
                                price_change_24h,
                                volume_24h,
                                market_cap,
                            },
                            c0 + c1 + c2 + c3,
                        ),
                    ),
                },
            },
        },
    }
}

/// A token payload decodes when nothing follows its last field.
pub open spec fn decode_token_model(s: Seq<char>) -> Option<TokenModel> {
    match dec_token(s) {
        Some((m, c)) => if c == s.len() {
            Some(m)
        } else {
            None
        },
        None => None,
    }
}

#[verifier::rlimit(100)]
#[verifier::spinoff_prover]
proof fn lemma_dec_enc_meta(m: TokenModel, rest: Seq<char>)
    requires
        token_model_wf(m),
    ensures
        dec_meta(enc_meta(m) + rest) == Some(
            ((m.name, m.symbol, opt_u8_as_u64(m.decimals), m.total_supply), enc_meta(m).len() as int),
        ),
{
    let e0 = enc_opt_string(m.name);
    let e1 = enc_opt_string(m.symbol);
    let e2 = enc_opt_hex(opt_u8_as_u64(m.decimals), 2);
    let e3 = enc_opt_string(m.total_supply);
    let r3 = e3 + rest;
    let r2 = e2 + r3;
    let r1 = e1 + r2;
    let r0 = e0 + r1;
    let w = enc_meta(m) + rest;
    assert(w =~= r0);
    lemma_pow16_two();
    lemma_dec_enc_opt_string(m.name, r1);
    lemma_dec_enc_opt_string(m.symbol, r2);
    lemma_dec_enc_opt_hex(opt_u8_as_u64(m.decimals), 2, r3);
    lemma_dec_enc_opt_string(m.total_supply, rest);
    let c0 = e0.len() as int;
    let c1 = e1.len() as int;
    let c2 = e2.len() as int;
    let c3 = e3.len() as int;
    assert(r0.skip(c0) =~= r1);
    assert(r0.skip(c0 + c1) =~= r1.skip(c1));
    assert(r1.skip(c1) =~= r2);
    assert(r0.skip(c0 + c1 + c2) =~= r2.skip(c2));
    assert(r2.skip(c2) =~= r3);
    assert(dec_meta(r0) is Some);
}

#[verifier::rlimit(100)]
#[verifier::spinoff_prover]
proof fn lemma_dec_enc_prices(m: TokenModel, rest: Seq<char>)
    ensures
        dec_prices(enc_prices(m) + rest) == Some(
            (
                (m.price_usd, m.price_change_24h, m.volume_24h, m.market_cap),
                enc_prices(m).len() as int,
            ),
        ),
{
    let e0 = enc_opt_hex(m.price_usd, 16);
    let e1 = enc_opt_hex(m.price_change_24h, 16);
    let e2 = enc_opt_hex(m.volume_24h, 16);
    let e3 = enc_opt_hex(m.market_cap, 16);
    let r3 = e3 + rest;
    let r2 = e2 + r3;
    let r1 = e1 + r2;
    let r0 = e0 + r1;
    let w = enc_prices(m) + rest;
    assert(w =~= r0);
    lemma_pow16_sixteen();
    lemma_dec_enc_opt_hex(m.price_usd, 16, r1);
    lemma_dec_enc_opt_hex(m.price_change_24h, 16, r2);
    lemma_dec_enc_opt_hex(m.volume_24h, 16, r3);
    lemma_dec_enc_opt_hex(m.market_cap, 16, rest);
    let c0 = e0.len() as int;
    let c1 = e1.len() as int;
    let c2 = e2.len() as int;
    let c3 = e3.len() as int;
    assert(r0.skip(c0) =~= r1);
    assert(r0.skip(c0 + c1) =~= r1.skip(c1));
    assert(r1.skip(c1) =~= r2);
    assert(r0.skip(c0 + c1 + c2) =~= r2.skip(c2));
    assert(r2.skip(c2) =~= r3);
    assert(dec_prices(r0) is Some);
}

/// An encoded token reads back as itself, whatever follows it.
#[verifier::rlimit(100)]
#[verifier::spinoff_prover]
pub proof fn lemma_dec_enc_token(m: TokenModel, rest: Seq<char>)
    requires
        token_model_wf(m),
    ensures
        dec_token(enc_token(m) + rest) == Some((m, enc_token(m).len() as int)),
{
    let e0 = enc_string(m.address);
    let e1 = enc_string(m.chain);
    let e2 = enc_meta(m);
    let e3 = enc_prices(m);
    let r3 = e3 + rest;
    let r2 = e2 + r3;
    let r1 = e1 + r2;
    let r0 = e0 + r1;
    let w = enc_token(m) + rest;
    assert(w =~= r0);
    lemma_dec_enc_string(m.address, r1);
    lemma_dec_enc_string(m.chain, r2);
    lemma_dec_enc_meta(m, r3);
    lemma_dec_enc_prices(m, rest);
    let c0 = e0.len() as int;
    let c1 = e1.len() as int;
    let c2 = e2.len() as int;
    let c3 = e3.len() as int;
    assert(r0.skip(c0) =~= r1);
    assert(r0.skip(c0 + c1) =~= r1.skip(c1));
    assert(r1.skip(c1) =~= r2);
    assert(r0.skip(c0 + c1 + c2) =~= r2.skip(c2));
    assert(r2.skip(c2) =~= r3);
    assert(opt_u64_as_u8(opt_u8_as_u64(m.decimals)) == m.decimals);
    assert(dec_token(r0) is Some);
    assert((dec_token(r0)->0).0 =~= m);
    assert((dec_token(r0)->0).1 == c0 + c1 + c2 + c3);
}

/// Round-trip law: a well-formed token encoded and then decoded is itself.
pub proof fn lemma_token_round_trip(m: TokenModel)
    requires
        token_model_wf(m),
    ensures
        decode_token_model(enc_token(m)) == Some(m),
{
    lemma_dec_enc_token(m, Seq::empty());
    assert(enc_token(m) + Seq::<char>::empty() =~= enc_token(m));
}

/// Encodes a token for storage.
#[verifier::rlimit(100)]
pub fn encode_token(t: &Token) -> (r: String)
    ensures
        r@ == enc_token(t@),
        token_model_wf(t@),
{
    let mut meta = String::new();
    encode_opt_string(&mut meta, &t.name);
    encode_opt_string(&mut meta, &t.symbol);
    let dec64: Option<u64> = match t.decimals {
        Some(d) => Some(d as u64),
        None => None,
    };
    encode_opt_hex(&mut meta, &dec64, 2);
    encode_opt_string(&mut meta, &t.total_supply);
    proof {
        assert(dec64 == opt_u8_as_u64(t@.decimals));
        assert(meta@ =~= enc_meta(t@));
    }
    let mut prices = String::new();
    encode_opt_hex(&mut prices, &t.price_usd, 16);
    encode_opt_hex(&mut prices, &t.price_change_24h, 16);
    encode_opt_hex(&mut prices, &t.volume_24h, 16);
    encode_opt_hex(&mut prices, &t.market_cap, 16);
    proof {
        assert(prices@ =~= enc_prices(t@));
    }
    let mut out = String::new();
    encode_string(&mut out, t.address.as_str());
    encode_string(&mut out, t.chain.as_str());
    out.append(meta.as_str());
    out.append(prices.as_str());
    proof {
        assert(out@ =~= enc_token(t@));
    }
    out
}

/// Reads the descriptive optional fields of a token at `pos`.
#[verifier::rlimit(100)]
fn parse_meta(s: &str, pos: usize) -> (r: Option<
    ((Option<String>, Option<String>, Option<u8>, Option<String>), usize),
>)
    requires
        pos <= s@.len(),
    ensures
        match r {
            Some(((name, symbol, decimals, total_supply), p)) => pos <= p <= s@.len() && dec_meta(
                s@.skip(pos as int),
            ) == Some(
                (
                    (
                        name.deep_view(),
                        symbol.deep_view(),
                        opt_u8_as_u64(decimals),
                        total_supply.deep_view(),
                    ),
                    p - pos as int,
                ),
            ),
            None => dec_meta(s@.skip(pos as int)) is None,
        },
{
    let ghost s0 = s@.skip(pos as int);
    let (name, p1) = match parse_opt_string_field(s, pos) {
        None => {
            return None;
        },
        Some(x) => x,
    };
    proof {
        assert(s@.skip(p1 as int) =~= s0.skip(p1 - pos as int));
    }
    let (symbol, p2) = match parse_opt_string_field(s, p1) {
        None => {
            return None;
        },
        Some(x) => x,
    };
    proof {
        assert(s@.skip(p2 as int) =~= s0.skip(p2 - pos as int));
    }
    let (dec64, p3) = match parse_opt_hex_field(s, p2, 2) {
        None => {
            return None;
        },
        Some(x) => x,
    };
    proof {
        assert(s@.skip(p3 as int) =~= s0.skip(p3 - pos as int));
    }
    let decimals: Option<u8> = match dec64 {
        Some(v) => {
            proof {
                crate::hex::lemma_hex_value_bound(s@.skip(p2 as int).subrange(1, 3));
                lemma_pow16_two();
            }
            Some(v as u8)
        },
        None => None,
    };
    let (total_supply, p4) = match parse_opt_string_field(s, p3) {
        None => {
            return None;
        },
        Some(x) => x,
    };
    proof {
        assert(opt_u8_as_u64(decimals) == dec64);
    }
    Some(((name, symbol, decimals, total_supply), p4))
}

/// Reads the market figures of a token at `pos`.
#[verifier::rlimit(100)]
fn parse_prices(s: &str, pos: usize) -> (r: Option<
    ((Option<u64>, Option<u64>, Option<u64>, Option<u64>), usize),
>)
    requires
        pos <= s@.len(),
    ensures
        match r {
            Some((q, p)) => pos <= p <= s@.len() && dec_prices(s@.skip(pos as int)) == Some(
                (q, p - pos as int),
            ),
            None => dec_prices(s@.skip(pos as int)) is None,
        },
{
    let ghost s0 = s@.skip(pos as int);
    let (price_usd, p1) = match parse_opt_hex_field(s, pos, 16) {
        None => {
            return None;
        },
        Some(x) => x,
    };
    proof {
        assert(s@.skip(p1 as int) =~= s0.skip(p1 - pos as int));
    }
    let (price_change_24h, p2) = match parse_opt_hex_field(s, p1, 16) {
        None => {
            return None;
        },
        Some(x) => x,
    };
    proof {
        assert(s@.skip(p2 as int) =~= s0.skip(p2 - pos as int));
    }
    let (volume_24h, p3) = match parse_opt_hex_field(s, p2, 16) {
        None => {
            return None;
        },
        Some(x) => x,
    };
    proof {
        assert(s@.skip(p3 as int) =~= s0.skip(p3 - pos as int));
    }
    let (market_cap, p4) = match parse_opt_hex_field(s, p3, 16) {
        None => {
            return None;
        },
        Some(x) => x,
    };
    Some(((price_usd, price_change_24h, volume_24h, market_cap), p4))
}

/// Reads a token at `pos`.
#[verifier::rlimit(100)]
#[verifier::spinoff_prover]
pub fn parse_token(s: &str, pos: usize) -> (r: Option<(Token, usize)>)
    requires
        pos <= s@.len(),
    ensures
        match r {
            Some((t, p)) => pos <= p <= s@.len() && dec_token(s@.skip(pos as int)) == Some(
                (t@, p - pos as int),
            ),
            None => dec_token(s@.skip(pos as int)) is None,
        },
{
    let ghost s0 = s@.skip(pos as int);
    let (address, p1) = match parse_string(s, pos) {
        None => {
            return None;
        },
        Some(x) => x,
    };
    proof {
        assert(s@.skip(p1 as int) =~= s0.skip(p1 - pos as int));
    }
    let (chain, p2) = match parse_string(s, p1) {
        None => {
            return None;
        },
        Some(x) => x,
    };
    proof {
        assert(s@.skip(p2 as int) =~= s0.skip(p2 - pos as int));
    }
    let ((name, symbol, decimals, total_supply), p3) = match parse_meta(s, p2) {
        None => {
            return None;
        },
        Some(x) => x,
    };
    proof {
        assert(s@.skip(p3 as int) =~= s0.skip(p3 - pos as int));
    }
    let ((price_usd, price_change_24h, volume_24h, market_cap), p4) = match parse_prices(s, p3) {
        None => {
            return None;
        },
        Some(x) => x,
    };
    let t = Token {
        address,
        chain,
        name,
        symbol,
        decimals,
        total_supply,
        price_usd,
        price_change_24h,
        volume_24h,
        market_cap,
    };
    proof {
        assert(dec_token(s0) is Some);
        assert((dec_token(s0)->0).0 =~= t@);
    }
    Some((t, p4))
}

/// Decodes a stored token payload; `None` on any malformed input.
pub fn decode_token(s: &str) -> (r: Option<Token>)
    ensures
        match r {
            Some(t) => decode_token_model(s@) == Some(t@),
            None => decode_token_model(s@) is None,
        },
{
    proof {
        assert(s@.skip(0) =~= s@);
    }
    match parse_token(s, 0) {
        None => None,
        Some((t, p)) => {
            let slen: usize = s.unicode_len();
            if p == slen {
                Some(t)
            } else {
                None
            }
        },
    }
}

} // verus!
