//! Cache codec for analytics entities: holders, transfers, liquidity
//! pools, and the aggregate snapshot.
//!
//! The format follows the token codec: fields in a fixed order, strings
//! length-prefixed, numbers as fixed-width hex, and each record sequence
//! written as a count followed by its records.

use vstd::prelude::*;
use vstd::string::StringExecFns;
use crate::hex::{
    all_hex, enc_hex, encode_hex, hex_value_of, lemma_dec_of_enc_hex, lemma_enc_hex_len,
    lemma_pow16_sixteen, parse_hex,
};
use crate::codec::{
    dec_string, dec_opt_hex_field, dec_token, enc_string, enc_opt_hex, enc_token, encode_opt_hex,
    encode_string, encode_token, lemma_dec_enc_string, lemma_dec_enc_opt_hex, lemma_dec_enc_token,
    parse_opt_hex_field, parse_string, parse_token, str_wf, token_model_wf,
};
use crate::models::{
    Holder, HolderModel, LiquidityPool, LiquidityPoolModel, Token, TokenAnalytics,
    TokenAnalyticsModel, Transfer, TransferModel,
};

verus! {

/// A holder whose strings fit the codec's length fields; true of every
/// holder a program can hold.
pub open spec fn holder_model_wf(m: HolderModel) -> bool {
    str_wf(m.address) && str_wf(m.balance)
}

pub open spec fn transfer_model_wf(m: TransferModel) -> bool {
    str_wf(m.tx_hash) && str_wf(m.from) && str_wf(m.to) && str_wf(m.amount)
}

pub open spec fn pool_model_wf(m: LiquidityPoolModel) -> bool {
    str_wf(m.address) && str_wf(m.exchange) && str_wf(m.token0) && str_wf(m.token1) && str_wf(
        m.reserve0,
    ) && str_wf(m.reserve1)
}

/// An analytics snapshot whose parts all fit the codec's length and count
/// fields. Every snapshot built by executable code satisfies this.
pub open spec fn analytics_model_wf(m: TokenAnalyticsModel) -> bool {
    &&& token_model_wf(m.token)
    &&& m.holders.len() < 0x10000000000000000
    &&& m.transfers.len() < 0x10000000000000000
    &&& m.liquidity_pools.len() < 0x10000000000000000
    &&& forall|i: int| 0 <= i < m.holders.len() ==> holder_model_wf(#[trigger] m.holders[i])
    &&& forall|i: int| 0 <= i < m.transfers.len() ==> transfer_model_wf(#[trigger] m.transfers[i])
    &&& forall|i: int|
        0 <= i < m.liquidity_pools.len() ==> pool_model_wf(#[trigger] m.liquidity_pools[i])
}

// ---------------------------------------------------------------------
// mandatory number fields
// ---------------------------------------------------------------------
/// A mandatory 16-digit number field.
pub open spec fn dec_u64_field(s: Seq<char>) -> Option<(u64, int)> {
    if 16 <= s.len() && all_hex(s.take(16)) {
        Some((hex_value_of(s.take(16)) as u64, 16))
    } else {
        None
    }
}

proof fn lemma_dec_enc_u64_field(v: u64, rest: Seq<char>)
    ensures
        dec_u64_field(enc_hex(v as nat, 16) + rest) == Some((v, 16int)),
{
    let w = enc_hex(v as nat, 16) + rest;
    lemma_pow16_sixteen();
    lemma_dec_of_enc_hex(v, 16);
    assert(w.take(16) =~= enc_hex(v as nat, 16));
}

/// Reads a mandatory 16-digit number field at `pos`.
fn parse_u64_field(s: &str, pos: usize) -> (r: Option<(u64, usize)>)
    requires
        pos <= s@.len(),
    ensures
        match r {
            Some((v, p)) => pos <= p <= s@.len() && dec_u64_field(s@.skip(pos as int)) == Some(
                (v, p - pos as int),
            ),
            None => dec_u64_field(s@.skip(pos as int)) is None,
        },
{
    let ghost s0 = s@.skip(pos as int);
    match parse_hex(s, pos, 16) {
        None => {
            proof {
                if 16 <= s0.len() {
                    assert(s0.take(16) =~= s@.subrange(pos as int, pos + 16));
                }
            }
            None
        },
        Some((v, p)) => {
            proof {
                assert(s0.take(16) =~= s@.subrange(pos as int, pos + 16));
            }
            Some((v, p))
        },
    }
}

/// A signed timestamp round-trips through its unsigned bit pattern.
proof fn lemma_i64_bits(x: i64)
    ensures
        (x as u64) as i64 == x,
{
    assert((x as u64) as i64 == x) by (bit_vector);
}

// ---------------------------------------------------------------------
// four consecutive string fields
// ---------------------------------------------------------------------
pub open spec fn enc_str4(a: Seq<char>, b: Seq<char>, c: Seq<char>, d: Seq<char>) -> Seq<char> {
    enc_string(a) + enc_string(b) + enc_string(c) + enc_string(d)
}

pub open spec fn dec_str4(s: Seq<char>) -> Option<
    ((Seq<char>, Seq<char>, Seq<char>, Seq<char>), int),
> {
    match dec_string(s) {
        None => None,
        Some((a, c0)) => match dec_string(s.skip(c0)) {
            None => None,
            Some((b, c1)) => match dec_string(s.skip(c0 + c1)) {
                None => None,
                Some((c, c2)) => match dec_string(s.skip(c0 + c1 + c2)) {
                    None => None,
                    Some((d, c3)) => Some(((a, b, c, d), c0 + c1 + c2 + c3)),
                },
            },
        },
    }
}

#[verifier::rlimit(100)]
#[verifier::spinoff_prover]
proof fn lemma_dec_enc_str4(a: Seq<char>, b: Seq<char>, c: Seq<char>, d: Seq<char>, rest: Seq<char>)
    requires
        str_wf(a),
        str_wf(b),
        str_wf(c),
        str_wf(d),
    ensures
        dec_str4(enc_str4(a, b, c, d) + rest) == Some(((a, b, c, d), enc_str4(a, b, c, d).len() as int)),
{
    let e0 = enc_string(a);
    let e1 = enc_string(b);
    let e2 = enc_string(c);
    let e3 = enc_string(d);
    let r3 = e3 + rest;
    let r2 = e2 + r3;
    let r1 = e1 + r2;
    let r0 = e0 + r1;
    let w = enc_str4(a, b, c, d) + rest;
    assert(w =~= r0);
    lemma_dec_enc_string(a, r1);
    lemma_dec_enc_string(b, r2);
    lemma_dec_enc_string(c, r3);
    lemma_dec_enc_string(d, rest);
    let c0 = e0.len() as int;
    let c1 = e1.len() as int;
    let c2 = e2.len() as int;
    assert(r0.skip(c0) =~= r1);
    assert(r0.skip(c0 + c1) =~= r1.skip(c1));
    assert(r1.skip(c1) =~= r2);
    assert(r0.skip(c0 + c1 + c2) =~= r2.skip(c2));
    assert(r2.skip(c2) =~= r3);
    assert(dec_str4(r0) is Some);
}

/// Reads four consecutive string fields at `pos`.
#[verifier::rlimit(100)]
fn parse_str4(s: &str, pos: usize) -> (r: Option<((String, String, String, String), usize)>)
    requires
        pos <= s@.len(),
    ensures
        match r {
            Some(((a, b, c, d), p)) => pos <= p <= s@.len() && dec_str4(s@.skip(pos as int))
                == Some(((a@, b@, c@, d@), p - pos as int)),
            None => dec_str4(s@.skip(pos as int)) is None,
        },
{
    let ghost s0 = s@.skip(pos as int);
    let (a, p1) = match parse_string(s, pos) {
        None => {
            return None;
        },
        Some(x) => x,
    };
    proof {
        assert(s@.skip(p1 as int) =~= s0.skip(p1 - pos as int));
    }
    let (b, p2) = match parse_string(s, p1) {
        None => {
            return None;
        },
        Some(x) => x,
    };
    proof {
        assert(s@.skip(p2 as int) =~= s0.skip(p2 - pos as int));
    }
    let (c, p3) = match parse_string(s, p2) {
        None => {
            return None;
        },
        Some(x) => x,
    };
    proof {
        assert(s@.skip(p3 as int) =~= s0.skip(p3 - pos as int));
    }
    let (d, p4) = match parse_string(s, p3) {
        None => {
            return None;
        },
        Some(x) => x,
    };
    Some(((a, b, c, d), p4))
}

// ---------------------------------------------------------------------
// holders
// ---------------------------------------------------------------------
/// A holder: address, balance, then its optional market figures.
pub open spec fn enc_holder(m: HolderModel) -> Seq<char> {
    enc_string(m.address) + enc_string(m.balance) + enc_opt_hex(m.value_usd, 16) + enc_opt_hex(
        m.share,
        16,
    )
}

pub open spec fn dec_holder(s: Seq<char>) -> Option<(HolderModel, int)> {
    match dec_string(s) {
        None => None,
        Some((address, c0)) => match dec_string(s.skip(c0)) {
            None => None,
            Some((balance, c1)) => match dec_opt_hex_field(s.skip(c0 + c1), 16) {
                None => None,
                Some((value_usd, c2)) => match dec_opt_hex_field(s.skip(c0 + c1 + c2), 16) {
                    None => None,
                    Some((share, c3)) => Some(
                        (HolderModel { address, balance, value_usd, share }, c0 + c1 + c2 + c3),
                    ),
                },
            },
        },
    }
}

#[verifier::rlimit(100)]
#[verifier::spinoff_prover]
proof fn lemma_dec_enc_holder(m: HolderModel, rest: Seq<char>)
    requires
        holder_model_wf(m),
    ensures
        dec_holder(enc_holder(m) + rest) == Some((m, enc_holder(m).len() as int)),
{
    let e0 = enc_string(m.address);
    let e1 = enc_string(m.balance);
    let e2 = enc_opt_hex(m.value_usd, 16);
    let e3 = enc_opt_hex(m.share, 16);
    let r3 = e3 + rest;
    let r2 = e2 + r3;
    let r1 = e1 + r2;
    let r0 = e0 + r1;
    let w = enc_holder(m) + rest;
    assert(w =~= r0);
    lemma_pow16_sixteen();
    lemma_dec_enc_string(m.address, r1);
    lemma_dec_enc_string(m.balance, r2);
    lemma_dec_enc_opt_hex(m.value_usd, 16, r3);
    lemma_dec_enc_opt_hex(m.share, 16, rest);
    let c0 = e0.len() as int;
    let c1 = e1.len() as int;
    let c2 = e2.len() as int;
    assert(r0.skip(c0) =~= r1);
    assert(r0.skip(c0 + c1) =~= r1.skip(c1));
    assert(r1.skip(c1) =~= r2);
    assert(r0.skip(c0 + c1 + c2) =~= r2.skip(c2));
    assert(r2.skip(c2) =~= r3);
    assert(dec_holder(r0) is Some);
    assert((dec_holder(r0)->0).0 =~= m);
}

/// Reads a holder record at `pos`.
#[verifier::rlimit(100)]
fn parse_holder(s: &str, pos: usize) -> (r: Option<(Holder, usize)>)
    requires
        pos <= s@.len(),
    ensures
        match r {
            Some((h, p)) => pos <= p <= s@.len() && dec_holder(s@.skip(pos as int)) == Some(
                (h.deep_view(), p - pos as int),
            ),
            None => dec_holder(s@.skip(pos as int)) is None,
        },
{
    let ghost s0 = s@.skip(pos as int);
    let (address, p1) = match parse_string(s, pos) {
        None => {
            return None;
        },
        Some(x) => x,
    };
    proof {
        assert(s@.skip(p1 as int) =~= s0.skip(p1 - pos as int));
    }
    let (balance, p2) = match parse_string(s, p1) {
        None => {
            return None;
        },
        Some(x) => x,
    };
    proof {
        assert(s@.skip(p2 as int) =~= s0.skip(p2 - pos as int));
    }
    let (value_usd, p3) = match parse_opt_hex_field(s, p2, 16) {
        None => {
            return None;
        },
        Some(x) => x,
    };
    proof {
        assert(s@.skip(p3 as int) =~= s0.skip(p3 - pos as int));
    }
    let (share, p4) = match parse_opt_hex_field(s, p3, 16) {
        None => {
            return None;
        },
        Some(x) => x,
    };
    let h = Holder { address, balance, value_usd, share };
    proof {
        assert(dec_holder(s0) is Some);
        assert((dec_holder(s0)->0).0 =~= h.deep_view());
    }
    Some((h, p4))
}

/// Appends a holder record to `out`.
fn encode_holder(out: &mut String, h: &Holder)
    ensures
        final(out)@ == old(out)@ + enc_holder(h.deep_view()),
        holder_model_wf(h.deep_view()),
{
    encode_string(out, h.address.as_str());
    encode_string(out, h.balance.as_str());
    encode_opt_hex(out, &h.value_usd, 16);
    encode_opt_hex(out, &h.share, 16);
    proof {
        assert(out@ =~= old(out)@ + enc_holder(h.deep_view()));
    }
}

/// The elements of a `Holder` snapshot, one after the other.
pub open spec fn enc_list_holder(xs: Seq<HolderModel>) -> Seq<char>
    decreases xs.len(),
{
    if xs.len() == 0 {
        Seq::empty()
    } else {
        enc_holder(xs[0]) + enc_list_holder(xs.skip(1))
    }
}

pub open spec fn dec_list_holder(s: Seq<char>, n: nat) -> Option<(Seq<HolderModel>, int)>
    decreases n,
{
    if n == 0 {
        Some((Seq::empty(), 0))
    } else {
        match dec_holder(s) {
            None => None,
            Some((x, c)) => match dec_list_holder(s.skip(c), (n - 1) as nat) {
                None => None,
                Some((xs, c2)) => Some((seq![x] + xs, c + c2)),
            },
        }
    }
}

#[verifier::rlimit(100)]
#[verifier::spinoff_prover]
proof fn lemma_dec_enc_list_holder(xs: Seq<HolderModel>, rest: Seq<char>)
    requires
        forall|i: int| 0 <= i < xs.len() ==> holder_model_wf(#[trigger] xs[i]),
    ensures
        dec_list_holder(enc_list_holder(xs) + rest, xs.len()) == Some(
            (xs, enc_list_holder(xs).len() as int),
        ),
    decreases xs.len(),
{
    if xs.len() == 0 {
        assert(enc_list_holder(xs) + rest =~= rest);
        assert(enc_list_holder(xs).len() == 0);
    } else {
        let tail = enc_list_holder(xs.skip(1)) + rest;
        let w = enc_list_holder(xs) + rest;
        assert(w =~= enc_holder(xs[0]) + tail);
        lemma_dec_enc_holder(xs[0], tail);
        let c = enc_holder(xs[0]).len() as int;
        assert(w.skip(c) =~= tail);
        assert(forall|i: int|
            0 <= i < xs.skip(1).len() ==> holder_model_wf(#[trigger] xs.skip(1)[i]));
        lemma_dec_enc_list_holder(xs.skip(1), rest);
        assert(seq![xs[0]] + xs.skip(1) =~= xs);
        assert(dec_list_holder(w, xs.len()) is Some);
    }
}

/// Reads `n` `Holder` records at `pos`.
#[verifier::rlimit(100)]
fn parse_list_holder(s: &str, pos: usize, n: u64) -> (r: Option<(Vec<Holder>, usize)>)
    requires
        pos <= s@.len(),
    ensures
        match r {
            Some((v, p)) => pos <= p <= s@.len() && dec_list_holder(
                s@.skip(pos as int),
                n as nat,
            ) == Some((v.deep_view(), p - pos as int)),
            None => dec_list_holder(s@.skip(pos as int), n as nat) is None,
        },
    decreases n,
{
    let ghost s0 = s@.skip(pos as int);
    if n == 0 {
        let v: Vec<Holder> = Vec::new();
        proof {
            assert(v.deep_view() =~= Seq::<HolderModel>::empty());
        }
        Some((v, pos))
    } else {
        let (x, p1) = match parse_holder(s, pos) {
            None => {
                return None;
            },
            Some(y) => y,
        };
        proof {
            assert(s@.skip(p1 as int) =~= s0.skip(p1 - pos as int));
        }
        let (mut v, p2) = match parse_list_holder(s, p1, n - 1) {
            None => {
                return None;
            },
            Some(y) => y,
        };
        let ghost prev = v.deep_view();
        v.insert(0, x);
        proof {
            assert(v.deep_view() =~= seq![x.deep_view()] + prev);
            assert(dec_list_holder(s0, n as nat) is Some);
            assert((dec_list_holder(s0, n as nat)->0).0 =~= v.deep_view());
        }
        Some((v, p2))
    }
}

/// Appends the `Holder` records from index `i` on to `out`.
fn encode_list_holder_from(out: &mut String, v: &Vec<Holder>, i: usize)
    requires
        i <= v@.len(),
    ensures
        final(out)@ == old(out)@ + enc_list_holder(v.deep_view().skip(i as int)),
        forall|j: int| i <= j < v@.len() ==> holder_model_wf(#[trigger] v.deep_view()[j]),
    decreases v@.len() - i,
{
    if i == v.len() {
        proof {
            assert(v.deep_view().skip(i as int) =~= Seq::<HolderModel>::empty());
            assert(out@ =~= old(out)@ + enc_list_holder(v.deep_view().skip(i as int)));
        }
    } else {
        encode_holder(out, &v[i]);
        encode_list_holder_from(out, v, i + 1);
        proof {
            let dv = v.deep_view();
            assert(dv[i as int] == v@[i as int].deep_view());
            assert(dv.skip(i as int)[0] == dv[i as int]);
            assert(dv.skip(i as int).skip(1) =~= dv.skip(i + 1));
            assert(out@ =~= old(out)@ + enc_list_holder(dv.skip(i as int)));
        }
    }
}

/// A record count, then that many `Holder` records.
pub open spec fn enc_section_holder(xs: Seq<HolderModel>) -> Seq<char> {
    enc_hex(xs.len(), 16) + enc_list_holder(xs)
}

pub open spec fn dec_section_holder(s: Seq<char>) -> Option<(Seq<HolderModel>, int)> {
    match dec_u64_field(s) {
        None => None,
        Some((n, c0)) => match dec_list_holder(s.skip(c0), n as nat) {
            None => None,
            Some((xs, c1)) => Some((xs, c0 + c1)),
        },
    }
}

#[verifier::rlimit(100)]
#[verifier::spinoff_prover]
proof fn lemma_dec_enc_section_holder(xs: Seq<HolderModel>, rest: Seq<char>)
    requires
        xs.len() < 0x10000000000000000,
        forall|i: int| 0 <= i < xs.len() ==> holder_model_wf(#[trigger] xs[i]),
    ensures
        dec_section_holder(enc_section_holder(xs) + rest) == Some(
            (xs, enc_section_holder(xs).len() as int),
        ),
{
    let tail = enc_list_holder(xs) + rest;
    let w = enc_section_holder(xs) + rest;
    assert(w =~= enc_hex(xs.len(), 16) + tail);
    lemma_enc_hex_len(xs.len(), 16);
    lemma_dec_enc_u64_field(xs.len() as u64, tail);
    assert(enc_hex((xs.len() as u64) as nat, 16) == enc_hex(xs.len(), 16));
    assert(w.skip(16) =~= tail);
    lemma_dec_enc_list_holder(xs, rest);
    assert(dec_section_holder(w) is Some);
}

/// Reads a `Holder` section (count, then records) at `pos`.
fn parse_section_holder(s: &str, pos: usize) -> (r: Option<(Vec<Holder>, usize)>)
    requires
        pos <= s@.len(),
    ensures
        match r {
            Some((v, p)) => pos <= p <= s@.len() && dec_section_holder(s@.skip(pos as int))
                == Some((v.deep_view(), p - pos as int)),
            None => dec_section_holder(s@.skip(pos as int)) is None,
        },
{
    let ghost s0 = s@.skip(pos as int);
    let (n, p1) = match parse_u64_field(s, pos) {
        None => {
            return None;
        },
        Some(x) => x,
    };
    proof {
        assert(s@.skip(p1 as int) =~= s0.skip(p1 - pos as int));
    }
    let (v, p2) = match parse_list_holder(s, p1, n) {
        None => {
            return None;
        },
        Some(x) => x,
    };
    Some((v, p2))
}

/// Appends a `Holder` section to `out`.
fn encode_section_holder(out: &mut String, v: &Vec<Holder>)
    ensures
        final(out)@ == old(out)@ + enc_section_holder(v.deep_view()),
        v.deep_view().len() < 0x10000000000000000,
        forall|j: int| 0 <= j < v@.len() ==> holder_model_wf(#[trigger] v.deep_view()[j]),
{
    let n: usize = v.len();
    encode_hex(out, n as u64, 16);
    encode_list_holder_from(out, v, 0);
    proof {
        assert(v.deep_view().skip(0) =~= v.deep_view());
        assert(out@ =~= old(out)@ + enc_section_holder(v.deep_view()));
    }
}

// ---------------------------------------------------------------------
// transfers
// ---------------------------------------------------------------------
/// A transfer: its four identifying strings, then timestamp and block
/// number. The signed timestamp is written as its unsigned bit pattern.
pub open spec fn enc_transfer(m: TransferModel) -> Seq<char> {
    enc_str4(m.tx_hash, m.from, m.to, m.amount) + enc_hex((m.timestamp as u64) as nat, 16)
        + enc_hex(m.block_number as nat, 16)
}

pub open spec fn dec_transfer(s: Seq<char>) -> Option<(TransferModel, int)> {
    match dec_str4(s) {
        None => None,
        Some(((tx_hash, from, to, amount), c0)) => match dec_u64_field(s.skip(c0)) {
            None => None,
            Some((ts, c1)) => match dec_u64_field(s.skip(c0 + c1)) {
                None => None,
                Some((block_number, c2)) => Some(
                    (
                        TransferModel {
                            tx_hash,
                            from,
                            to,
                            amount,
                            timestamp: ts as i64,
                            block_number,
                        },
                        c0 + c1 + c2,
                    ),
                ),
            },
        },
    }
}

#[verifier::rlimit(100)]
#[verifier::spinoff_prover]
proof fn lemma_dec_enc_transfer(m: TransferModel, rest: Seq<char>)
    requires
        transfer_model_wf(m),
    ensures
        dec_transfer(enc_transfer(m) + rest) == Some((m, enc_transfer(m).len() as int)),
{
    let e0 = enc_str4(m.tx_hash, m.from, m.to, m.amount);
    let e1 = enc_hex((m.timestamp as u64) as nat, 16);
    let e2 = enc_hex(m.block_number as nat, 16);
    let r2 = e2 + rest;
    let r1 = e1 + r2;
    let r0 = e0 + r1;
    let w = enc_transfer(m) + rest;
    assert(w =~= r0);
    lemma_enc_hex_len((m.timestamp as u64) as nat, 16);
    lemma_enc_hex_len(m.block_number as nat, 16);
    lemma_dec_enc_str4(m.tx_hash, m.from, m.to, m.amount, r1);
    lemma_dec_enc_u64_field(m.timestamp as u64, r2);
    lemma_dec_enc_u64_field(m.block_number, rest);
    let c0 = e0.len() as int;
    let c1 = e1.len() as int;
    assert(r0.skip(c0) =~= r1);
    assert(r0.skip(c0 + c1) =~= r1.skip(c1));
    assert(r1.skip(c1) =~= r2);
    lemma_i64_bits(m.timestamp);
    assert(dec_transfer(r0) is Some);
    assert((dec_transfer(r0)->0).0 =~= m);
}

/// Reads a transfer record at `pos`.
#[verifier::rlimit(100)]
fn parse_transfer(s: &str, pos: usize) -> (r: Option<(Transfer, usize)>)
    requires
        pos <= s@.len(),
    ensures
        match r {
            Some((t, p)) => pos <= p <= s@.len() && dec_transfer(s@.skip(pos as int)) == Some(
                (t.deep_view(), p - pos as int),
            ),
            None => dec_transfer(s@.skip(pos as int)) is None,
        },
{
    let ghost s0 = s@.skip(pos as int);
    let ((tx_hash, from, to, amount), p1) = match parse_str4(s, pos) {
        None => {
            return None;
        },
        Some(x) => x,
    };
    proof {
        assert(s@.skip(p1 as int) =~= s0.skip(p1 - pos as int));
    }
    let (ts, p2) = match parse_u64_field(s, p1) {
        None => {
            return None;
        },
        Some(x) => x,
    };
    proof {
        assert(s@.skip(p2 as int) =~= s0.skip(p2 - pos as int));
    }
    let (block_number, p3) = match parse_u64_field(s, p2) {
        None => {
            return None;
        },
        Some(x) => x,
    };
    let timestamp: i64 = #[verifier::truncate] (ts as i64);
    let t = Transfer { tx_hash, from, to, amount, timestamp, block_number };
    proof {
        assert(dec_transfer(s0) is Some);
        assert((dec_transfer(s0)->0).0 =~= t.deep_view());
    }
    Some((t, p3))
}

/// Appends a transfer record to `out`.
#[verifier::rlimit(100)]
fn encode_transfer(out: &mut String, t: &Transfer)
    ensures
        final(out)@ == old(out)@ + enc_transfer(t.deep_view()),
        transfer_model_wf(t.deep_view()),
{
    encode_string(out, t.tx_hash.as_str());
    encode_string(out, t.from.as_str());
    encode_string(out, t.to.as_str());
    encode_string(out, t.amount.as_str());
    let ts: u64 = #[verifier::truncate] (t.timestamp as u64);
    encode_hex(out, ts, 16);
    encode_hex(out, t.block_number, 16);
    proof {
        assert(out@ =~= old(out)@ + enc_transfer(t.deep_view()));
    }
}

/// The elements of a `Transfer` snapshot, one after the other.
pub open spec fn enc_list_transfer(xs: Seq<TransferModel>) -> Seq<char>
    decreases xs.len(),
{
    if xs.len() == 0 {
        Seq::empty()
    } else {
        enc_transfer(xs[0]) + enc_list_transfer(xs.skip(1))
    }
}

pub open spec fn dec_list_transfer(s: Seq<char>, n: nat) -> Option<(Seq<TransferModel>, int)>
    decreases n,
{
    if n == 0 {
        Some((Seq::empty(), 0))
    } else {
        match dec_transfer(s) {
            None => None,
            Some((x, c)) => match dec_list_transfer(s.skip(c), (n - 1) as nat) {
                None => None,
                Some((xs, c2)) => Some((seq![x] + xs, c + c2)),
            },
        }
    }
}

#[verifier::rlimit(100)]
#[verifier::spinoff_prover]
proof fn lemma_dec_enc_list_transfer(xs: Seq<TransferModel>, rest: Seq<char>)
    requires
        forall|i: int| 0 <= i < xs.len() ==> transfer_model_wf(#[trigger] xs[i]),
    ensures
        dec_list_transfer(enc_list_transfer(xs) + rest, xs.len()) == Some(
            (xs, enc_list_transfer(xs).len() as int),
        ),
    decreases xs.len(),
{
    if xs.len() == 0 {
        assert(enc_list_transfer(xs) + rest =~= rest);
        assert(enc_list_transfer(xs).len() == 0);
    } else {
        let tail = enc_list_transfer(xs.skip(1)) + rest;
        let w = enc_list_transfer(xs) + rest;
        assert(w =~= enc_transfer(xs[0]) + tail);
        lemma_dec_enc_transfer(xs[0], tail);
        let c = enc_transfer(xs[0]).len() as int;
        assert(w.skip(c) =~= tail);
        assert(forall|i: int|
            0 <= i < xs.skip(1).len() ==> transfer_model_wf(#[trigger] xs.skip(1)[i]));
        lemma_dec_enc_list_transfer(xs.skip(1), rest);
        assert(seq![xs[0]] + xs.skip(1) =~= xs);
        assert(dec_list_transfer(w, xs.len()) is Some);
    }
}

/// Reads `n` `Transfer` records at `pos`.
#[verifier::rlimit(100)]
fn parse_list_transfer(s: &str, pos: usize, n: u64) -> (r: Option<(Vec<Transfer>, usize)>)
    requires
        pos <= s@.len(),
    ensures
        match r {
            Some((v, p)) => pos <= p <= s@.len() && dec_list_transfer(
                s@.skip(pos as int),
                n as nat,
            ) == Some((v.deep_view(), p - pos as int)),
            None => dec_list_transfer(s@.skip(pos as int), n as nat) is None,
        },
    decreases n,
{
    let ghost s0 = s@.skip(pos as int);
    if n == 0 {
        let v: Vec<Transfer> = Vec::new();
        proof {
            assert(v.deep_view() =~= Seq::<TransferModel>::empty());
        }
        Some((v, pos))
    } else {
        let (x, p1) = match parse_transfer(s, pos) {
            None => {
                return None;
            },
            Some(y) => y,
        };
        proof {
            assert(s@.skip(p1 as int) =~= s0.skip(p1 - pos as int));
        }
        let (mut v, p2) = match parse_list_transfer(s, p1, n - 1) {
            None => {
                return None;
            },
            Some(y) => y,
        };
        let ghost prev = v.deep_view();
        v.insert(0, x);
        proof {
            assert(v.deep_view() =~= seq![x.deep_view()] + prev);
            assert(dec_list_transfer(s0, n as nat) is Some);
            assert((dec_list_transfer(s0, n as nat)->0).0 =~= v.deep_view());
        }
        Some((v, p2))
    }
}

/// Appends the `Transfer` records from index `i` on to `out`.
fn encode_list_transfer_from(out: &mut String, v: &Vec<Transfer>, i: usize)
    requires
        i <= v@.len(),
    ensures
        final(out)@ == old(out)@ + enc_list_transfer(v.deep_view().skip(i as int)),
        forall|j: int| i <= j < v@.len() ==> transfer_model_wf(#[trigger] v.deep_view()[j]),
    decreases v@.len() - i,
{
    if i == v.len() {
        proof {
            assert(v.deep_view().skip(i as int) =~= Seq::<TransferModel>::empty());
            assert(out@ =~= old(out)@ + enc_list_transfer(v.deep_view().skip(i as int)));
        }
    } else {
        encode_transfer(out, &v[i]);
        encode_list_transfer_from(out, v, i + 1);
        proof {
            let dv = v.deep_view();
            assert(dv[i as int] == v@[i as int].deep_view());
            assert(dv.skip(i as int)[0] == dv[i as int]);
            assert(dv.skip(i as int).skip(1) =~= dv.skip(i + 1));
            assert(out@ =~= old(out)@ + enc_list_transfer(dv.skip(i as int)));
        }
    }
}

/// A record count, then that many `Transfer` records.
pub open spec fn enc_section_transfer(xs: Seq<TransferModel>) -> Seq<char> {
    enc_hex(xs.len(), 16) + enc_list_transfer(xs)
}

pub open spec fn dec_section_transfer(s: Seq<char>) -> Option<(Seq<TransferModel>, int)> {
    match dec_u64_field(s) {
        None => None,
        Some((n, c0)) => match dec_list_transfer(s.skip(c0), n as nat) {
            None => None,
            Some((xs, c1)) => Some((xs, c0 + c1)),
        },
    }
}

#[verifier::rlimit(100)]
#[verifier::spinoff_prover]
proof fn lemma_dec_enc_section_transfer(xs: Seq<TransferModel>, rest: Seq<char>)
    requires
        xs.len() < 0x10000000000000000,
        forall|i: int| 0 <= i < xs.len() ==> transfer_model_wf(#[trigger] xs[i]),
    ensures
        dec_section_transfer(enc_section_transfer(xs) + rest) == Some(
            (xs, enc_section_transfer(xs).len() as int),
        ),
{
    let tail = enc_list_transfer(xs) + rest;
    let w = enc_section_transfer(xs) + rest;
    assert(w =~= enc_hex(xs.len(), 16) + tail);
    lemma_enc_hex_len(xs.len(), 16);
    lemma_dec_enc_u64_field(xs.len() as u64, tail);
    assert(enc_hex((xs.len() as u64) as nat, 16) == enc_hex(xs.len(), 16));
    assert(w.skip(16) =~= tail);
    lemma_dec_enc_list_transfer(xs, rest);
    assert(dec_section_transfer(w) is Some);
}

/// Reads a `Transfer` section (count, then records) at `pos`.
fn parse_section_transfer(s: &str, pos: usize) -> (r: Option<(Vec<Transfer>, usize)>)
    requires
        pos <= s@.len(),
    ensures
        match r {
            Some((v, p)) => pos <= p <= s@.len() && dec_section_transfer(s@.skip(pos as int))
                == Some((v.deep_view(), p - pos as int)),
            None => dec_section_transfer(s@.skip(pos as int)) is None,
        },
{
    let ghost s0 = s@.skip(pos as int);
    let (n, p1) = match parse_u64_field(s, pos) {
        None => {
            return None;
        },
        Some(x) => x,
    };
    proof {
        assert(s@.skip(p1 as int) =~= s0.skip(p1 - pos as int));
    }
    let (v, p2) = match parse_list_transfer(s, p1, n) {
        None => {
            return None;
        },
        Some(x) => x,
    };
    Some((v, p2))
}

/// Appends a `Transfer` section to `out`.
fn encode_section_transfer(out: &mut String, v: &Vec<Transfer>)
    ensures
        final(out)@ == old(out)@ + enc_section_transfer(v.deep_view()),
        v.deep_view().len() < 0x10000000000000000,
        forall|j: int| 0 <= j < v@.len() ==> transfer_model_wf(#[trigger] v.deep_view()[j]),
{
    let n: usize = v.len();
    encode_hex(out, n as u64, 16);
    encode_list_transfer_from(out, v, 0);
    proof {
        assert(v.deep_view().skip(0) =~= v.deep_view());
        assert(out@ =~= old(out)@ + enc_section_transfer(v.deep_view()));
    }
}

// ---------------------------------------------------------------------
// liquidity pools
// ---------------------------------------------------------------------
/// The reserve side of a pool: the two reserve strings, then the bit
/// patterns of the pool's dollar reserve and 24h volume.
pub open spec fn enc_pool_tail(m: LiquidityPoolModel) -> Seq<char> {
    enc_string(m.reserve0) + enc_string(m.reserve1) + enc_hex(m.reserve_usd as nat, 16) + enc_hex(
        m.volume_24h as nat,
        16,
    )
}

pub open spec fn dec_pool_tail(s: Seq<char>) -> Option<((Seq<char>, Seq<char>, u64, u64), int)> {
    match dec_string(s) {
        None => None,
        Some((reserve0, c0)) => match dec_string(s.skip(c0)) {
            None => None,
            Some((reserve1, c1)) => match dec_u64_field(s.skip(c0 + c1)) {
                None => None,
                Some((reserve_usd, c2)) => match dec_u64_field(s.skip(c0 + c1 + c2)) {
                    None => None,
                    Some((volume_24h, c3)) => Some(
                        ((reserve0, reserve1, reserve_usd, volume_24h), c0 + c1 + c2 + c3),
                    ),
                },
            },
        },
    }
}

#[verifier::rlimit(100)]
#[verifier::spinoff_prover]
proof fn lemma_dec_enc_pool_tail(m: LiquidityPoolModel, rest: Seq<char>)
    requires
        pool_model_wf(m),
    ensures
        dec_pool_tail(enc_pool_tail(m) + rest) == Some(
            ((m.reserve0, m.reserve1, m.reserve_usd, m.volume_24h), enc_pool_tail(m).len() as int),
        ),
{
    let e0 = enc_string(m.reserve0);
    let e1 = enc_string(m.reserve1);
    let e2 = enc_hex(m.reserve_usd as nat, 16);
    let e3 = enc_hex(m.volume_24h as nat, 16);
    let r3 = e3 + rest;
    let r2 = e2 + r3;
    let r1 = e1 + r2;
    let r0 = e0 + r1;
    let w = enc_pool_tail(m) + rest;
    assert(w =~= r0);
    lemma_enc_hex_len(m.reserve_usd as nat, 16);
    lemma_enc_hex_len(m.volume_24h as nat, 16);
    lemma_dec_enc_string(m.reserve0, r1);
    lemma_dec_enc_string(m.reserve1, r2);
    lemma_dec_enc_u64_field(m.reserve_usd, r3);
    lemma_dec_enc_u64_field(m.volume_24h, rest);
    let c0 = e0.len() as int;
    let c1 = e1.len() as int;
    let c2 = e2.len() as int;
    assert(r0.skip(c0) =~= r1);
    assert(r0.skip(c0 + c1) =~= r1.skip(c1));
    assert(r1.skip(c1) =~= r2);
    assert(r0.skip(c0 + c1 + c2) =~= r2.skip(c2));
    assert(r2.skip(c2) =~= r3);
    assert(dec_pool_tail(r0) is Some);
}

/// A liquidity pool record.
pub open spec fn enc_pool(m: LiquidityPoolModel) -> Seq<char> {
    enc_str4(m.address, m.exchange, m.token0, m.token1) + enc_pool_tail(m)
}

pub open spec fn dec_pool(s: Seq<char>) -> Option<(LiquidityPoolModel, int)> {
    match dec_str4(s) {
        None => None,
        Some(((address, exchange, token0, token1), c0)) => match dec_pool_tail(s.skip(c0)) {
            None => None,
            Some(((reserve0, reserve1, reserve_usd, volume_24h), c1)) => Some(
                (
                    LiquidityPoolModel {
                        address,
                        exchange,
                        token0,
                        token1,
                        reserve0,
                        reserve1,
                        reserve_usd,
                        volume_24h,
                    },
                    c0 + c1,
                ),
            ),
        },
    }
}

#[verifier::rlimit(100)]
#[verifier::spinoff_prover]
proof fn lemma_dec_enc_pool(m: LiquidityPoolModel, rest: Seq<char>)
    requires
        pool_model_wf(m),
    ensures
        dec_pool(enc_pool(m) + rest) == Some((m, enc_pool(m).len() as int)),
{
    let e0 = enc_str4(m.address, m.exchange, m.token0, m.token1);
    let e1 = enc_pool_tail(m);
    let r1 = e1 + rest;
    let r0 = e0 + r1;
    let w = enc_pool(m) + rest;
    assert(w =~= r0);
    lemma_dec_enc_str4(m.address, m.exchange, m.token0, m.token1, r1);
    lemma_dec_enc_pool_tail(m, rest);
    let c0 = e0.len() as int;
    assert(r0.skip(c0) =~= r1);
    assert(dec_pool(r0) is Some);
    assert((dec_pool(r0)->0).0 =~= m);
}

/// Reads a liquidity pool record at `pos`.
#[verifier::rlimit(100)]
fn parse_pool(s: &str, pos: usize) -> (r: Option<(LiquidityPool, usize)>)
    requires
        pos <= s@.len(),
    ensures
        match r {
            Some((q, p)) => pos <= p <= s@.len() && dec_pool(s@.skip(pos as int)) == Some(
                (q.deep_view(), p - pos as int),
            ),
            None => dec_pool(s@.skip(pos as int)) is None,
        },
{
    let ghost s0 = s@.skip(pos as int);
    let ((address, exchange, token0, token1), p1) = match parse_str4(s, pos) {
        None => {
            return None;
        },
        Some(x) => x,
    };
    proof {
        assert(s@.skip(p1 as int) =~= s0.skip(p1 - pos as int));
    }
    let (reserve0, p2) = match parse_string(s, p1) {
        None => {
            return None;
        },
        Some(x) => x,
    };
    proof {
        assert(s@.skip(p2 as int) =~= s0.skip(p1 - pos as int).skip(p2 - p1 as int));
    }
    let (reserve1, p3) = match parse_string(s, p2) {
        None => {
            return None;
        },
        Some(x) => x,
    };
    proof {
        assert(s@.skip(p3 as int) =~= s0.skip(p1 - pos as int).skip(p3 - p1 as int));
    }
    let (reserve_usd, p4) = match parse_u64_field(s, p3) {
        None => {
            return None;
        },
        Some(x) => x,
    };
    proof {
        assert(s@.skip(p4 as int) =~= s0.skip(p1 - pos as int).skip(p4 - p1 as int));
    }
    let (volume_24h, p5) = match parse_u64_field(s, p4) {
        None => {
            return None;
        },
        Some(x) => x,
    };
    let q = LiquidityPool {
        address,
        exchange,
        token0,
        token1,
        reserve0,
        reserve1,
        reserve_usd,
        volume_24h,
    };
    proof {
        assert(dec_pool_tail(s0.skip(p1 - pos as int)) is Some);
        assert(dec_pool(s0) is Some);
        assert((dec_pool(s0)->0).0 =~= q.deep_view());
    }
    Some((q, p5))
}

/// Appends a liquidity pool record to `out`.
#[verifier::rlimit(100)]
fn encode_pool(out: &mut String, q: &LiquidityPool)
    ensures
        final(out)@ == old(out)@ + enc_pool(q.deep_view()),
        pool_model_wf(q.deep_view()),
{
    encode_string(out, q.address.as_str());
    encode_string(out, q.exchange.as_str());
    encode_string(out, q.token0.as_str());
    encode_string(out, q.token1.as_str());
    let mut tail = String::new();
    encode_string(&mut tail, q.reserve0.as_str());
    encode_string(&mut tail, q.reserve1.as_str());
    encode_hex(&mut tail, q.reserve_usd, 16);
    encode_hex(&mut tail, q.volume_24h, 16);
    proof {
        assert(tail@ =~= enc_pool_tail(q.deep_view()));
    }
    out.append(tail.as_str());
    proof {
        assert(out@ =~= old(out)@ + enc_pool(q.deep_view()));
    }
}

/// The elements of a `LiquidityPool` snapshot, one after the other.
pub open spec fn enc_list_pool(xs: Seq<LiquidityPoolModel>) -> Seq<char>
    decreases xs.len(),
{
    if xs.len() == 0 {
        Seq::empty()
    } else {
        enc_pool(xs[0]) + enc_list_pool(xs.skip(1))
    }
}

pub open spec fn dec_list_pool(s: Seq<char>, n: nat) -> Option<(Seq<LiquidityPoolModel>, int)>
    decreases n,
{
    if n == 0 {
        Some((Seq::empty(), 0))
    } else {
        match dec_pool(s) {
            None => None,
            Some((x, c)) => match dec_list_pool(s.skip(c), (n - 1) as nat) {
                None => None,
                Some((xs, c2)) => Some((seq![x] + xs, c + c2)),
            },
        }
    }
}

#[verifier::rlimit(100)]
#[verifier::spinoff_prover]
proof fn lemma_dec_enc_list_pool(xs: Seq<LiquidityPoolModel>, rest: Seq<char>)
    requires
        forall|i: int| 0 <= i < xs.len() ==> pool_model_wf(#[trigger] xs[i]),
    ensures
        dec_list_pool(enc_list_pool(xs) + rest, xs.len()) == Some(
            (xs, enc_list_pool(xs).len() as int),
        ),
    decreases xs.len(),
{
    if xs.len() == 0 {
        assert(enc_list_pool(xs) + rest =~= rest);
        assert(enc_list_pool(xs).len() == 0);
    } else {
        let tail = enc_list_pool(xs.skip(1)) + rest;
        let w = enc_list_pool(xs) + rest;
        assert(w =~= enc_pool(xs[0]) + tail);
        lemma_dec_enc_pool(xs[0], tail);
        let c = enc_pool(xs[0]).len() as int;
        assert(w.skip(c) =~= tail);
        assert(forall|i: int|
            0 <= i < xs.skip(1).len() ==> pool_model_wf(#[trigger] xs.skip(1)[i]));
        lemma_dec_enc_list_pool(xs.skip(1), rest);
        assert(seq![xs[0]] + xs.skip(1) =~= xs);
        assert(dec_list_pool(w, xs.len()) is Some);
    }
}

/// Reads `n` `LiquidityPool` records at `pos`.
#[verifier::rlimit(100)]
fn parse_list_pool(s: &str, pos: usize, n: u64) -> (r: Option<(Vec<LiquidityPool>, usize)>)
    requires
        pos <= s@.len(),
    ensures
        match r {
            Some((v, p)) => pos <= p <= s@.len() && dec_list_pool(
                s@.skip(pos as int),
                n as nat,
            ) == Some((v.deep_view(), p - pos as int)),
            None => dec_list_pool(s@.skip(pos as int), n as nat) is None,
        },
    decreases n,
{
    let ghost s0 = s@.skip(pos as int);
    if n == 0 {
        let v: Vec<LiquidityPool> = Vec::new();
        proof {
            assert(v.deep_view() =~= Seq::<LiquidityPoolModel>::empty());
        }
        Some((v, pos))
    } else {
        let (x, p1) = match parse_pool(s, pos) {
            None => {
                return None;
            },
            Some(y) => y,
        };
        proof {
            assert(s@.skip(p1 as int) =~= s0.skip(p1 - pos as int));
        }
        let (mut v, p2) = match parse_list_pool(s, p1, n - 1) {
            None => {
                return None;
            },
            Some(y) => y,
        };
        let ghost prev = v.deep_view();
        v.insert(0, x);
        proof {
            assert(v.deep_view() =~= seq![x.deep_view()] + prev);
            assert(dec_list_pool(s0, n as nat) is Some);
            assert((dec_list_pool(s0, n as nat)->0).0 =~= v.deep_view());
        }
        Some((v, p2))
    }
}

/// Appends the `LiquidityPool` records from index `i` on to `out`.
fn encode_list_pool_from(out: &mut String, v: &Vec<LiquidityPool>, i: usize)
    requires
        i <= v@.len(),
    ensures
        final(out)@ == old(out)@ + enc_list_pool(v.deep_view().skip(i as int)),
        forall|j: int| i <= j < v@.len() ==> pool_model_wf(#[trigger] v.deep_view()[j]),
    decreases v@.len() - i,
{
    if i == v.len() {
        proof {
            assert(v.deep_view().skip(i as int) =~= Seq::<LiquidityPoolModel>::empty());
            assert(out@ =~= old(out)@ + enc_list_pool(v.deep_view().skip(i as int)));
        }
    } else {
        encode_pool(out, &v[i]);
        encode_list_pool_from(out, v, i + 1);
        proof {
            let dv = v.deep_view();
            assert(dv[i as int] == v@[i as int].deep_view());
            assert(dv.skip(i as int)[0] == dv[i as int]);
            assert(dv.skip(i as int).skip(1) =~= dv.skip(i + 1));
            assert(out@ =~= old(out)@ + enc_list_pool(dv.skip(i as int)));
        }
    }
}

/// A record count, then that many `LiquidityPool` records.
pub open spec fn enc_section_pool(xs: Seq<LiquidityPoolModel>) -> Seq<char> {
    enc_hex(xs.len(), 16) + enc_list_pool(xs)
}

pub open spec fn dec_section_pool(s: Seq<char>) -> Option<(Seq<LiquidityPoolModel>, int)> {
    match dec_u64_field(s) {
        None => None,
        Some((n, c0)) => match dec_list_pool(s.skip(c0), n as nat) {
            None => None,
            Some((xs, c1)) => Some((xs, c0 + c1)),
        },
    }
}

#[verifier::rlimit(100)]
#[verifier::spinoff_prover]
proof fn lemma_dec_enc_section_pool(xs: Seq<LiquidityPoolModel>, rest: Seq<char>)
    requires
        xs.len() < 0x10000000000000000,
        forall|i: int| 0 <= i < xs.len() ==> pool_model_wf(#[trigger] xs[i]),
    ensures
        dec_section_pool(enc_section_pool(xs) + rest) == Some(
            (xs, enc_section_pool(xs).len() as int),
        ),
{
    let tail = enc_list_pool(xs) + rest;
    let w = enc_section_pool(xs) + rest;
    assert(w =~= enc_hex(xs.len(), 16) + tail);
    lemma_enc_hex_len(xs.len(), 16);
    lemma_dec_enc_u64_field(xs.len() as u64, tail);
    assert(enc_hex((xs.len() as u64) as nat, 16) == enc_hex(xs.len(), 16));
    assert(w.skip(16) =~= tail);
    lemma_dec_enc_list_pool(xs, rest);
    assert(dec_section_pool(w) is Some);
}

/// Reads a `LiquidityPool` section (count, then records) at `pos`.
fn parse_section_pool(s: &str, pos: usize) -> (r: Option<(Vec<LiquidityPool>, usize)>)
    requires
        pos <= s@.len(),
    ensures
        match r {
            Some((v, p)) => pos <= p <= s@.len() && dec_section_pool(s@.skip(pos as int))
                == Some((v.deep_view(), p - pos as int)),
            None => dec_section_pool(s@.skip(pos as int)) is None,
        },
{
    let ghost s0 = s@.skip(pos as int);
    let (n, p1) = match parse_u64_field(s, pos) {
        None => {
            return None;
        },
        Some(x) => x,
    };
    proof {
        assert(s@.skip(p1 as int) =~= s0.skip(p1 - pos as int));
    }
    let (v, p2) = match parse_list_pool(s, p1, n) {
        None => {
            return None;
        },
        Some(x) => x,
    };
    Some((v, p2))
}

/// Appends a `LiquidityPool` section to `out`.
fn encode_section_pool(out: &mut String, v: &Vec<LiquidityPool>)
    ensures
        final(out)@ == old(out)@ + enc_section_pool(v.deep_view()),
        v.deep_view().len() < 0x10000000000000000,
        forall|j: int| 0 <= j < v@.len() ==> pool_model_wf(#[trigger] v.deep_view()[j]),
{
    let n: usize = v.len();
    encode_hex(out, n as u64, 16);
    encode_list_pool_from(out, v, 0);
    proof {
        assert(v.deep_view().skip(0) =~= v.deep_view());
        assert(out@ =~= old(out)@ + enc_section_pool(v.deep_view()));
    }
}

// ---------------------------------------------------------------------
// the aggregate snapshot
// ---------------------------------------------------------------------
/// An analytics snapshot: the token, then the holder, transfer and pool
/// sections.
pub open spec fn enc_analytics(m: TokenAnalyticsModel) -> Seq<char> {
    enc_token(m.token) + enc_section_holder(m.holders) + enc_section_transfer(m.transfers)
        + enc_section_pool(m.liquidity_pools)
}

pub open spec fn dec_analytics(s: Seq<char>) -> Option<(TokenAnalyticsModel, int)> {
    match dec_token(s) {
        None => None,
        Some((token, c0)) => match dec_section_holder(s.skip(c0)) {
            None => None,
            Some((holders, c1)) => match dec_section_transfer(s.skip(c0 + c1)) {
                None => None,
                Some((transfers, c2)) => match dec_section_pool(s.skip(c0 + c1 + c2)) {
                    None => None,
                    Some((liquidity_pools, c3)) => Some(
                        (
                            TokenAnalyticsModel { token, holders, transfers, liquidity_pools },
                            c0 + c1 + c2 + c3,
                        ),
                    ),
                },
            },
        },
    }
}

/// An analytics payload decodes when nothing follows its last section.
pub open spec fn decode_analytics_model(s: Seq<char>) -> Option<TokenAnalyticsModel> {
    match dec_analytics(s) {
        Some((m, c)) => if c == s.len() {
            Some(m)
        } else {
            None
        },
        None => None,
    }
}

/// The three sections read back in order from their concatenation.
#[verifier::rlimit(100)]
#[verifier::spinoff_prover]
proof fn lemma_dec_enc_sections(m: TokenAnalyticsModel, rest: Seq<char>)
    requires
        analytics_model_wf(m),
    ensures
        ({
            let r1 = enc_section_holder(m.holders) + (enc_section_transfer(m.transfers) + (
            enc_section_pool(m.liquidity_pools) + rest));
            let c1 = enc_section_holder(m.holders).len() as int;
            let c2 = enc_section_transfer(m.transfers).len() as int;
            let c3 = enc_section_pool(m.liquidity_pools).len() as int;
            &&& dec_section_holder(r1) == Some((m.holders, c1))
            &&& dec_section_transfer(r1.skip(c1)) == Some((m.transfers, c2))
            &&& dec_section_pool(r1.skip(c1 + c2)) == Some((m.liquidity_pools, c3))
            &&& r1.skip(c1 + c2 + c3) == rest
        }),
{
    let e1 = enc_section_holder(m.holders);
    let e2 = enc_section_transfer(m.transfers);
    let e3 = enc_section_pool(m.liquidity_pools);
    let r3 = e3 + rest;
    let r2 = e2 + r3;
    let r1 = e1 + r2;
    lemma_dec_enc_section_holder(m.holders, r2);
    lemma_dec_enc_section_transfer(m.transfers, r3);
    lemma_dec_enc_section_pool(m.liquidity_pools, rest);
    let c1 = e1.len() as int;
    let c2 = e2.len() as int;
    let c3 = e3.len() as int;
    assert(r1.skip(c1) =~= r2);
    assert(r1.skip(c1 + c2) =~= r2.skip(c2));
    assert(r2.skip(c2) =~= r3);
    assert(r1.skip(c1 + c2 + c3) =~= r3.skip(c3));
    assert(r3.skip(c3) =~= rest);
}

/// Regrouping the snapshot encoding to the right.
#[verifier::rlimit(100)]
#[verifier::spinoff_prover]
proof fn lemma_analytics_regroup(m: TokenAnalyticsModel, rest: Seq<char>)
    ensures
        ({
            let e0 = enc_token(m.token);
            let e1 = enc_section_holder(m.holders);
            let e2 = enc_section_transfer(m.transfers);
            let e3 = enc_section_pool(m.liquidity_pools);
            let r1 = e1 + (e2 + (e3 + rest));
            let r0 = e0 + r1;
            &&& enc_analytics(m) + rest == r0
            &&& r0.skip(e0.len() as int) == r1
            &&& r0.skip((e0.len() + e1.len()) as int) == r1.skip(e1.len() as int)
            &&& r0.skip((e0.len() + e1.len() + e2.len()) as int) == r1.skip((e1.len() + e2.len()) as int)
        }),
{
    let e0 = enc_token(m.token);
    let e1 = enc_section_holder(m.holders);
    let e2 = enc_section_transfer(m.transfers);
    let e3 = enc_section_pool(m.liquidity_pools);
    let r1 = e1 + (e2 + (e3 + rest));
    let r0 = e0 + r1;
    assert(enc_analytics(m) + rest =~= r0);
    assert(r0.skip(e0.len() as int) =~= r1);
    assert(r0.skip((e0.len() + e1.len()) as int) =~= r1.skip(e1.len() as int));
    assert(r0.skip((e0.len() + e1.len() + e2.len()) as int) =~= r1.skip((e1.len() + e2.len()) as int));
}

/// An encoded snapshot reads back as itself, whatever follows it.
#[verifier::rlimit(100)]
#[verifier::spinoff_prover]
pub proof fn lemma_dec_enc_analytics(m: TokenAnalyticsModel, rest: Seq<char>)
    requires
        analytics_model_wf(m),
    ensures
        dec_analytics(enc_analytics(m) + rest) == Some((m, enc_analytics(m).len() as int)),
{
    let e0 = enc_token(m.token);
    let e1 = enc_section_holder(m.holders);
    let e2 = enc_section_transfer(m.transfers);
    let e3 = enc_section_pool(m.liquidity_pools);
    let r1 = e1 + (e2 + (e3 + rest));
    let r0 = e0 + r1;
    lemma_analytics_regroup(m, rest);
    lemma_dec_enc_token(m.token, r1);
    lemma_dec_enc_sections(m, rest);
    let c0 = e0.len() as int;
    let c1 = e1.len() as int;
    let c2 = e2.len() as int;
    let c3 = e3.len() as int;
    assert(dec_analytics(r0) is Some);
    assert((dec_analytics(r0)->0).0 =~= m);
    assert((dec_analytics(r0)->0).1 == c0 + c1 + c2 + c3);
}

/// Round-trip law: a well-formed snapshot encoded and then decoded is
/// itself.
pub proof fn lemma_analytics_round_trip(m: TokenAnalyticsModel)
    requires
        analytics_model_wf(m),
    ensures
        decode_analytics_model(enc_analytics(m)) == Some(m),
{
    lemma_dec_enc_analytics(m, Seq::empty());
    assert(enc_analytics(m) + Seq::<char>::empty() =~= enc_analytics(m));
}

/// Encodes an analytics snapshot for storage.
#[verifier::rlimit(100)]
pub fn encode_analytics(a: &TokenAnalytics) -> (r: String)
    ensures
        r@ == enc_analytics(a@),
        analytics_model_wf(a@),
{
    let mut out = encode_token(&a.token);
    let mut holders = String::new();
    encode_section_holder(&mut holders, &a.holders);
    let mut transfers = String::new();
    encode_section_transfer(&mut transfers, &a.transfers);
    let mut pools = String::new();
    encode_section_pool(&mut pools, &a.liquidity_pools);
    out.append(holders.as_str());
    out.append(transfers.as_str());
    out.append(pools.as_str());
    proof {
        assert(out@ =~= enc_analytics(a@));
    }
    out
}

/// Reads an analytics snapshot at `pos`.
#[verifier::rlimit(100)]
#[verifier::spinoff_prover]
pub fn parse_analytics(s: &str, pos: usize) -> (r: Option<(TokenAnalytics, usize)>)
    requires
        pos <= s@.len(),
    ensures
        match r {
            Some((a, p)) => pos <= p <= s@.len() && dec_analytics(s@.skip(pos as int)) == Some(
                (a@, p - pos as int),
            ),
            None => dec_analytics(s@.skip(pos as int)) is None,
        },
{
    let ghost s0 = s@.skip(pos as int);
    let (token, p1) = match parse_token(s, pos) {
        None => {
            return None;
        },
        Some(x) => x,
    };
    proof {
        assert(s@.skip(p1 as int) =~= s0.skip(p1 - pos as int));
    }
    let (holders, p2) = match parse_section_holder(s, p1) {
        None => {
            return None;
        },
        Some(x) => x,
    };
    proof {
        assert(s@.skip(p2 as int) =~= s0.skip(p2 - pos as int));
    }
    let (transfers, p3) = match parse_section_transfer(s, p2) {
        None => {
            return None;
        },
        Some(x) => x,
    };
    proof {
        assert(s@.skip(p3 as int) =~= s0.skip(p3 - pos as int));
    }
    let (liquidity_pools, p4) = match parse_section_pool(s, p3) {
        None => {
            return None;
        },
        Some(x) => x,
    };
    let a = TokenAnalytics { token, holders, transfers, liquidity_pools };
    proof {
        assert(dec_analytics(s0) is Some);
        assert((dec_analytics(s0)->0).0 =~= a@);
    }
    Some((a, p4))
}

/// Decodes a stored analytics payload; `None` on any malformed input.
pub fn decode_analytics(s: &str) -> (r: Option<TokenAnalytics>)
    ensures
        match r {
            Some(a) => decode_analytics_model(s@) == Some(a@),
            None => decode_analytics_model(s@) is None,
        },
{
    proof {
        assert(s@.skip(0) =~= s@);
    }
    match parse_analytics(s, 0) {
        None => None,
        Some((a, p)) => {
            let slen: usize = s.unicode_len();
            if p == slen {
                Some(a)
            } else {
                None
            }
        },
    }
}

} // verus!
