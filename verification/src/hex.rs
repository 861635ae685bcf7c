//! Fixed-width hexadecimal number fields for the cache codec.
//!
//! A number is written as `k` lowercase hex digits, most significant first.
//! The width makes every numeric field self-delimiting, so the codec needs
//! no escaping anywhere.

use vstd::prelude::*;
use vstd::arithmetic::div_mod::{lemma_breakdown, lemma_small_mod};

verus! {

/// 16 to the power `k`.
pub open spec fn pow16(k: nat) -> nat
    decreases k,
{
    if k == 0 {
        1
    } else {
        16 * pow16((k - 1) as nat)
    }
}

pub proof fn lemma_pow16_pos(k: nat)
    ensures
        pow16(k) >= 1,
    decreases k,
{
    if k > 0 {
        lemma_pow16_pos((k - 1) as nat);
    }
}

/// The lowercase hex digit for a value below 16.
pub open spec fn hex_char_of(d: nat) -> char {
    if d == 0 { '0' } else if d == 1 { '1' } else if d == 2 { '2' } else if d == 3 { '3' }
    else if d == 4 { '4' } else if d == 5 { '5' } else if d == 6 { '6' } else if d == 7 { '7' }
    else if d == 8 { '8' } else if d == 9 { '9' } else if d == 10 { 'a' } else if d == 11 { 'b' }
    else if d == 12 { 'c' } else if d == 13 { 'd' } else if d == 14 { 'e' } else { 'f' }
}

/// Whether `c` is a lowercase hex digit.
pub open spec fn is_hex_char(c: char) -> bool {
    ('0' <= c && c <= '9') || ('a' <= c && c <= 'f')
}

/// The value of a hex digit; 0 for any other character.
pub open spec fn hex_val_of(c: char) -> nat {
    if '0' <= c && c <= '9' {
        (c as nat - '0' as nat) as nat
    } else if 'a' <= c && c <= 'f' {
        (c as nat - 'a' as nat + 10) as nat
    } else {
        0
    }
}

pub proof fn lemma_hex_digit_round_trip(d: nat)
    requires
        d < 16,
    ensures
        is_hex_char(hex_char_of(d)),
        hex_val_of(hex_char_of(d)) == d,
{
}

/// `n % 16^k` written as `k` hex digits, most significant first.
pub open spec fn enc_hex(n: nat, k: nat) -> Seq<char>
    decreases k,
{
    if k == 0 {
        Seq::empty()
    } else {
        enc_hex(n / 16, (k - 1) as nat) + seq![hex_char_of(n % 16)]
    }
}

/// The number a sequence of hex digits denotes.
pub open spec fn hex_value_of(s: Seq<char>) -> nat
    decreases s.len(),
{
    if s.len() == 0 {
        0
    } else {
        hex_value_of(s.drop_last()) * 16 + hex_val_of(s.last())
    }
}

/// Whether every character of `s` is a hex digit.
pub open spec fn all_hex(s: Seq<char>) -> bool {
    forall|i: int| 0 <= i < s.len() ==> is_hex_char(s[i])
}

pub proof fn lemma_enc_hex_len(n: nat, k: nat)
    ensures
        enc_hex(n, k).len() == k,
    decreases k,
{
    if k > 0 {
        lemma_enc_hex_len(n / 16, (k - 1) as nat);
    }
}

pub proof fn lemma_enc_hex_all_hex(n: nat, k: nat)
    ensures
        all_hex(enc_hex(n, k)),
    decreases k,
{
    if k > 0 {
        lemma_enc_hex_all_hex(n / 16, (k - 1) as nat);
        lemma_hex_digit_round_trip(n % 16);
        assert(enc_hex(n, k).last() == hex_char_of(n % 16));
        assert forall|i: int| 0 <= i < enc_hex(n, k).len() implies is_hex_char(
            enc_hex(n, k)[i],
        ) by {
            lemma_enc_hex_len(n / 16, (k - 1) as nat);
            if i < enc_hex(n, k).len() - 1 {
                assert(enc_hex(n, k)[i] == enc_hex(n / 16, (k - 1) as nat)[i]);
            }
        }
    }
}

pub proof fn lemma_hex_value_of_enc(n: nat, k: nat)
    ensures
        hex_value_of(enc_hex(n, k)) == n % pow16(k),
    decreases k,
{
    if k == 0 {
        lemma_small_mod(0, 1);
        assert(n % 1 == 0) by {
            lemma_breakdown(n as int, 1, 1);
        }
    } else {
        let prev = enc_hex(n / 16, (k - 1) as nat);
        let whole = enc_hex(n, k);
        lemma_hex_value_of_enc(n / 16, (k - 1) as nat);
        assert(whole.drop_last() =~= prev);
        assert(whole.last() == hex_char_of(n % 16));
        lemma_hex_digit_round_trip(n % 16);
        lemma_pow16_pos((k - 1) as nat);
        lemma_breakdown(n as int, 16, pow16((k - 1) as nat) as int);
        assert(pow16(k) == 16 * pow16((k - 1) as nat));
        assert(hex_value_of(whole) == ((n / 16) % pow16((k - 1) as nat)) * 16 + n % 16);
    }
}

pub proof fn lemma_hex_value_bound(s: Seq<char>)
    ensures
        hex_value_of(s) < pow16(s.len()),
    decreases s.len(),
{
    if s.len() > 0 {
        lemma_hex_value_bound(s.drop_last());
        assert(hex_val_of(s.last()) < 16);
    }
}

/// `k` hex digits of `n` read back as `n` itself, whatever follows them.
pub proof fn lemma_dec_of_enc_hex(n: u64, k: nat)
    requires
        (n as nat) < pow16(k),
    ensures
        enc_hex(n as nat, k).len() == k,
        all_hex(enc_hex(n as nat, k)),
        hex_value_of(enc_hex(n as nat, k)) == n,
{
    lemma_enc_hex_len(n as nat, k);
    lemma_enc_hex_all_hex(n as nat, k);
    lemma_hex_value_of_enc(n as nat, k);
    lemma_pow16_pos(k);
    lemma_small_mod(n as nat, pow16(k));
}

/// Appends the hex digit of a value below 16.
pub fn hex_char_exec(d: u64) -> (r: char)
    requires
        d < 16,
    ensures
        r == hex_char_of(d as nat),
{
    if d == 0 { '0' } else if d == 1 { '1' } else if d == 2 { '2' } else if d == 3 { '3' }
    else if d == 4 { '4' } else if d == 5 { '5' } else if d == 6 { '6' } else if d == 7 { '7' }
    else if d == 8 { '8' } else if d == 9 { '9' } else if d == 10 { 'a' } else if d == 11 { 'b' }
    else if d == 12 { 'c' } else if d == 13 { 'd' } else if d == 14 { 'e' } else { 'f' }
}

/// The value of a hex digit character, if it is one.
pub fn hex_val_exec(c: char) -> (r: Option<u64>)
    ensures
        match r {
            Some(v) => is_hex_char(c) && v as nat == hex_val_of(c),
            None => !is_hex_char(c),
        },
{
    if '0' <= c && c <= '9' {
        Some(c as u64 - '0' as u64)
    } else if 'a' <= c && c <= 'f' {
        Some(c as u64 - 'a' as u64 + 10)
    } else {
        None
    }
}

/// Relies on `alloc::string::String::push`: appends exactly the given
/// character to the end of the string.
#[verifier::external_body]
pub fn push_char(out: &mut String, c: char)
    ensures
        final(out)@ == old(out)@.push(c),
{
    out.push(c);
}

/// Appends the `k`-digit hex form of `n % 16^k` to `out`.
pub fn encode_hex(out: &mut String, n: u64, k: usize)
    ensures
        final(out)@ == old(out)@ + enc_hex(n as nat, k as nat),
    decreases k,
{
    if k == 0 {
        proof {
            assert(out@ =~= old(out)@ + enc_hex(n as nat, 0));
        }
    } else {
        encode_hex(out, n / 16, k - 1);
        let c = hex_char_exec(n % 16);
        push_char(out, c);
        proof {
            assert((n / 16) as nat == (n as nat) / 16);
            assert((n % 16) as nat == (n as nat) % 16);
            assert(out@ =~= old(out)@ + enc_hex(n as nat, k as nat));
        }
    }
}

/// Reads `k` hex digits at `pos`; `None` if the input is too short or a
/// character is not a hex digit.
pub fn parse_hex(s: &str, pos: usize, k: usize) -> (r: Option<(u64, usize)>)
    requires
        pos <= s@.len(),
        k <= 16,
    ensures
        match r {
            Some((v, p)) => {
                &&& p == pos + k
                &&& pos + k <= s@.len()
                &&& all_hex(s@.subrange(pos as int, pos + k))
                &&& v as nat == hex_value_of(s@.subrange(pos as int, pos + k))
            },
            None => !(pos + k <= s@.len() && all_hex(s@.subrange(pos as int, pos + k))),
        },
    decreases k,
{
    if k == 0 {
        proof {
            assert(s@.subrange(pos as int, pos as int) =~= Seq::<char>::empty());
        }
        Some((0, pos))
    } else {
        match parse_hex(s, pos, k - 1) {
            None => {
                proof {
                    if pos + k <= s@.len() && all_hex(s@.subrange(pos as int, pos + k)) {
                        let whole = s@.subrange(pos as int, pos + k);
                        let head = s@.subrange(pos as int, pos + (k - 1));
                        assert forall|i: int| 0 <= i < head.len() implies is_hex_char(
                            head[i],
                        ) by {
                            assert(head[i] == whole[i]);
                        }
                    }
                }
                None
            },
            Some((v, p)) => {
                let slen: usize = s.unicode_len();
                if p >= slen {
                    proof {
                        assert(pos + k > s@.len());
                    }
                    None
                } else {
                    let c = s.get_char(p);
                    match hex_val_exec(c) {
                        None => {
                            proof {
                                if pos + k <= s@.len() && all_hex(
                                    s@.subrange(pos as int, pos + k),
                                ) {
                                    assert(s@.subrange(pos as int, pos + k)[k - 1] == c);
                                }
                            }
                            None
                        },
                        Some(d) => {
                            proof {
                                let head = s@.subrange(pos as int, pos + (k - 1));
                                let whole = s@.subrange(pos as int, pos + k);
                                assert(whole.drop_last() =~= head);
                                assert(whole.last() == c);
                                lemma_hex_value_bound(head);
                                lemma_pow16_mono((k - 1) as nat);
                                assert forall|i: int| 0 <= i < whole.len() implies is_hex_char(
                                    whole[i],
                                ) by {
                                    if i < whole.len() - 1 {
                                        assert(whole[i] == head[i]);
                                    }
                                }
                            }
                            Some((v * 16 + d, p + 1))
                        },
                    }
                }
            },
        }
    }
}

/// `16^j <= 16^15` for `j <= 15`, giving the overflow bound for one more
/// digit.
proof fn lemma_pow16_mono(j: nat)
    requires
        j <= 15,
    ensures
        pow16(j) <= 0x1000000000000000,
    decreases j,
{
    if j == 0 {
        assert(pow16(0) == 1);
    } else {
        lemma_pow16_mono_helper(j);
    }
}

proof fn lemma_pow16_mono_helper(j: nat)
    requires
        1 <= j <= 15,
    ensures
        pow16(j) <= 0x1000000000000000,
{
    lemma_pow16_fifteen();
    lemma_pow16_le(j, 15);
}

/// `16^16` is one beyond the largest `u64`.
pub proof fn lemma_pow16_sixteen()
    ensures
        pow16(16) == 0x10000000000000000,
{
    lemma_pow16_fifteen();
}

/// `16^2` bounds a two-digit field by the largest `u8` plus one.
pub proof fn lemma_pow16_two()
    ensures
        pow16(2) == 0x100,
{
    assert(pow16(0) == 1);
    assert(pow16(1) == 16);
    assert(pow16(2) == 0x100);
}

proof fn lemma_pow16_fifteen()
    ensures
        pow16(15) == 0x1000000000000000,
{
    assert(pow16(0) == 1);
    assert(pow16(1) == 16);
    assert(pow16(2) == 0x100);
    assert(pow16(3) == 0x1000);
    assert(pow16(4) == 0x10000);
    assert(pow16(5) == 0x100000);
    assert(pow16(6) == 0x1000000);
    assert(pow16(7) == 0x10000000);
    assert(pow16(8) == 0x100000000);
    assert(pow16(9) == 0x1000000000);
    assert(pow16(10) == 0x10000000000);
    assert(pow16(11) == 0x100000000000);
    assert(pow16(12) == 0x1000000000000);
    assert(pow16(13) == 0x10000000000000);
    assert(pow16(14) == 0x100000000000000);
    assert(pow16(15) == 0x1000000000000000);
}

proof fn lemma_pow16_le(a: nat, b: nat)
    requires
        a <= b,
    ensures
        pow16(a) <= pow16(b),
    decreases b,
{
    if a < b {
        lemma_pow16_le(a, (b - 1) as nat);
        lemma_pow16_pos((b - 1) as nat);
    }
}

} // verus!
