//! Detection of single-character edits by the check symbol.
use vstd::prelude::*;
use crate::codec::UuidError;
use crate::laws::{
    lemma_bit_le_one, lemma_byte_from_bits, lemma_encoded_len_bytes, lemma_payload_bit_le_one,
};
use crate::model::{
    ascii_upper, be_value, checksum_spec, decode_spec, decoded_byte,
    encoded_len, parse_spec, payload_bit, symbol_bit, symbol_char, symbol_value, upper_seq,
};

verus! {

/// The number that the first `n` bits of a payload hold.
spec fn bits_value(b: Seq<u8>, n: nat) -> nat
    decreases n,
{
    if n == 0 {
        0
    } else {
        2 * bits_value(b, (n - 1) as nat) + payload_bit(b, n - 1) as nat
    }
}

spec fn bits_diff(x: Seq<u8>, y: Seq<u8>, n: nat) -> int {
    bits_value(x, n) - bits_value(y, n)
}

spec fn pow2_of(e: nat) -> nat
    decreases e,
{
    if e == 0 {
        1
    } else {
        2 * pow2_of((e - 1) as nat)
    }
}

spec fn bits_agree(x: Seq<u8>, y: Seq<u8>, lo: int, hi: int) -> bool {
    forall|j: int| lo <= j < hi ==> #[trigger] payload_bit(x, j) == payload_bit(y, j)
}

proof fn lemma_agree_same_value(x: Seq<u8>, y: Seq<u8>, n: nat)
    requires
        bits_agree(x, y, 0, n as int),
    ensures
        bits_value(x, n) == bits_value(y, n),
    decreases n,
{
    if n > 0 {
        lemma_agree_same_value(x, y, (n - 1) as nat);
    }
}

proof fn lemma_suffix_keeps_residue(x: Seq<u8>, y: Seq<u8>, k: nat, n: nat)
    requires
        k <= n,
        bits_agree(x, y, k as int, n as int),
        bits_diff(x, y, n) % 37 == 0,
    ensures
        bits_diff(x, y, k) % 37 == 0,
    decreases n,
{
    if k < n {
        let m = (n - 1) as nat;
        assert(payload_bit(x, m as int) == payload_bit(y, m as int));
        assert(bits_diff(x, y, n) == 2 * bits_diff(x, y, m));
        let d = bits_diff(x, y, m);
        assert(d % 37 == 0) by (nonlinear_arith)
            requires
                (2 * d) % 37 == 0;
        lemma_suffix_keeps_residue(x, y, k, m);
    }
}

proof fn lemma_window_bound(x: Seq<u8>, y: Seq<u8>, lo: nat, k: nat)
    requires
        lo <= k,
        bits_agree(x, y, 0, lo as int),
    ensures
        -(pow2_of((k - lo) as nat) as int) < bits_diff(x, y, k) < pow2_of((k - lo) as nat),
    decreases k,
{
    if k == lo {
        lemma_agree_same_value(x, y, k);
    } else {
        let m = (k - 1) as nat;
        lemma_window_bound(x, y, lo, m);
        lemma_payload_bit_le_one(x, m as int);
        lemma_payload_bit_le_one(y, m as int);
        assert(pow2_of((k - lo) as nat) == 2 * pow2_of((m - lo) as nat));
    }
}

proof fn lemma_zero_window_agrees(x: Seq<u8>, y: Seq<u8>, lo: nat, k: nat)
    requires
        lo <= k,
        bits_agree(x, y, 0, lo as int),
        bits_diff(x, y, k) == 0,
    ensures
        bits_agree(x, y, lo as int, k as int),
    decreases k,
{
    if k > lo {
        let m = (k - 1) as nat;
        lemma_payload_bit_le_one(x, m as int);
        lemma_payload_bit_le_one(y, m as int);
        assert(bits_diff(x, y, k) == 2 * bits_diff(x, y, m) + payload_bit(x, m as int)
            - payload_bit(y, m as int));
        assert(payload_bit(x, m as int) == payload_bit(y, m as int));
        lemma_zero_window_agrees(x, y, lo, m);
    }
}

proof fn lemma_byte_value(x: u8)
    by (bit_vector)
    ensures
        x as u32 == ((x >> 7u8) & 1) as u32 * 128 + ((x >> 6u8) & 1) as u32 * 64 + ((x >> 5u8) & 1) as u32
            * 32 + ((x >> 4u8) & 1) as u32 * 16 + ((x >> 3u8) & 1) as u32 * 8 + ((x >> 2u8) & 1) as u32 * 4
            + ((x >> 1u8) & 1) as u32 * 2 + ((x >> 0u8) & 1) as u32,
{
}

/// The bits of a payload hold its big-endian value.
proof fn lemma_bits_value_is_be_value(b: Seq<u8>)
    ensures
        bits_value(b, 8 * b.len()) == be_value(b),
    decreases b.len(),
{
    if b.len() > 0 {
        let a = b.drop_last();
        let m = a.len() as int;
        lemma_bits_value_is_be_value(a);
        assert forall|j: int| 0 <= j < 8 * m implies #[trigger] payload_bit(b, j) == payload_bit(a, j) by {
            assert(j / 8 < m);
        }
        lemma_agree_same_value(b, a, (8 * m) as nat);
        let x = b[m];
        assert forall|t: int| 0 <= t < 8 implies #[trigger] payload_bit(b, 8 * m + t) == (x >> ((7 - t) as u8)) & 1 by {
            assert((8 * m + t) / 8 == m);
            assert((8 * m + t) % 8 == t);
        }
        assert(payload_bit(b, 8 * m + 0) == (x >> 7u8) & 1);
        assert(payload_bit(b, 8 * m + 1) == (x >> 6u8) & 1);
        assert(payload_bit(b, 8 * m + 2) == (x >> 5u8) & 1);
        assert(payload_bit(b, 8 * m + 3) == (x >> 4u8) & 1);
        assert(payload_bit(b, 8 * m + 4) == (x >> 3u8) & 1);
        assert(payload_bit(b, 8 * m + 5) == (x >> 2u8) & 1);
        assert(payload_bit(b, 8 * m + 6) == (x >> 1u8) & 1);
        assert(payload_bit(b, 8 * m + 7) == (x >> 0u8) & 1);
        lemma_byte_value(x);
        assert(8 * b.len() == 8 * m + 8);
        reveal_with_fuel(bits_value, 9);
    }
}

proof fn lemma_byte_bits_read_back(a0: u8, a1: u8, a2: u8, a3: u8, a4: u8, a5: u8, a6: u8, a7: u8)
    by (bit_vector)
    requires
        a0 <= 1, a1 <= 1, a2 <= 1, a3 <= 1, a4 <= 1, a5 <= 1, a6 <= 1, a7 <= 1,
    ensures
        (((a0 << 7u8) | (a1 << 6u8) | (a2 << 5u8) | (a3 << 4u8) | (a4 << 3u8) | (a5 << 2u8) | (a6 << 1u8) | a7) >> 7u8) & 1 == a0,
        (((a0 << 7u8) | (a1 << 6u8) | (a2 << 5u8) | (a3 << 4u8) | (a4 << 3u8) | (a5 << 2u8) | (a6 << 1u8) | a7) >> 6u8) & 1 == a1,
        (((a0 << 7u8) | (a1 << 6u8) | (a2 << 5u8) | (a3 << 4u8) | (a4 << 3u8) | (a5 << 2u8) | (a6 << 1u8) | a7) >> 5u8) & 1 == a2,
        (((a0 << 7u8) | (a1 << 6u8) | (a2 << 5u8) | (a3 << 4u8) | (a4 << 3u8) | (a5 << 2u8) | (a6 << 1u8) | a7) >> 4u8) & 1 == a3,
        (((a0 << 7u8) | (a1 << 6u8) | (a2 << 5u8) | (a3 << 4u8) | (a4 << 3u8) | (a5 << 2u8) | (a6 << 1u8) | a7) >> 3u8) & 1 == a4,
        (((a0 << 7u8) | (a1 << 6u8) | (a2 << 5u8) | (a3 << 4u8) | (a4 << 3u8) | (a5 << 2u8) | (a6 << 1u8) | a7) >> 2u8) & 1 == a5,
        (((a0 << 7u8) | (a1 << 6u8) | (a2 << 5u8) | (a3 << 4u8) | (a4 << 3u8) | (a5 << 2u8) | (a6 << 1u8) | a7) >> 1u8) & 1 == a6,
        (((a0 << 7u8) | (a1 << 6u8) | (a2 << 5u8) | (a3 << 4u8) | (a4 << 3u8) | (a5 << 2u8) | (a6 << 1u8) | a7) >> 0u8) & 1 == a7,
{
}

proof fn lemma_symbol_bit_le_one(s: Seq<char>, j: int)
    ensures
        symbol_bit(s, j) <= 1,
{
    if let Some(v) = symbol_value(s[j / 5]) {
        lemma_bit_le_one(v, (4 - j % 5) as u8);
    }
}

/// The bits of a decoded payload are the bits of the symbols.
proof fn lemma_decoded_bit(s: Seq<char>, j: int)
    requires
        decode_spec(s) is Some,
        0 <= j < 8 * (decode_spec(s)->0).len(),
    ensures
        payload_bit(decode_spec(s)->0, j) == symbol_bit(s, j),
{
    let k = j / 8;
    let t = j % 8;
    assert(j == 8 * k + t);
    let d = decode_spec(s)->0;
    assert(d[k] == decoded_byte(s, k));
    lemma_symbol_bit_le_one(s, 8 * k);
    lemma_symbol_bit_le_one(s, 8 * k + 1);
    lemma_symbol_bit_le_one(s, 8 * k + 2);
    lemma_symbol_bit_le_one(s, 8 * k + 3);
    lemma_symbol_bit_le_one(s, 8 * k + 4);
    lemma_symbol_bit_le_one(s, 8 * k + 5);
    lemma_symbol_bit_le_one(s, 8 * k + 6);
    lemma_symbol_bit_le_one(s, 8 * k + 7);
    lemma_byte_bits_read_back(
        symbol_bit(s, 8 * k),
        symbol_bit(s, 8 * k + 1),
        symbol_bit(s, 8 * k + 2),
        symbol_bit(s, 8 * k + 3),
        symbol_bit(s, 8 * k + 4),
        symbol_bit(s, 8 * k + 5),
        symbol_bit(s, 8 * k + 6),
        symbol_bit(s, 8 * k + 7),
    );
    assert(8 * k + 0 == 8 * k);
}

/// Payloads of one length whose bits all agree are equal.
proof fn lemma_bits_determine_payload(x: Seq<u8>, y: Seq<u8>)
    requires
        x.len() == y.len(),
        bits_agree(x, y, 0, (8 * x.len()) as int),
    ensures
        x == y,
{
    assert forall|k: int| 0 <= k < x.len() implies x[k] == y[k] by {
        assert forall|t: int| 0 <= t < 8 implies #[trigger] payload_bit(x, 8 * k + t) == (x[k] >> ((7
            - t) as u8)) & 1 && payload_bit(y, 8 * k + t) == (y[k] >> ((7 - t) as u8)) & 1 by {
            assert((8 * k + t) / 8 == k);
            assert((8 * k + t) % 8 == t);
        }
        assert forall|t: int| 0 <= t < 8 implies #[trigger] payload_bit(x, 8 * k + t) == payload_bit(
            y,
            8 * k + t,
        ) by {}
        assert(payload_bit(x, 8 * k + 0) == payload_bit(y, 8 * k + 0));
        assert(payload_bit(x, 8 * k + 1) == payload_bit(y, 8 * k + 1));
        assert(payload_bit(x, 8 * k + 2) == payload_bit(y, 8 * k + 2));
        assert(payload_bit(x, 8 * k + 3) == payload_bit(y, 8 * k + 3));
        assert(payload_bit(x, 8 * k + 4) == payload_bit(y, 8 * k + 4));
        assert(payload_bit(x, 8 * k + 5) == payload_bit(y, 8 * k + 5));
        assert(payload_bit(x, 8 * k + 6) == payload_bit(y, 8 * k + 6));
        assert(payload_bit(x, 8 * k + 7) == payload_bit(y, 8 * k + 7));
        assert((x[k] >> ((7 - 0) as u8)) & 1 == (y[k] >> ((7 - 0) as u8)) & 1);
        assert((x[k] >> ((7 - 1) as u8)) & 1 == (y[k] >> ((7 - 1) as u8)) & 1);
        assert((x[k] >> ((7 - 2) as u8)) & 1 == (y[k] >> ((7 - 2) as u8)) & 1);
        assert((x[k] >> ((7 - 3) as u8)) & 1 == (y[k] >> ((7 - 3) as u8)) & 1);
        assert((x[k] >> ((7 - 4) as u8)) & 1 == (y[k] >> ((7 - 4) as u8)) & 1);
        assert((x[k] >> ((7 - 5) as u8)) & 1 == (y[k] >> ((7 - 5) as u8)) & 1);
        assert((x[k] >> ((7 - 6) as u8)) & 1 == (y[k] >> ((7 - 6) as u8)) & 1);
        assert((x[k] >> ((7 - 7) as u8)) & 1 == (y[k] >> ((7 - 7) as u8)) & 1);
        lemma_byte_from_bits(x[k]);
        lemma_byte_from_bits(y[k]);
    }
    assert(x =~= y);
}

/// Two payloads of one length whose bits differ at most within five
/// consecutive places and whose values agree modulo 37 are equal.
proof fn lemma_same_residue_same_payload(x: Seq<u8>, y: Seq<u8>, lo: nat)
    requires
        x.len() == y.len(),
        bits_agree(x, y, 0, lo as int),
        bits_agree(x, y, (lo + 5) as int, (8 * x.len()) as int),
        be_value(x) % 37 == be_value(y) % 37,
    ensures
        x == y,
{
    let n = 8 * x.len();
    if lo >= n {
        lemma_bits_determine_payload(x, y);
    } else {
        let hi: nat = if lo + 5 <= n { lo + 5 } else { n };
        lemma_bits_value_is_be_value(x);
        lemma_bits_value_is_be_value(y);
        let d = bits_diff(x, y, n);
        assert(d % 37 == 0) by (nonlinear_arith)
            requires
                d == be_value(x) - be_value(y),
                be_value(x) % 37 == be_value(y) % 37;
        lemma_suffix_keeps_residue(x, y, hi, n);
        lemma_window_bound(x, y, lo, hi);
        reveal_with_fuel(pow2_of, 6);
        assert(pow2_of((hi - lo) as nat) <= 32);
        let dh = bits_diff(x, y, hi);
        assert(dh == 0) by (nonlinear_arith)
            requires
                -32 < dh < 32,
                dh % 37 == 0;
        lemma_zero_window_agrees(x, y, lo, hi);
        assert(bits_agree(x, y, 0, n as int));
        lemma_bits_determine_payload(x, y);
    }
}

/// Distinct checksum values have distinct symbols.
proof fn lemma_symbol_char_injective(x: int, y: int)
    requires
        0 <= x < 37,
        0 <= y < 37,
        symbol_char(x) == symbol_char(y),
    ensures
        x == y,
{
    assert(x == 0 || x == 1 || x == 2 || x == 3 || x == 4 || x == 5 || x == 6 || x == 7 || x == 8
        || x == 9 || x == 10 || x == 11 || x == 12 || x == 13 || x == 14 || x == 15 || x == 16 || x
        == 17 || x == 18 || x == 19 || x == 20 || x == 21 || x == 22 || x == 23 || x == 24 || x == 25
        || x == 26 || x == 27 || x == 28 || x == 29 || x == 30 || x == 31 || x == 32 || x == 33 || x
        == 34 || x == 35 || x == 36);
}

/// Replacing symbol `p` of a decodable text changes at most the five bits
/// that it carries.
proof fn lemma_edit_keeps_other_bits(u: Seq<char>, p: int, c: char)
    requires
        0 <= p < u.len(),
        decode_spec(u) is Some,
        decode_spec(u.update(p, c)) is Some,
    ensures
        ({
            let d = decode_spec(u.update(p, c))->0;
            let b = decode_spec(u)->0;
            &&& d.len() == b.len()
            &&& bits_agree(d, b, 0, 5 * p)
            &&& bits_agree(d, b, 5 * p + 5, (8 * b.len()) as int)
        }),
{
    let u2 = u.update(p, c);
    let d = decode_spec(u2)->0;
    let b = decode_spec(u)->0;
    let l = u.len();
    assert(8 * (l * 5 / 8) <= 5 * l) by (nonlinear_arith);
    assert forall|j: int| 0 <= j < 8 * b.len() && j / 5 != p implies #[trigger] payload_bit(d, j)
        == payload_bit(b, j) by {
        lemma_decoded_bit(u2, j);
        lemma_decoded_bit(u, j);
        assert(j / 5 < l);
        assert(u2[j / 5] == u[j / 5]);
    }
    assert forall|j: int| 0 <= j < 5 * p implies #[trigger] payload_bit(d, j) == payload_bit(b, j) by {
        if j < 8 * b.len() {
            assert(j / 5 < p);
        }
    }
    assert forall|j: int| 5 * p + 5 <= j < 8 * b.len() implies #[trigger] payload_bit(d, j)
        == payload_bit(b, j) by {
        assert(j / 5 > p);
    }
}

proof fn lemma_five_bits_determine(x: u8, y: u8)
    by (bit_vector)
    requires
        x < 32,
        y < 32,
        (x >> 4u8) & 1 == (y >> 4u8) & 1,
        (x >> 3u8) & 1 == (y >> 3u8) & 1,
        (x >> 2u8) & 1 == (y >> 2u8) & 1,
        (x >> 1u8) & 1 == (y >> 1u8) & 1,
        (x >> 0u8) & 1 == (y >> 0u8) & 1,
    ensures
        x == y,
{
}

proof fn lemma_symbol_value_bound(c: char)
    ensures
        symbol_value(c) matches Some(v) ==> v < 32,
        symbol_value(ascii_upper(c)) == symbol_value(c),
{
}

/// Changing one body character of any text that parses never yields another
/// identifier: the edited text is rejected as `InvalidEncoding` or
/// `ChecksumMismatch`, or it parses to the same payload (a change of case, a
/// confusable letter, or bits past the payload's end). A changed symbol shifts
/// the payload's value by a power of two times a non-zero number below 32,
/// which 37 never divides.
pub proof fn law_single_edit_detected(s: Seq<char>, width: nat, b: Seq<u8>, p: int, c: char)
    requires
        parse_spec(s, width) == Ok::<Seq<u8>, UuidError>(b),
        0 <= p < s.len() - 1,
    ensures
        parse_spec(s.update(p, c), width) == Err::<Seq<u8>, UuidError>(UuidError::InvalidEncoding)
            || parse_spec(s.update(p, c), width) == Err::<Seq<u8>, UuidError>(
            UuidError::ChecksumMismatch,
        ) || parse_spec(s.update(p, c), width) == Ok::<Seq<u8>, UuidError>(b),
{
    let t = s.update(p, c);
    let us = upper_seq(s);
    let ut = upper_seq(t);
    assert(ut =~= us.update(p, ascii_upper(c)));
    let body_s = us.drop_last();
    let body_t = ut.drop_last();
    assert(body_t =~= body_s.update(p, ascii_upper(c)));
    assert(ut.last() == us.last());
    assert(us.last() == symbol_char(checksum_spec(b) as int));
    assert(decode_spec(body_s) == Some(b));
    if let Some(d) = decode_spec(body_t) {
        if symbol_char(checksum_spec(d) as int) == ut.last() {
            lemma_symbol_char_injective(checksum_spec(d) as int, checksum_spec(b) as int);
            lemma_edit_keeps_other_bits(body_s, p, ascii_upper(c));
            lemma_same_residue_same_payload(d, b, (5 * p) as nat);
        }
    }
}

/// Where the payload fills the symbols exactly (`8 * width` a multiple of 5),
/// replacing one body character of a text that parses by a symbol of another
/// value always gives `ChecksumMismatch`.
pub proof fn law_changed_symbol_mismatch(s: Seq<char>, width: nat, b: Seq<u8>, p: int, c: char)
    requires
        parse_spec(s, width) == Ok::<Seq<u8>, UuidError>(b),
        0 <= p < s.len() - 1,
        (8 * width) % 5 == 0,
        symbol_value(c) is Some,
        symbol_value(c) != symbol_value(s[p]),
    ensures
        parse_spec(s.update(p, c), width) == Err::<Seq<u8>, UuidError>(UuidError::ChecksumMismatch),
{
    law_single_edit_detected(s, width, b, p, c);
    let t = s.update(p, c);
    let us = upper_seq(s);
    let ut = upper_seq(t);
    assert(ut =~= us.update(p, ascii_upper(c)));
    let body_s = us.drop_last();
    let body_t = ut.drop_last();
    assert(body_t =~= body_s.update(p, ascii_upper(c)));
    assert(decode_spec(body_s) == Some(b));
    lemma_symbol_value_bound(c);
    lemma_symbol_value_bound(s[p]);
    assert(body_s[p] == ascii_upper(s[p]));
    assert forall|i: int| 0 <= i < body_t.len() implies (#[trigger] symbol_value(body_t[i])) is Some by {
        if i != p {
            assert(body_t[i] == body_s[i]);
        }
    }
    assert(decode_spec(body_t) is Some);
    if parse_spec(t, width) == Ok::<Seq<u8>, UuidError>(b) {
        let vs = symbol_value(body_s[p])->0;
        let vt = symbol_value(body_t[p])->0;
        let l = body_s.len() as int;
        assert(l == encoded_len(width));
        assert(5 * p + 5 <= 8 * width) by (nonlinear_arith)
            requires
                0 <= p < l,
                l == (8 * width + 4) / 5,
                (8 * width) % 5 == 0;
        lemma_encoded_len_bytes(width);
        assert(b.len() == width);
        lemma_edit_keeps_other_bits(body_s, p, ascii_upper(c));
        assert forall|k: int| 0 <= k < 5 implies #[trigger] symbol_bit(body_t, 5 * p + k)
            == symbol_bit(body_s, 5 * p + k) by {
            lemma_decoded_bit(body_t, 5 * p + k);
            lemma_decoded_bit(body_s, 5 * p + k);
            assert((5 * p + k) / 5 == p);
            assert((5 * p + k) % 5 == k);
        }
        assert(symbol_bit(body_t, 5 * p + 0) == symbol_bit(body_s, 5 * p + 0));
        assert(5 * p + 0 == 5 * p);
        assert(symbol_bit(body_t, 5 * p + 1) == symbol_bit(body_s, 5 * p + 1));
        assert(symbol_bit(body_t, 5 * p + 2) == symbol_bit(body_s, 5 * p + 2));
        assert(symbol_bit(body_t, 5 * p + 3) == symbol_bit(body_s, 5 * p + 3));
        assert(symbol_bit(body_t, 5 * p + 4) == symbol_bit(body_s, 5 * p + 4));
        lemma_five_bits_determine(vt, vs);
        assert(false);
    }
}

} // verus!
