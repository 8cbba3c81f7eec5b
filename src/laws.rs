//! Properties of the textual form, proved over the model.
use vstd::prelude::*;
use crate::codec::UuidError;
use crate::model::{
    all_symbols, ascii_upper, be_value, canonical, canonical_len_spec, checksum_spec, decode_spec,
    decoded_byte, minimal_be, encode_spec, encoded_len, group, lower_seq, parse_spec, payload_bit, symbol_bit,
    symbol_char, symbol_value, upper_seq, zeros,
};

verus! {

pub(crate) proof fn lemma_byte_from_bits(x: u8)
    by (bit_vector)
    ensures
        x == (((x >> 7u8) & 1) << 7u8) | (((x >> 6u8) & 1) << 6u8) | (((x >> 5u8) & 1) << 5u8) | (((
        x >> 4u8) & 1) << 4u8) | (((x >> 3u8) & 1) << 3u8) | (((x >> 2u8) & 1) << 2u8) | (((x >> 1u8)
            & 1) << 1u8) | ((x >> 0u8) & 1),
{
}

pub(crate) proof fn lemma_bit_le_one(x: u8, k: u8)
    by (bit_vector)
    ensures
        (x >> k) & 1 <= 1,
{
}

proof fn lemma_group_bits(a0: u8, a1: u8, a2: u8, a3: u8, a4: u8)
    by (bit_vector)
    requires
        a0 <= 1,
        a1 <= 1,
        a2 <= 1,
        a3 <= 1,
        a4 <= 1,
    ensures
        ((a0 << 4u8) | (a1 << 3u8) | (a2 << 2u8) | (a3 << 1u8) | a4) < 32,
        (((a0 << 4u8) | (a1 << 3u8) | (a2 << 2u8) | (a3 << 1u8) | a4) >> 4u8) & 1 == a0,
        (((a0 << 4u8) | (a1 << 3u8) | (a2 << 2u8) | (a3 << 1u8) | a4) >> 3u8) & 1 == a1,
        (((a0 << 4u8) | (a1 << 3u8) | (a2 << 2u8) | (a3 << 1u8) | a4) >> 2u8) & 1 == a2,
        (((a0 << 4u8) | (a1 << 3u8) | (a2 << 2u8) | (a3 << 1u8) | a4) >> 1u8) & 1 == a3,
        (((a0 << 4u8) | (a1 << 3u8) | (a2 << 2u8) | (a3 << 1u8) | a4) >> 0u8) & 1 == a4,
{
}

pub(crate) proof fn lemma_payload_bit_le_one(b: Seq<u8>, j: int)
    ensures
        payload_bit(b, j) <= 1,
{
    if 0 <= j < 8 * b.len() {
        lemma_bit_le_one(b[j / 8], (7 - j % 8) as u8);
    }
}

proof fn lemma_group_facts(b: Seq<u8>, i: int)
    ensures
        group(b, i) < 32,
        (group(b, i) >> 4u8) & 1 == payload_bit(b, 5 * i),
        (group(b, i) >> 3u8) & 1 == payload_bit(b, 5 * i + 1),
        (group(b, i) >> 2u8) & 1 == payload_bit(b, 5 * i + 2),
        (group(b, i) >> 1u8) & 1 == payload_bit(b, 5 * i + 3),
        (group(b, i) >> 0u8) & 1 == payload_bit(b, 5 * i + 4),
{
    lemma_payload_bit_le_one(b, 5 * i);
    lemma_payload_bit_le_one(b, 5 * i + 1);
    lemma_payload_bit_le_one(b, 5 * i + 2);
    lemma_payload_bit_le_one(b, 5 * i + 3);
    lemma_payload_bit_le_one(b, 5 * i + 4);
    lemma_group_bits(
        payload_bit(b, 5 * i),
        payload_bit(b, 5 * i + 1),
        payload_bit(b, 5 * i + 2),
        payload_bit(b, 5 * i + 3),
        payload_bit(b, 5 * i + 4),
    );
}

/// Each of the first 32 check symbols reads back as its own index.
proof fn lemma_symbol_value_of_char(v: int)
    requires
        0 <= v < 32,
    ensures
        symbol_value(symbol_char(v)) == Some(v as u8),
{
    assert(v == 0 || v == 1 || v == 2 || v == 3 || v == 4 || v == 5 || v == 6 || v == 7 || v == 8
        || v == 9 || v == 10 || v == 11 || v == 12 || v == 13 || v == 14 || v == 15 || v == 16 || v
        == 17 || v == 18 || v == 19 || v == 20 || v == 21 || v == 22 || v == 23 || v == 24 || v == 25
        || v == 26 || v == 27 || v == 28 || v == 29 || v == 30 || v == 31);
}

/// No check symbol is a lower-case letter.
proof fn lemma_symbol_char_upper(v: int)
    ensures
        ascii_upper(symbol_char(v)) == symbol_char(v),
{
}

pub(crate) proof fn lemma_encode_symbol_bit(b: Seq<u8>, j: int)
    requires
        0 <= j < 5 * encoded_len(b.len()),
    ensures
        symbol_bit(encode_spec(b), j) == payload_bit(b, j),
{
    let i = j / 5;
    let t = j % 5;
    assert(j == 5 * i + t);
    lemma_group_facts(b, i);
    lemma_symbol_value_of_char(group(b, i) as int);
    assert(encode_spec(b)[i] == symbol_char(group(b, i) as int));
}

pub(crate) proof fn lemma_encoded_len_bytes(n: nat)
    ensures
        encoded_len(n) * 5 / 8 == n,
        8 * n <= 5 * encoded_len(n),
{
    let l = encoded_len(n);
    assert(5 * l <= 8 * n + 4 && 8 * n <= 5 * l) by (nonlinear_arith)
        requires
            l == (8 * n + 4) / 5;
    assert(l * 5 / 8 == n) by (nonlinear_arith)
        requires
            5 * l <= 8 * n + 4,
            8 * n <= 5 * l;
}

/// Decoding undoes encoding, for payloads of every length.
pub proof fn lemma_decode_encode(b: Seq<u8>)
    ensures
        decode_spec(encode_spec(b)) == Some(b),
{
    let e = encode_spec(b);
    assert forall|i: int| 0 <= i < e.len() implies (#[trigger] symbol_value(e[i])) is Some by {
        lemma_group_facts(b, i);
        lemma_symbol_value_of_char(group(b, i) as int);
    }
    assert(all_symbols(e));
    lemma_encoded_len_bytes(b.len());
    let d = Seq::new(e.len() * 5 / 8, |k: int| decoded_byte(e, k));
    assert forall|k: int| 0 <= k < b.len() implies d[k] == b[k] by {
        assert forall|t: int| 0 <= t < 8 implies #[trigger] symbol_bit(e, 8 * k + t) == (b[k] >> ((7 - t) as u8))
            & 1 by {
            lemma_encode_symbol_bit(b, 8 * k + t);
            assert((8 * k + t) / 8 == k);
            assert((8 * k + t) % 8 == t);
        }
        assert(symbol_bit(e, 8 * k + 0) == (b[k] >> ((7 - 0) as u8)) & 1);
        assert(8 * k + 0 == 8 * k);
        assert(symbol_bit(e, 8 * k) == (b[k] >> 7u8) & 1);
        assert(symbol_bit(e, 8 * k + 1) == (b[k] >> 6u8) & 1);
        assert(symbol_bit(e, 8 * k + 2) == (b[k] >> 5u8) & 1);
        assert(symbol_bit(e, 8 * k + 3) == (b[k] >> 4u8) & 1);
        assert(symbol_bit(e, 8 * k + 4) == (b[k] >> 3u8) & 1);
        assert(symbol_bit(e, 8 * k + 5) == (b[k] >> 2u8) & 1);
        assert(symbol_bit(e, 8 * k + 6) == (b[k] >> 1u8) & 1);
        assert(symbol_bit(e, 8 * k + 7) == (b[k] >> 0u8) & 1);
        lemma_byte_from_bits(b[k]);
    }
    assert(d =~= b);
}

/// Parsing the canonical form of a payload, at the payload's width, gives
/// back that payload.
pub proof fn law_parse_round_trip(b: Seq<u8>)
    ensures
        parse_spec(canonical(b), b.len()) == Ok::<Seq<u8>, UuidError>(b),
{
    let s = canonical(b);
    let u = upper_seq(s);
    lemma_canonical_upper(b);
    assert(u.drop_last() =~= encode_spec(b));
    lemma_decode_encode(b);
    assert(u.last() == symbol_char(checksum_spec(b) as int));
    assert(s.len() == canonical_len_spec(b.len()));
    assert(decode_spec(u.drop_last()) == Some(b));
}

/// The canonical form is already upper case.
pub(crate) proof fn lemma_canonical_upper(b: Seq<u8>)
    ensures
        upper_seq(canonical(b)) == canonical(b),
{
    let s = canonical(b);
    let u = upper_seq(s);
    assert forall|i: int| 0 <= i < s.len() implies u[i] == s[i] by {
        if i < s.len() - 1 {
            lemma_symbol_char_upper(group(b, i) as int);
        } else {
            lemma_symbol_char_upper(checksum_spec(b) as int);
        }
    }
    assert(u =~= s);
}

/// Re-serialising what the canonical form parses to gives the same text.
pub proof fn law_parse_idempotent(b: Seq<u8>)
    ensures
        parse_spec(canonical(b), b.len()) matches Ok(c) && canonical(c) == canonical(b),
{
    law_parse_round_trip(b);
}

/// Parsing ignores ASCII case.
pub proof fn law_parse_case_insensitive(s: Seq<char>, width: nat)
    ensures
        parse_spec(lower_seq(s), width) == parse_spec(s, width),
{
    assert(upper_seq(lower_seq(s)) =~= upper_seq(s));
}

/// A text of any other length than the canonical one is rejected with
/// `InvalidLength`, whatever it holds.
pub proof fn law_length_rejected(s: Seq<char>, width: nat)
    requires
        s.len() != canonical_len_spec(width),
    ensures
        parse_spec(s, width) == Err::<Seq<u8>, UuidError>(UuidError::InvalidLength),
{
}

/// Every payload of at least one byte survives the integer form: padding its
/// shortest big-endian form back to the payload's width gives the payload.
pub proof fn law_integer_round_trip(b: Seq<u8>)
    requires
        b.len() > 0,
    ensures
        minimal_be(b).len() <= b.len(),
        zeros((b.len() - minimal_be(b).len()) as nat) + minimal_be(b) == b,
    decreases b.len(),
{
    if b.len() > 1 && b[0] == 0 {
        let t = b.drop_first();
        law_integer_round_trip(t);
        assert(minimal_be(b) == minimal_be(t));
        let k = (t.len() - minimal_be(t).len()) as nat;
        assert(zeros(k + 1) + minimal_be(t) =~= seq![0u8] + (zeros(k) + minimal_be(t)));
        assert(b =~= seq![0u8] + t);
    } else {
        assert(zeros(0) + b =~= b);
    }
}

/// Leading zero bytes do not change a big-endian value.
pub proof fn law_padding_keeps_value(k: nat, t: Seq<u8>)
    ensures
        be_value(zeros(k) + t) == be_value(t),
    decreases k,
{
    if k > 0 {
        law_padding_keeps_value((k - 1) as nat, t);
        assert(zeros(k) + t =~= seq![0u8] + (zeros((k - 1) as nat) + t));
        lemma_leading_zero_value(zeros((k - 1) as nat) + t);
    } else {
        assert(zeros(0) + t =~= t);
    }
}

/// A payload of more than one byte that starts with a zero byte loses it in
/// the integer form, which is then shorter than the payload.
pub proof fn law_integer_drops_leading_zero(b: Seq<u8>)
    requires
        b.len() > 1,
        b[0] == 0,
    ensures
        minimal_be(b).len() < b.len(),
    decreases b.len(),
{
    let t = b.drop_first();
    assert(minimal_be(b) == minimal_be(t));
    if t.len() > 1 && t[0] == 0 {
        law_integer_drops_leading_zero(t);
    } else {
        assert(minimal_be(t) == t);
    }
}

proof fn lemma_leading_zero_value(t: Seq<u8>)
    ensures
        be_value(seq![0u8] + t) == be_value(t),
    decreases t.len(),
{
    let z = seq![0u8] + t;
    if t.len() == 0 {
        assert(z.drop_last() =~= Seq::<u8>::empty());
        assert(z.last() == 0);
        assert(be_value(z) == be_value(z.drop_last()) * 256 + z.last() as nat);
    } else {
        assert(z.drop_last() =~= seq![0u8] + t.drop_last());
        assert(z.last() == t.last());
        lemma_leading_zero_value(t.drop_last());
        assert(be_value(z) == be_value(z.drop_last()) * 256 + z.last() as nat);
        assert(be_value(t) == be_value(t.drop_last()) * 256 + t.last() as nat);
    }
}

/// The integer form keeps the number: the shortest big-endian form of a
/// payload has the payload's value.
pub proof fn law_integer_value(b: Seq<u8>)
    ensures
        be_value(minimal_be(b)) == be_value(b),
    decreases b.len(),
{
    if b.len() == 0 {
        lemma_leading_zero_value(b);
        assert(seq![0u8] + b =~= seq![0u8]);
    } else if b.len() > 1 && b[0] == 0 {
        law_integer_value(b.drop_first());
        assert(b =~= seq![0u8] + b.drop_first());
        lemma_leading_zero_value(b.drop_first());
    }
}

} // verus!
