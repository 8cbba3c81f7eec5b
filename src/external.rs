//! The calls into outside crates, with what the library relies on of each.
use vstd::prelude::*;
use crate::model::{be_value, decode_spec, encode_spec};

verus! {

#[verifier::external_type_specification]
#[verifier::external_body]
pub struct ExBytesMut(bytes::BytesMut);

#[verifier::external_type_specification]
#[verifier::external_body]
pub struct ExUnspecified(ring::error::Unspecified);

/// What a `bytes::BytesMut` buffer holds.
pub uninterp spec fn buf_contents(b: bytes::BytesMut) -> Seq<u8>;

/// Relies on `impl From<&[u8]> for bytes::BytesMut`: the buffer holds a copy
/// of the slice.
#[verifier::external_body]
pub(crate) fn buf_from_slice(s: &[u8]) -> (r: bytes::BytesMut)
    ensures
        buf_contents(r) == s@,
{
    bytes::BytesMut::from(s)
}

/// Relies on `Deref<Target = [u8]>` of `bytes::BytesMut`: the slice is the
/// buffer's contents.
#[verifier::external_body]
pub(crate) fn buf_as_slice(b: &bytes::BytesMut) -> (r: &[u8])
    ensures
        r@ == buf_contents(*b),
{
    &b[..]
}

/// Relies on `num_bigint::BigUint::from_bytes_be`, which reads the bytes as a
/// big-endian number, and on its `%` by a `u32`, whose remainder is below the
/// modulus and so converts to `u32`.
#[verifier::external_body]
pub(crate) fn be_value_mod(b: &[u8], m: u32) -> (r: u32)
    requires
        m > 0,
    ensures
        r as nat == be_value(b@) % (m as nat),
{
    let rem = num_bigint::BigUint::from_bytes_be(b) % m;
    u32::try_from(&rem).unwrap()
}

/// Relies on `base32::encode` with `Alphabet::Crockford`: five bits per
/// symbol, most significant first, the last group padded with zero bits, upper
/// case, no padding symbols.
#[verifier::external_body]
pub(crate) fn crockford_encode(data: &[u8]) -> (r: String)
    ensures
        r@ == encode_spec(data@),
{
    base32::encode(base32::Alphabet::Crockford, data)
}

/// Relies on `base32::decode` with `Alphabet::Crockford`: `None` when a
/// character is outside the alphabet (any case, `O`, `I`, `L` accepted as
/// `0`, `1`, `1`); else the whole bytes of the bit stream.
#[verifier::external_body]
pub(crate) fn crockford_decode(text: &str) -> (r: Option<Vec<u8>>)
    ensures
        match r {
            Some(v) => decode_spec(text@) == Some(v@),
            None => decode_spec(text@) is None,
        },
{
    base32::decode(base32::Alphabet::Crockford, text)
}

/// Relies on `ring::rand::SystemRandom::fill`: it overwrites the buffer in
/// place from the operating system's secure generator, or fails with
/// `Unspecified`; the buffer keeps its length either way.
#[verifier::external_body]
pub(crate) fn fill_secure(buf: &mut Vec<u8>) -> (r: Result<(), ring::error::Unspecified>)
    ensures
        final(buf)@.len() == old(buf)@.len(),
{
    ring::rand::SecureRandom::fill(&ring::rand::SystemRandom::new(), buf.as_mut_slice())
}

/// Relies on `String: FromIterator<char>`: the string holds the characters
/// in order.
#[verifier::external_body]
pub(crate) fn string_from_chars(cs: &[char]) -> (r: String)
    ensures
        r@ == cs@,
{
    cs.iter().collect()
}

/// Relies on `String::push`: the character is appended.
#[verifier::external_body]
pub(crate) fn push_char(s: String, c: char) -> (r: String)
    ensures
        r@ == s@.push(c),
{
    let mut s = s;
    s.push(c);
    s
}

} // verus!
