//! Checksum derivation and the Crockford Base32 text codec.
use vstd::prelude::*;
use crate::external::{be_value_mod, crockford_decode, crockford_encode, push_char, string_from_chars};
use crate::laws::lemma_encoded_len_bytes;
use crate::model::{ascii_upper, canonical, canonical_len_spec, parse_spec, upper_seq, checksum_spec, decode_spec, encode_spec, symbol_char, CHECK_MODULUS};

verus! {

/// Why an identifier could not be made.
#[derive(Clone, Copy, Debug, PartialEq, Eq, Structural)]
pub enum UuidError {
    /// The secure random source failed.
    EntropyUnavailable,
    /// The text, or the integer's byte form, has the wrong length.
    InvalidLength,
    /// The body holds a character outside the Crockford alphabet.
    InvalidEncoding,
    /// The body decodes, but the last character is not its check symbol.
    ChecksumMismatch,
}

/// The payload read as a big-endian integer, modulo 37.
pub fn derive_checksum(payload: &[u8]) -> (r: u8)
    ensures
        r == checksum_spec(payload@),
        r < 37,
{
    let v = be_value_mod(payload, CHECK_MODULUS as u32);
    v as u8
}

/// The check symbol of a checksum value.
pub fn checksum_symbol(v: u8) -> (c: char)
    requires
        v < 37,
    ensures
        c == symbol_char(v as int),
{
    if v == 0 { '0' } else if v == 1 { '1' } else if v == 2 { '2' } else if v == 3 { '3' }
    else if v == 4 { '4' } else if v == 5 { '5' } else if v == 6 { '6' } else if v == 7 { '7' }
    else if v == 8 { '8' } else if v == 9 { '9' } else if v == 10 { 'A' } else if v == 11 { 'B' }
    else if v == 12 { 'C' } else if v == 13 { 'D' } else if v == 14 { 'E' } else if v == 15 { 'F' }
    else if v == 16 { 'G' } else if v == 17 { 'H' } else if v == 18 { 'J' } else if v == 19 { 'K' }
    else if v == 20 { 'M' } else if v == 21 { 'N' } else if v == 22 { 'P' } else if v == 23 { 'Q' }
    else if v == 24 { 'R' } else if v == 25 { 'S' } else if v == 26 { 'T' } else if v == 27 { 'V' }
    else if v == 28 { 'W' } else if v == 29 { 'X' } else if v == 30 { 'Y' } else if v == 31 { 'Z' }
    else if v == 32 { '*' } else if v == 33 { '~' } else if v == 34 { '$' } else if v == 35 { '=' }
    else { 'U' }
}

/// Crockford Base32 encoding of a payload, upper case and unpadded.
pub fn encode(payload: &[u8]) -> (r: String)
    ensures
        r@ == encode_spec(payload@),
{
    crockford_encode(payload)
}

/// Crockford Base32 decoding; fails with `InvalidEncoding` exactly when a
/// character is not a symbol.
pub fn decode(text: &str) -> (r: Result<Vec<u8>, UuidError>)
    ensures
        match r {
            Ok(v) => decode_spec(text@) == Some(v@),
            Err(e) => decode_spec(text@) is None && e == UuidError::InvalidEncoding,
        },
{
    match crockford_decode(text) {
        Some(v) => Ok(v),
        None => Err(UuidError::InvalidEncoding),
    }
}

/// Length of the textual form of an identifier of `width` bytes: the
/// ceiling of `8 * width / 5` symbols and one check symbol.
pub fn canonical_len(width: usize) -> (r: usize)
    requires
        width <= usize::MAX / 8,
    ensures
        r == canonical_len_spec(width as nat),
{
    (width * 8 + 4) / 5 + 1
}

/// ASCII upper-casing of one character.
pub fn upper_char(c: char) -> (r: char)
    ensures
        r == ascii_upper(c),
{
    if 'a' <= c && c <= 'z' {
        ((c as u8) - 32) as char
    } else {
        c
    }
}

/// The characters of a string.
pub fn chars_of(s: &str) -> (r: Vec<char>)
    ensures
        r@ == s@,
{
    let mut r: Vec<char> = Vec::new();
    for c in it: s.chars()
        invariant
            r@ == it.seq().take(it.index() as int),
    {
        r.push(c);
    }
    r
}

/// Parses the textual form of an identifier of `width` bytes into its payload.
pub fn parse_payload(value: &str, width: usize) -> (r: Result<Vec<u8>, UuidError>)
    requires
        width <= usize::MAX / 8,
    ensures
        match r {
            Ok(p) => parse_spec(value@, width as nat) == Ok::<Seq<u8>, UuidError>(p@) && p@.len()
                == width,
            Err(e) => parse_spec(value@, width as nat) == Err::<Seq<u8>, UuidError>(e),
        },
{
    let expected = canonical_len(width);
    let chars = chars_of(value);
    if chars.len() != expected {
        return Err(UuidError::InvalidLength);
    }
    let ghost up = upper_seq(value@);
    let mut body: Vec<char> = Vec::new();
    let mut i: usize = 0;
    while i + 1 < expected
        invariant
            chars@ == value@,
            expected == chars@.len(),
            expected >= 1,
            i + 1 <= expected,
            body@ == up.take(i as int),
            up == upper_seq(value@),
        decreases expected - i,
    {
        proof {
            assert(up[i as int] == ascii_upper(value@[i as int]));
        }
        body.push(upper_char(chars[i]));
        i = i + 1;
        proof {
            assert(body@ =~= up.take(i as int));
        }
    }
    let last = upper_char(chars[expected - 1]);
    proof {
        assert(body@ =~= up.drop_last());
    }
    let text = string_from_chars(body.as_slice());
    match decode(text.as_str()) {
        Err(e) => Err(e),
        Ok(payload) => {
            let checksum = derive_checksum(payload.as_slice());
            if checksum_symbol(checksum) == last {
                proof {
                    lemma_encoded_len_bytes(width as nat);
                }
                Ok(payload)
            } else {
                Err(UuidError::ChecksumMismatch)
            }
        },
    }
}

/// The canonical textual form of a payload: its encoding and its check
/// symbol.
pub fn canonical_text(payload: &[u8]) -> (r: String)
    ensures
        r@ == canonical(payload@),
{
    push_char(encode(payload), checksum_symbol(derive_checksum(payload)))
}

} // verus!
