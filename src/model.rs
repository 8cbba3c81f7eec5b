//! The mathematical model of payloads, symbols and the textual form.
use vstd::prelude::*;
use crate::codec::UuidError;

verus! {

/// Number of symbols of the check alphabet; also the checksum modulus.
pub const CHECK_MODULUS: u8 = 37;

/// The value of a byte sequence read as a big-endian unsigned integer.
pub open spec fn be_value(b: Seq<u8>) -> nat
    decreases b.len(),
{
    if b.len() == 0 {
        0
    } else {
        be_value(b.drop_last()) * 256 + b.last() as nat
    }
}

/// The check symbol of a payload.
pub open spec fn checksum_spec(b: Seq<u8>) -> u8 {
    (be_value(b) % 37) as u8
}

/// The 37-symbol check alphabet. Its first 32 symbols are the Crockford
/// Base32 alphabet, in order.
pub open spec fn symbol_char(v: int) -> char {
    if v == 0 { '0' } else if v == 1 { '1' } else if v == 2 { '2' } else if v == 3 { '3' }
    else if v == 4 { '4' } else if v == 5 { '5' } else if v == 6 { '6' } else if v == 7 { '7' }
    else if v == 8 { '8' } else if v == 9 { '9' } else if v == 10 { 'A' } else if v == 11 { 'B' }
    else if v == 12 { 'C' } else if v == 13 { 'D' } else if v == 14 { 'E' } else if v == 15 { 'F' }
    else if v == 16 { 'G' } else if v == 17 { 'H' } else if v == 18 { 'J' } else if v == 19 { 'K' }
    else if v == 20 { 'M' } else if v == 21 { 'N' } else if v == 22 { 'P' } else if v == 23 { 'Q' }
    else if v == 24 { 'R' } else if v == 25 { 'S' } else if v == 26 { 'T' } else if v == 27 { 'V' }
    else if v == 28 { 'W' } else if v == 29 { 'X' } else if v == 30 { 'Y' } else if v == 31 { 'Z' }
    else if v == 32 { '*' } else if v == 33 { '~' } else if v == 34 { '$' } else if v == 35 { '=' }
    else { 'U' }
}

/// ASCII upper-casing of one character; any other character is kept.
pub open spec fn ascii_upper(c: char) -> char {
    if 'a' <= c && c <= 'z' {
        ((c as u32) - 32) as char
    } else {
        c
    }
}

/// ASCII lower-casing of one character; any other character is kept.
pub open spec fn ascii_lower(c: char) -> char {
    if 'A' <= c && c <= 'Z' {
        ((c as u32) + 32) as char
    } else {
        c
    }
}

/// ASCII upper-casing of a string.
pub open spec fn upper_seq(s: Seq<char>) -> Seq<char> {
    s.map_values(|c: char| ascii_upper(c))
}

/// ASCII lower-casing of a string.
pub open spec fn lower_seq(s: Seq<char>) -> Seq<char> {
    s.map_values(|c: char| ascii_lower(c))
}

/// The 5-bit value of a Crockford symbol, read case-insensitively, with the
/// confusable letters `O`, `I` and `L` read as `0`, `1` and `1`.
pub open spec fn symbol_value(c: char) -> Option<u8> {
    let u = ascii_upper(c);
    if '0' <= u && u <= '9' { Some((u as u32 - '0' as u32) as u8) }
    else if u == 'O' { Some(0) } else if u == 'I' || u == 'L' { Some(1) }
    else if u == 'A' { Some(10) } else if u == 'B' { Some(11) } else if u == 'C' { Some(12) }
    else if u == 'D' { Some(13) } else if u == 'E' { Some(14) } else if u == 'F' { Some(15) }
    else if u == 'G' { Some(16) } else if u == 'H' { Some(17) } else if u == 'J' { Some(18) }
    else if u == 'K' { Some(19) } else if u == 'M' { Some(20) } else if u == 'N' { Some(21) }
    else if u == 'P' { Some(22) } else if u == 'Q' { Some(23) } else if u == 'R' { Some(24) }
    else if u == 'S' { Some(25) } else if u == 'T' { Some(26) } else if u == 'V' { Some(27) }
    else if u == 'W' { Some(28) } else if u == 'X' { Some(29) } else if u == 'Y' { Some(30) }
    else if u == 'Z' { Some(31) } else { None }
}

/// Bit `j` of a payload, counted from the most significant bit of its first
/// byte; bits past the end read as zero.
pub open spec fn payload_bit(b: Seq<u8>, j: int) -> u8 {
    if 0 <= j < 8 * b.len() {
        (b[j / 8] >> ((7 - j % 8) as u8)) & 1
    } else {
        0
    }
}

/// The 5-bit group that symbol `i` of the encoding carries.
pub open spec fn group(b: Seq<u8>, i: int) -> u8 {
    (payload_bit(b, 5 * i) << 4u8) | (payload_bit(b, 5 * i + 1) << 3u8) | (payload_bit(b, 5 * i + 2)
        << 2u8) | (payload_bit(b, 5 * i + 3) << 1u8) | payload_bit(b, 5 * i + 4)
}

/// Number of symbols needed for `n` bytes: the ceiling of `8n / 5`.
pub open spec fn encoded_len(n: nat) -> nat {
    (8 * n + 4) / 5
}

/// Unpadded Crockford Base32 encoding, upper case.
pub open spec fn encode_spec(b: Seq<u8>) -> Seq<char> {
    Seq::new(encoded_len(b.len()), |i: int| symbol_char(group(b, i) as int))
}

/// Every character is a Crockford symbol.
pub open spec fn all_symbols(s: Seq<char>) -> bool {
    forall|i: int| 0 <= i < s.len() ==> (#[trigger] symbol_value(s[i])) is Some
}

/// Bit `j` of the bit stream that a symbol string carries, five per symbol.
pub open spec fn symbol_bit(s: Seq<char>, j: int) -> u8 {
    match symbol_value(s[j / 5]) {
        Some(v) => (v >> ((4 - j % 5) as u8)) & 1,
        None => 0,
    }
}

/// Byte `k` of a decoded symbol string.
pub open spec fn decoded_byte(s: Seq<char>, k: int) -> u8 {
    (symbol_bit(s, 8 * k) << 7u8) | (symbol_bit(s, 8 * k + 1) << 6u8) | (symbol_bit(s, 8 * k + 2)
        << 5u8) | (symbol_bit(s, 8 * k + 3) << 4u8) | (symbol_bit(s, 8 * k + 4) << 3u8) | (
    symbol_bit(s, 8 * k + 5) << 2u8) | (symbol_bit(s, 8 * k + 6) << 1u8) | symbol_bit(s, 8 * k + 7)
}

/// Crockford Base32 decoding: `None` when a character is not a symbol;
/// otherwise the whole bytes that the bit stream holds (trailing bits that do
/// not fill a byte are dropped).
pub open spec fn decode_spec(s: Seq<char>) -> Option<Seq<u8>> {
    if all_symbols(s) {
        Some(Seq::new(s.len() * 5 / 8, |k: int| decoded_byte(s, k)))
    } else {
        None
    }
}

/// Length of the textual form of an identifier of `n` bytes.
pub open spec fn canonical_len_spec(n: nat) -> nat {
    encoded_len(n) + 1
}

/// The canonical textual form: the encoded payload and its check symbol.
pub open spec fn canonical(b: Seq<u8>) -> Seq<char> {
    encode_spec(b).push(symbol_char(checksum_spec(b) as int))
}

/// `k` zero bytes.
pub open spec fn zeros(k: nat) -> Seq<u8> {
    Seq::new(k, |i: int| 0u8)
}

/// The shortest big-endian byte form of the number that `b` holds: leading
/// zero bytes dropped, zero written as one zero byte.
pub open spec fn minimal_be(b: Seq<u8>) -> Seq<u8>
    decreases b.len(),
{
    if b.len() == 0 {
        seq![0u8]
    } else if b.len() > 1 && b[0] == 0 {
        minimal_be(b.drop_first())
    } else {
        b
    }
}

/// Parsing of a textual form for identifiers of `width` bytes: the length is
/// checked first, then the upper-cased body is decoded, then the last
/// character is compared with the check symbol of the decoded payload.
pub open spec fn parse_spec(s: Seq<char>, width: nat) -> Result<Seq<u8>, UuidError> {
    if s.len() != canonical_len_spec(width) {
        Err(UuidError::InvalidLength)
    } else {
        let u = upper_seq(s);
        match decode_spec(u.drop_last()) {
            None => Err(UuidError::InvalidEncoding),
            Some(b) => if symbol_char(checksum_spec(b) as int) == u.last() {
                Ok(b)
            } else {
                Err(UuidError::ChecksumMismatch)
            },
        }
    }
}

} // verus!
