//! Payload buffers and identifiers.
use vstd::prelude::*;
use crate::codec::{canonical_len, checksum_symbol, derive_checksum, encode, parse_payload, UuidError};
use crate::external::{buf_as_slice, buf_contents, buf_from_slice, fill_secure, push_char};
use crate::laws::{law_integer_value, law_padding_keeps_value};
use crate::natural::Natural;
use crate::model::{
    be_value, canonical, canonical_len_spec, checksum_spec, encode_spec, minimal_be, parse_spec,
    zeros,
};

verus! {

/// Width in bytes of the payload of an identifier.
pub const BYTE_SIZE: usize = 15;

/// A payload: a fixed buffer of bytes.
#[derive(Debug)]
pub struct Bytes {
    buf: bytes::BytesMut,
}

impl View for Bytes {
    type V = Seq<u8>;

    closed spec fn view(&self) -> Seq<u8> {
        buf_contents(self.buf)
    }
}

impl Bytes {
    /// A buffer holding a copy of `v`.
    pub fn from_vec(v: Vec<u8>) -> (r: Bytes)
        ensures
            r@ == v@,
    {
        Bytes { buf: buf_from_slice(v.as_slice()) }
    }

    /// `size` bytes from the secure random source.
    pub fn new(size: usize) -> (r: Result<Bytes, UuidError>)
        ensures
            match r {
                Ok(b) => b@.len() == size,
                Err(e) => e == UuidError::EntropyUnavailable,
            },
    {
        let mut v: Vec<u8> = Vec::new();
        let mut i: usize = 0;
        while i < size
            invariant
                i <= size,
                v@.len() == i,
            decreases size - i,
        {
            v.push(0);
            i = i + 1;
        }
        match fill_secure(&mut v) {
            Ok(()) => Ok(Bytes::from_vec(v)),
            Err(_) => Err(UuidError::EntropyUnavailable),
        }
    }

    pub fn to_slice(&self) -> (r: &[u8])
        ensures
            r@ == self@,
    {
        buf_as_slice(&self.buf)
    }

    pub fn to_vec(&self) -> (r: Vec<u8>)
        ensures
            r@ == self@,
    {
        let s = self.to_slice();
        let mut r: Vec<u8> = Vec::new();
        let mut i: usize = 0;
        while i < s.len()
            invariant
                i <= s@.len(),
                r@ == s@.take(i as int),
            decreases s@.len() - i,
        {
            r.push(s[i]);
            i = i + 1;
            proof {
                assert(r@ =~= s@.take(i as int));
            }
        }
        proof {
            assert(r@ =~= s@);
        }
        r
    }

    /// The payload read as a big-endian integer.
    pub fn to_int(&self) -> (r: Natural)
        ensures
            r@ == minimal_be(self@),
    {
        Natural::from_be_bytes(self.to_slice())
    }

    /// The payload as a big-endian integer, modulo 37.
    pub fn derive_crockford_checksum(&self) -> (r: u8)
        ensures
            r == checksum_spec(self@),
            r < 37,
    {
        derive_checksum(self.to_slice())
    }
}

/// An identifier: a payload and its checksum.
#[derive(Debug)]
pub struct Uuid {
    bytes: Bytes,
    checksum: u8,
}

impl View for Uuid {
    type V = Seq<u8>;

    /// The payload.
    closed spec fn view(&self) -> Seq<u8> {
        self.bytes@
    }
}

impl Uuid {
    #[verifier::type_invariant]
    spec fn inv(self) -> bool {
        &&& self.checksum == checksum_spec(self.bytes@)
        &&& self.bytes@.len() == BYTE_SIZE
    }

    /// An identifier over the given payload.
    pub fn from_bytes(bytes: Bytes) -> (r: Uuid)
        requires
            bytes@.len() == BYTE_SIZE,
        ensures
            r@ == bytes@,
    {
        let checksum = bytes.derive_crockford_checksum();
        Uuid { bytes, checksum }
    }

    /// A fresh identifier over `BYTE_SIZE` secure random bytes.
    pub fn new() -> (r: Result<Uuid, UuidError>)
        ensures
            match r {
                Ok(id) => id@.len() == BYTE_SIZE,
                Err(e) => e == UuidError::EntropyUnavailable,
            },
    {
        match Bytes::new(BYTE_SIZE) {
            Ok(bytes) => Ok(Uuid::from_bytes(bytes)),
            Err(e) => Err(e),
        }
    }

    /// The encoded payload, without the check symbol.
    pub fn value(&self) -> (r: String)
        ensures
            r@ == encode_spec(self@),
    {
        encode(self.bytes.to_slice())
    }

    pub fn checksum(&self) -> (r: u8)
        ensures
            r == checksum_spec(self@),
    {
        proof {
            use_type_invariant(self);
        }
        self.checksum
    }

    /// The payload read as a big-endian integer. Leading zero bytes of the
    /// payload do not survive in this form.
    pub fn to_int(&self) -> (r: Natural)
        ensures
            r@ == minimal_be(self@),
            r.value() == be_value(self@),
    {
        proof {
            law_integer_value(self@);
        }
        self.bytes.to_int()
    }

    /// The payload bytes.
    pub fn to_vec(&self) -> (r: Vec<u8>)
        ensures
            r@ == self@,
    {
        self.bytes.to_vec()
    }

    /// The payload.
    pub fn into_bytes(self) -> (r: Bytes)
        ensures
            r@ == self@,
    {
        self.bytes
    }

    /// The identifier whose payload is `n` in big-endian form, padded with
    /// leading zero bytes to `BYTE_SIZE` bytes; `InvalidLength` when `n`
    /// needs more than `BYTE_SIZE` bytes.
    pub fn from_int(n: &Natural) -> (r: Result<Uuid, UuidError>)
        ensures
            match r {
                Ok(id) => {
                    &&& n@.len() <= BYTE_SIZE
                    &&& id@ == zeros((BYTE_SIZE - n@.len()) as nat) + n@
                    &&& be_value(id@) == n.value()
                },
                Err(e) => n@.len() > BYTE_SIZE && e == UuidError::InvalidLength,
            },
    {
        let digits = n.to_be_bytes();
        if digits.len() > BYTE_SIZE {
            return Err(UuidError::InvalidLength);
        }
        let pad = BYTE_SIZE - digits.len();
        let mut payload: Vec<u8> = Vec::new();
        let mut i: usize = 0;
        while i < pad
            invariant
                i <= pad,
                payload@ == zeros(i as nat),
            decreases pad - i,
        {
            payload.push(0);
            i = i + 1;
            proof {
                assert(payload@ =~= zeros(i as nat));
            }
        }
        let mut j: usize = 0;
        while j < digits.len()
            invariant
                j <= digits@.len(),
                payload@ == zeros(pad as nat) + digits@.take(j as int),
            decreases digits@.len() - j,
        {
            payload.push(digits[j]);
            j = j + 1;
            proof {
                assert(payload@ =~= zeros(pad as nat) + digits@.take(j as int));
            }
        }
        proof {
            assert(digits@.take(digits@.len() as int) =~= digits@);
            law_padding_keeps_value(pad as nat, digits@);
        }
        Ok(Uuid::from_bytes(Bytes::from_vec(payload)))
    }

    /// The canonical textual form.
    pub fn to_string(&self) -> (r: String)
        ensures
            r@ == canonical(self@),
    {
        proof {
            use_type_invariant(self);
        }
        push_char(self.value(), checksum_symbol(self.checksum))
    }

    /// Length of the textual form of an identifier.
    pub fn len() -> (r: usize)
        ensures
            r == canonical_len_spec(BYTE_SIZE as nat),
    {
        canonical_len(BYTE_SIZE)
    }

    /// Parses the textual form of an identifier of `BYTE_SIZE` bytes.
    pub fn from_str(value: &str) -> (r: Result<Uuid, UuidError>)
        ensures
            match r {
                Ok(id) => parse_spec(value@, BYTE_SIZE as nat) == Ok::<Seq<u8>, UuidError>(id@),
                Err(e) => parse_spec(value@, BYTE_SIZE as nat) == Err::<Seq<u8>, UuidError>(e),
            },
    {
        match parse_payload(value, BYTE_SIZE) {
            Ok(payload) => Ok(Uuid::from_bytes(Bytes::from_vec(payload))),
            Err(e) => Err(e),
        }
    }

}

/// Two identifiers are equal when their canonical textual forms are.
impl PartialEq for Uuid {
    fn eq(&self, other: &Uuid) -> (r: bool) {
        let a = self.to_string();
        let b = other.to_string();
        a == b
    }
}

impl vstd::std_specs::cmp::PartialEqSpecImpl for Uuid {
    open spec fn obeys_eq_spec() -> bool {
        true
    }

    open spec fn eq_spec(&self, other: &Uuid) -> bool {
        canonical(self@) == canonical(other@)
    }
}

/// An identifier equals a string when the string parses to an identifier
/// with the same canonical form; a string that does not parse equals none.
impl PartialEq<String> for Uuid {
    fn eq(&self, other: &String) -> (r: bool) {
        match Uuid::from_str(other.as_str()) {
            Ok(id) => *self == id,
            Err(_) => false,
        }
    }
}

impl vstd::std_specs::cmp::PartialEqSpecImpl<String> for Uuid {
    open spec fn obeys_eq_spec() -> bool {
        true
    }

    open spec fn eq_spec(&self, other: &String) -> bool {
        match parse_spec(other@, BYTE_SIZE as nat) {
            Ok(b) => canonical(b) == canonical(self@),
            Err(_) => false,
        }
    }
}

} // verus!
