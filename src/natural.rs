//! Unsigned integers of any size, as the integer form of a payload.
use vstd::prelude::*;
use crate::model::{be_value, minimal_be};

verus! {

/// An unsigned integer, held as its shortest big-endian byte form.
pub struct Natural {
    digits: Vec<u8>,
}

impl View for Natural {
    type V = Seq<u8>;

    /// The shortest big-endian byte form.
    closed spec fn view(&self) -> Seq<u8> {
        self.digits@
    }
}

impl Natural {
    #[verifier::type_invariant]
    spec fn inv(self) -> bool {
        minimal_be(self.digits@) == self.digits@
    }

    /// The number's value.
    pub open spec fn value(&self) -> nat {
        be_value(self@)
    }

    /// The number that big-endian bytes hold.
    pub fn from_be_bytes(b: &[u8]) -> (r: Natural)
        ensures
            r@ == minimal_be(b@),
    {
        if b.len() == 0 {
            return Natural { digits: vec![0u8] };
        }
        let mut i: usize = 0;
        proof {
            assert(b@.subrange(0, b@.len() as int) =~= b@);
        }
        while i < b.len() - 1 && b[i] == 0
            invariant
                i < b@.len(),
                minimal_be(b@.subrange(i as int, b@.len() as int)) == minimal_be(b@),
            decreases b@.len() - i,
        {
            proof {
                assert(b@.subrange(i as int, b@.len() as int).drop_first() =~= b@.subrange(
                    i + 1,
                    b@.len() as int,
                ));
            }
            i = i + 1;
        }
        let mut digits: Vec<u8> = Vec::new();
        let mut j: usize = i;
        while j < b.len()
            invariant
                i <= j <= b@.len(),
                digits@ == b@.subrange(i as int, j as int),
            decreases b@.len() - j,
        {
            digits.push(b[j]);
            j = j + 1;
            proof {
                assert(digits@ =~= b@.subrange(i as int, j as int));
            }
        }
        proof {
            assert(digits@ =~= b@.subrange(i as int, b@.len() as int));
        }
        Natural { digits }
    }

    /// The shortest big-endian byte form.
    pub fn to_be_bytes(&self) -> (r: Vec<u8>)
        ensures
            r@ == self@,
            minimal_be(r@) == r@,
    {
        proof {
            use_type_invariant(self);
        }
        self.digits.clone()
    }
}

} // verus!
