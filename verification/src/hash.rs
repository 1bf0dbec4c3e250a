//! The 32-byte message hash and its all-zero sentinel.

use vstd::prelude::*;

use crate::bytes::{bytes_eq, copy_bytes};

verus! {

/// The all-zero hash value, denoting "no predecessor".
pub open spec fn zero_hash() -> Seq<u8> {
    Seq::new(32, |i: int| 0u8)
}

/// A fixed 32-byte hash value.
#[derive(Debug)]
pub struct MessageHash {
    pub bytes: Vec<u8>,
}

impl View for MessageHash {
    type V = Seq<u8>;

    open spec fn view(&self) -> Seq<u8> {
        self.bytes@
    }
}

impl MessageHash {
    /// A well-formed hash holds exactly 32 bytes.
    pub open spec fn wf(&self) -> bool {
        self@.len() == 32
    }

    /// Wraps 32 bytes as a hash.
    pub fn new(bytes: Vec<u8>) -> (r: Self)
        ensures
            r@ == bytes@,
    {
        MessageHash { bytes }
    }

    /// The all-zero sentinel.
    pub fn zero() -> (r: Self)
        ensures
            r@ == zero_hash(),
            r.wf(),
    {
        let mut bytes: Vec<u8> = Vec::new();
        let mut i: usize = 0;
        while i < 32
            invariant
                i <= 32,
                bytes@.len() == i,
                forall|j: int| 0 <= j < i ==> bytes@[j] == 0u8,
            decreases 32 - i,
        {
            bytes.push(0);
            i = i + 1;
        }
        assert(bytes@ =~= zero_hash());
        MessageHash { bytes }
    }

    /// Whether this hash is the all-zero sentinel.
    pub fn is_zero(&self) -> (r: bool)
        ensures
            r == (self@ == zero_hash()),
    {
        let z = Self::zero();
        bytes_eq(&self.bytes, &z.bytes)
    }

    /// Byte-for-byte comparison.
    pub fn eq_hash(&self, other: &Self) -> (r: bool)
        ensures
            r == (self@ == other@),
    {
        bytes_eq(&self.bytes, &other.bytes)
    }

    /// Fresh copy.
    pub fn duplicate(&self) -> (r: Self)
        ensures
            r@ == self@,
    {
        MessageHash { bytes: copy_bytes(&self.bytes) }
    }
}

} // verus!
