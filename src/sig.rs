//! The signature value: two fixed-width byte components.
use vstd::prelude::*;

verus! {

/// Size in bytes of each of the two components of a signature.
pub const COMPONENT_SIZE: usize = 57;

/// Size in bytes of a whole signature.
pub const BYTE_SIZE: usize = 114;

#[verifier::external_type_specification]
#[verifier::external_body]
pub struct ExError(signature::Error);

/// Relies on `signature::Error::new`: builds the opaque error, which carries no payload.
pub assume_specification[ signature::Error::new ]() -> signature::Error;

/// An Ed448 signature: the encoded point `R` followed by the scalar `s`.
#[derive(Clone, Copy, Debug, PartialEq, Eq)]
pub struct Signature {
    pub R: [u8; COMPONENT_SIZE],
    pub s: [u8; COMPONENT_SIZE],
}

impl Signature {
    /// The signature as one byte sequence: `R`, then `s`.
    pub open spec fn bytes(&self) -> Seq<u8> {
        self.R@ + self.s@
    }

    /// Builds the signature whose flat byte form is `bytes`.
    pub fn from_bytes(bytes: &[u8; BYTE_SIZE]) -> (sig: Signature)
        ensures
            sig.bytes() == bytes@,
    {
        let mut R = [0u8; COMPONENT_SIZE];
        let mut s = [0u8; COMPONENT_SIZE];
        let mut i: usize = 0;
        while i < COMPONENT_SIZE
            invariant
                i <= COMPONENT_SIZE,
                forall|j: int| 0 <= j < i ==> R@[j] == bytes@[j],
                forall|j: int| 0 <= j < i ==> s@[j] == bytes@[j + COMPONENT_SIZE],
            decreases COMPONENT_SIZE - i,
        {
            R[i] = bytes[i];
            s[i] = bytes[i + COMPONENT_SIZE];
            i = i + 1;
        }
        let sig = Signature { R, s };
        assert(sig.bytes() =~= bytes@);
        sig
    }

    /// The flat byte form of the signature: `R`, then `s`.
    pub fn to_bytes(&self) -> (bytes: [u8; BYTE_SIZE])
        ensures
            bytes@ == self.bytes(),
    {
        let mut bytes = [0u8; BYTE_SIZE];
        let mut i: usize = 0;
        while i < COMPONENT_SIZE
            invariant
                i <= COMPONENT_SIZE,
                forall|j: int| 0 <= j < i ==> bytes@[j] == self.R@[j],
                forall|j: int| 0 <= j < i ==> bytes@[j + COMPONENT_SIZE] == self.s@[j],
            decreases COMPONENT_SIZE - i,
        {
            bytes[i] = self.R[i];
            bytes[i + COMPONENT_SIZE] = self.s[i];
            i = i + 1;
        }
        assert(bytes@ =~= self.bytes());
        bytes
    }

    /// Two signatures with the same flat byte form are the same signature.
    pub proof fn lemma_bytes_determine(a: Signature, b: Signature)
        requires
            a.bytes() == b.bytes(),
        ensures
            a == b,
    {
        assert(a.R@ =~= a.bytes().subrange(0, COMPONENT_SIZE as int));
        assert(b.R@ =~= b.bytes().subrange(0, COMPONENT_SIZE as int));
        assert(a.s@ =~= a.bytes().subrange(COMPONENT_SIZE as int, BYTE_SIZE as int));
        assert(b.s@ =~= b.bytes().subrange(COMPONENT_SIZE as int, BYTE_SIZE as int));
        assert(a.R =~= b.R);
        assert(a.s =~= b.s);
    }
}

} // verus!
