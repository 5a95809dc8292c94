//! The hash capability: fixed-size digests of base-field elements and a
//! two-to-one compression function, consumed by the Merkle commitment.
use vstd::prelude::*;

verus! {

/// A digest: a fixed-size array of base-field elements.
pub type Digest = Vec<u64>;

/// A two-to-one compression over digests, pinned to a specification-level
/// function of the same implementation, so that hashing is deterministic.
pub trait FieldHasher: Sized {
    spec fn spec_compress(&self, a: Seq<u64>, b: Seq<u64>) -> Seq<u64>;

    /// The digest used to pad a leaf layer up to a power of two.
    spec fn spec_default_digest(&self) -> Seq<u64>;

    fn compress(&self, a: &Digest, b: &Digest) -> (r: Digest)
        ensures
            r@ == self.spec_compress(a@, b@),
    ;

    fn default_digest(&self) -> (r: Digest)
        ensures
            r@ == self.spec_default_digest(),
    ;
}

} // verus!
