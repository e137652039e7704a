//! The 32-byte digest that addresses stored content.

use vstd::prelude::*;
use blake2::digest::consts::U32;
use blake2::digest::Digest;
use blake2::Blake2b;

verus! {

/// The BLAKE2b digest of 32 bytes of a byte string.
pub uninterp spec fn blake2b(data: Seq<u8>) -> Seq<u8>;

/// `digest::Digest::digest` on `blake2::Blake2b<U32>`: a fresh hasher is fed `data` and
/// finalized. What comes out is the BLAKE2b digest of 32 bytes, which depends on the bytes of
/// `data` alone; nothing else is claimed of it.
#[verifier::external_body]
pub(crate) fn blake2b_256(data: &[u8]) -> (r: [u8; 32])
    ensures
        r@ == blake2b(data@),
{
    Blake2b::<U32>::digest(data).into()
}

/// The digest of a byte string.
pub fn digest_of(data: &[u8]) -> (r: [u8; 32])
    ensures
        r@ == blake2b(data@),
        r@.len() == 32,
{
    blake2b_256(data)
}

} // verus!
