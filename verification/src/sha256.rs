//! SHA-256, the hash function of the beacon chain.

use crate::primitives::Hash256;
use vstd::prelude::*;

verus! {

/// The SHA-256 digest of a byte string, as `ethereum_hashing::hash_fixed` computes it.
pub uninterp spec fn sha256(bytes: Seq<u8>) -> Hash256;

/// Calls `ethereum_hashing::hash_fixed`, the SHA-256 digest of its input. The contract claims that
/// the digest is a function of the bytes alone, which it names [`sha256`].
#[verifier::external_body]
pub(crate) fn hash_fixed(bytes: &[u8]) -> (result: Hash256)
    ensures
        result == sha256(bytes@),
{
    ethereum_hashing::hash_fixed(bytes)
}

/// The digest of two roots, one behind the other.
pub open spec fn hash_pair(left: Hash256, right: Hash256) -> Hash256 {
    sha256(left@ + right@)
}

/// Hashes two roots, one behind the other.
pub fn hash32_concat(left: &Hash256, right: &Hash256) -> (result: Hash256)
    ensures
        result == hash_pair(*left, *right),
        result == sha256(left@ + right@),
{
    let mut bytes: Vec<u8> = Vec::with_capacity(64);
    let mut i: usize = 0;
    while i < 32
        invariant
            i <= 32,
            bytes@ == left@.take(i as int),
        decreases 32 - i,
    {
        bytes.push(left[i]);
        assert(left@.take(i as int).push(left@[i as int]) =~= left@.take(i + 1));
        i += 1;
    }
    assert(left@.take(32) =~= left@);
    let mut j: usize = 0;
    while j < 32
        invariant
            j <= 32,
            bytes@ == left@ + right@.take(j as int),
        decreases 32 - j,
    {
        bytes.push(right[j]);
        assert((left@ + right@.take(j as int)).push(right@[j as int]) =~= left@ + right@.take(
            j + 1,
        ));
        j += 1;
    }
    assert(right@.take(32) =~= right@);
    hash_fixed(bytes.as_slice())
}

} // verus!
