//! The hash primitive: SHA-256 over byte strings, used uniformly for
//! leaves and for internal nodes of the Merkle tree.
use vstd::prelude::*;

verus! {

/// The SHA-256 digest of a byte string. The digest is a pure function of
/// the input bytes alone; nothing further is assumed of it (in particular,
/// collision resistance is a property of the algorithm that the proofs
/// here never rely on).
pub uninterp spec fn sha256_of(bytes: Seq<u8>) -> Seq<u8>;

/// Relies on `sha2::Sha256::digest`: the SHA-256 digest of the input,
/// always 32 bytes, depending on the input bytes alone.
#[verifier::external_body]
pub fn sha256(bytes: &Vec<u8>) -> (digest: Vec<u8>)
    ensures
        digest@ == sha256_of(bytes@),
        digest@.len() == 32,
{
    <sha2::Sha256 as sha2::Digest>::digest(bytes.as_slice()).to_vec()
}

/// The digest of an internal node: the hash of the left child's digest
/// followed by the right child's digest. The concatenation is
/// order-sensitive on purpose: swapping children must change the digest.
pub open spec fn combine_of(left: Seq<u8>, right: Seq<u8>) -> Seq<u8> {
    sha256_of(left + right)
}

/// Hashes the concatenation `left || right`, left first.
pub fn combine(left: &Vec<u8>, right: &Vec<u8>) -> (digest: Vec<u8>)
    ensures
        digest@ == combine_of(left@, right@),
        digest@.len() == 32,
{
    let mut joined: Vec<u8> = Vec::new();
    joined.extend_from_slice(left.as_slice());
    joined.extend_from_slice(right.as_slice());
    assert(joined@ == left@ + right@);
    sha256(&joined)
}

} // verus!
