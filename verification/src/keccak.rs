//! Keccak-256 (the Keccak submission padding, as Ethereum uses it), as
//! computed by the `tiny-keccak` crate, and the byte strings this library
//! hashes with it.

use vstd::prelude::*;

verus! {

/// A 32-byte digest.
pub type Digest = [u8; 32];

/// The Keccak-256 digest of `data`.
pub uninterp spec fn keccak256(data: Seq<u8>) -> Seq<u8>;

/// Calls `tiny_keccak::Keccak::v256`, absorbs `data` with `Hasher::update`
/// and squeezes 32 bytes with `Hasher::finalize`. The contract claims only
/// that the digest is `keccak256` of the bytes absorbed: a function of
/// `data` alone.
#[verifier::external_body]
fn keccak256_digest(data: &[u8]) -> (digest: Digest)
    ensures
        digest@ == keccak256(data@),
{
    let mut hasher = tiny_keccak::Keccak::v256();
    tiny_keccak::Hasher::update(&mut hasher, data);
    let mut digest = [0u8; 32];
    tiny_keccak::Hasher::finalize(hasher, &mut digest);
    digest
}

/// The Keccak-256 digest of `data`.
pub fn keccak256_hash(data: &[u8]) -> (digest: Digest)
    ensures
        digest@ == keccak256(data@),
{
    keccak256_digest(data)
}

/// The 64 bytes hashed to combine two child digests: `left` then `right`.
pub fn pair_preimage(left: &Digest, right: &Digest) -> (bytes: Vec<u8>)
    ensures
        bytes@ == left@ + right@,
{
    let mut bytes: Vec<u8> = Vec::new();
    for i in 0..32
        invariant
            bytes@ == left@.subrange(0, i as int),
    {
        bytes.push(left[i]);
        assert(left@.subrange(0, i + 1) == left@.subrange(0, i as int).push(left@[i as int]));
    }
    assert(left@.subrange(0, 32) == left@);
    for i in 0..32
        invariant
            bytes@ == left@ + right@.subrange(0, i as int),
    {
        bytes.push(right[i]);
        assert(right@.subrange(0, i + 1) == right@.subrange(0, i as int).push(right@[i as int]));
    }
    assert(right@.subrange(0, 32) == right@);
    bytes
}

/// `keccak256(left ++ right)`.
pub fn hash_pair(left: &Digest, right: &Digest) -> (digest: Digest)
    ensures
        digest@ == keccak256(left@ + right@),
{
    let bytes = pair_preimage(left, right);
    keccak256_digest(bytes.as_slice())
}

/// Whether two digests are equal, byte for byte.
pub fn hash_eq(a: &Digest, b: &Digest) -> (r: bool)
    ensures
        r == (a@ == b@),
{
    for i in 0..32
        invariant
            forall|j: int| 0 <= j < i ==> a@[j] == b@[j],
    {
        if a[i] != b[i] {
            return false;
        }
    }
    assert(a@ =~= b@);
    true
}

} // verus!
