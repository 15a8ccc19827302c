//! Hashing byte strings onto the G1 group.
//!
//! A byte string is first digested with SHA3-256 — under a fixed domain tag
//! for `hash_bytes_to_curve`, untagged for a caller-supplied digest — and the
//! 32-byte digest then seeds a deterministic derivation of a G1 element.

use vstd::prelude::*;

use bls12_381::G1Affine;

use crate::bls::{g1_from_seed, g1_of_seed, sha3_256_of, sha3_256_tagged};

verus! {

/// The domain tag mixed into every direct byte-string hash: the ASCII bytes
/// of `TBS-G1-TAG`.
pub open spec fn domain_tag() -> Seq<u8> {
    seq![84u8, 66u8, 83u8, 45u8, 71u8, 49u8, 45u8, 84u8, 65u8, 71u8]
}

/// The SHA3-256 digest of a byte string.
pub fn sha3_digest(data: &[u8]) -> (r: Vec<u8>)
    ensures
        r@ == sha3_256_of(data@),
        r@.len() == 32,
{
    let tag: [u8; 0] = [];
    let digest = sha3_256_tagged(&tag, data);
    proof {
        assert(tag@ + data@ =~= data@);
    }
    digest
}

/// Hashes a byte string to a G1 point under the domain tag.
pub fn hash_bytes_to_curve(data: &[u8]) -> (r: G1Affine)
    ensures
        r == g1_of_seed(sha3_256_of(domain_tag() + data@)),
{
    let tag: Vec<u8> = vec![84u8, 66u8, 83u8, 45u8, 71u8, 49u8, 45u8, 84u8, 65u8, 71u8];
    proof {
        assert(tag@ =~= domain_tag());
    }
    let digest = sha3_256_tagged(tag.as_slice(), data);
    g1_from_seed(&digest)
}

/// Maps a pre-computed 32-byte digest to a G1 point, without any domain tag.
pub fn hash_digest_to_curve(digest: &Vec<u8>) -> (r: G1Affine)
    requires
        digest@.len() == 32,
    ensures
        r == g1_of_seed(digest@),
{
    g1_from_seed(digest)
}

} // verus!
