//! Trusted bindings to the BLS12-381 pairing curve.
//!
//! Every operation of the scalar field and of the two source groups that the
//! signature scheme uses is wrapped here exactly once.  The result of each
//! curve operation is given a name (an uninterpreted spec function): the
//! operations themselves are implemented by the `bls12_381` crate and are
//! deterministic functions of their arguments, so the names let the verified
//! code state exactly which composition of curve operations it computes.

use vstd::prelude::*;

use bls12_381::{G1Affine, G1Projective, G2Affine, G2Projective, Gt, Scalar};
use ff::Field;
use group::{Curve, Group};
use rand::rngs::OsRng;
use rand::SeedableRng;
use rand_chacha::ChaCha20Rng;
use sha3::Digest;

verus! {

#[verifier::external_type_specification]
#[verifier::external_body]
pub struct ExScalar(Scalar);

#[verifier::external_type_specification]
#[verifier::external_body]
pub struct ExG1Affine(G1Affine);

#[verifier::external_type_specification]
#[verifier::external_body]
pub struct ExG2Affine(G2Affine);

#[verifier::external_type_specification]
#[verifier::external_body]
pub struct ExGt(Gt);

pub uninterp spec fn scalar_of_u64(x: u64) -> Scalar;

pub uninterp spec fn scalar_sum(a: Scalar, b: Scalar) -> Scalar;

pub uninterp spec fn scalar_prod(a: Scalar, b: Scalar) -> Scalar;

pub uninterp spec fn scalar_diff(a: Scalar, b: Scalar) -> Scalar;

pub uninterp spec fn scalar_inverse(a: Scalar) -> Scalar;

pub uninterp spec fn g1_scaled(p: G1Affine, k: Scalar) -> G1Affine;

pub uninterp spec fn g1_sum(p: G1Affine, q: G1Affine) -> G1Affine;

pub uninterp spec fn g2_scaled(p: G2Affine, k: Scalar) -> G2Affine;

pub uninterp spec fn g2_sum(p: G2Affine, q: G2Affine) -> G2Affine;

pub uninterp spec fn g2_base_scaled(k: Scalar) -> G2Affine;

pub uninterp spec fn pairing_of(p: G1Affine, q: G2Affine) -> Gt;

pub uninterp spec fn g1_compressed(p: G1Affine) -> Seq<u8>;

pub uninterp spec fn g1_of_seed(seed: Seq<u8>) -> G1Affine;

pub uninterp spec fn sha3_256_of(data: Seq<u8>) -> Seq<u8>;

pub uninterp spec fn sha256_of(data: Seq<u8>) -> Seq<u8>;

/// Relies on `Scalar: From<u64>`: the canonical embedding of a 64-bit integer
/// into the scalar field.  The field modulus exceeds `2^64`, so the embedding
/// is injective on `u64`.
#[verifier::external_body]
pub(crate) fn scalar_from_u64(x: u64) -> (r: Scalar)
    ensures
        r == scalar_of_u64(x),
        forall|y: u64| y != x ==> r != scalar_of_u64(y),
{
    Scalar::from(x)
}

/// Relies on `Add for Scalar`: addition in the scalar field.
#[verifier::external_body]
pub(crate) fn scalar_add(a: &Scalar, b: &Scalar) -> (r: Scalar)
    ensures
        r == scalar_sum(*a, *b),
{
    a + b
}

/// Relies on `Mul for Scalar`: multiplication in the scalar field.
#[verifier::external_body]
pub(crate) fn scalar_mul(a: &Scalar, b: &Scalar) -> (r: Scalar)
    ensures
        r == scalar_prod(*a, *b),
{
    a * b
}

/// Relies on `Sub for Scalar`: subtraction in the scalar field.  In a field,
/// `a - b` is zero exactly when `a == b`.
#[verifier::external_body]
pub(crate) fn scalar_sub(a: &Scalar, b: &Scalar) -> (r: Scalar)
    ensures
        r == scalar_diff(*a, *b),
        a != b ==> r != scalar_of_u64(0),
{
    a - b
}

/// Relies on `Scalar::invert`: returns the multiplicative inverse, and is
/// `None` exactly for the zero element.
#[verifier::external_body]
pub(crate) fn scalar_invert(a: &Scalar) -> (r: Option<Scalar>)
    ensures
        r is Some <==> *a != scalar_of_u64(0),
        r matches Some(v) ==> v == scalar_inverse(*a),
{
    Option::from(a.invert())
}

/// Relies on `Scalar::is_zero`: tests for the zero element of the field.
#[verifier::external_body]
pub(crate) fn scalar_is_zero(a: &Scalar) -> (r: bool)
    ensures
        r <==> *a == scalar_of_u64(0),
{
    bool::from(a.is_zero())
}

/// Relies on `Scalar::random`: a scalar drawn from the system's secure
/// randomness.  Nothing is promised of the value.
#[verifier::external_body]
pub(crate) fn scalar_random() -> Scalar {
    Scalar::random(OsRng)
}

/// Relies on `Mul<Scalar> for G1Affine`: scalar multiplication in G1.
#[verifier::external_body]
pub(crate) fn g1_mul(p: &G1Affine, k: &Scalar) -> (r: G1Affine)
    ensures
        r == g1_scaled(*p, *k),
{
    (p * k).to_affine()
}

/// Relies on `Add for G1Projective`: the group law of G1.
#[verifier::external_body]
pub(crate) fn g1_add(p: &G1Affine, q: &G1Affine) -> (r: G1Affine)
    ensures
        r == g1_sum(*p, *q),
{
    (G1Projective::from(p) + q).to_affine()
}

/// Relies on `Mul<Scalar> for G2Affine`: scalar multiplication in G2.
#[verifier::external_body]
pub(crate) fn g2_mul(p: &G2Affine, k: &Scalar) -> (r: G2Affine)
    ensures
        r == g2_scaled(*p, *k),
{
    (p * k).to_affine()
}

/// Relies on `Add for G2Projective`: the group law of G2.
#[verifier::external_body]
pub(crate) fn g2_add(p: &G2Affine, q: &G2Affine) -> (r: G2Affine)
    ensures
        r == g2_sum(*p, *q),
{
    (G2Projective::from(p) + q).to_affine()
}

/// Relies on `Mul<Scalar> for G2Projective` at the fixed group generator.
#[verifier::external_body]
pub(crate) fn g2_base_mul(k: &Scalar) -> (r: G2Affine)
    ensures
        r == g2_base_scaled(*k),
{
    (G2Projective::generator() * k).to_affine()
}

/// Relies on `G2Affine::generator`: the fixed generator, which equals the
/// generator multiplied by the scalar one.
#[verifier::external_body]
pub(crate) fn g2_generator() -> (r: G2Affine)
    ensures
        r == g2_base_scaled(scalar_of_u64(1)),
{
    G2Affine::generator()
}

/// Relies on `bls12_381::pairing`: the bilinear pairing from G1 x G2 into Gt.
#[verifier::external_body]
pub(crate) fn pairing(p: &G1Affine, q: &G2Affine) -> (r: Gt)
    ensures
        r == pairing_of(*p, *q),
{
    bls12_381::pairing(p, q)
}

/// Relies on `PartialEq for Gt`: equality of target-group elements.
#[verifier::external_body]
pub(crate) fn gt_eq(a: &Gt, b: &Gt) -> (r: bool)
    ensures
        r <==> *a == *b,
{
    a == b
}

/// Relies on `G1Affine::to_compressed`: the canonical 48-byte compressed
/// encoding of a G1 point.
#[verifier::external_body]
pub(crate) fn g1_to_compressed(p: &G1Affine) -> (r: Vec<u8>)
    ensures
        r@ == g1_compressed(*p),
        r@.len() == 48,
{
    p.to_compressed().to_vec()
}

/// Relies on `G1Projective::random` seeded by `ChaCha20Rng::from_seed`: a
/// group element derived deterministically from a 32-byte seed.
#[verifier::external_body]
pub(crate) fn g1_from_seed(seed: &Vec<u8>) -> (r: G1Affine)
    requires
        seed@.len() == 32,
    ensures
        r == g1_of_seed(seed@),
{
    let mut s = [0u8; 32];
    s.copy_from_slice(seed);
    let mut rng = ChaCha20Rng::from_seed(s);
    G1Projective::random(&mut rng).to_affine()
}

/// Relies on `sha3::Sha3_256`: the 32-byte SHA3-256 digest of the
/// concatenation of the two inputs.
#[verifier::external_body]
pub(crate) fn sha3_256_tagged(tag: &[u8], data: &[u8]) -> (r: Vec<u8>)
    ensures
        r@ == sha3_256_of(tag@ + data@),
        r@.len() == 32,
{
    let mut h = sha3::Sha3_256::new();
    h.update(tag);
    h.update(data);
    h.finalize().to_vec()
}

/// Relies on `bitcoin_hashes::sha256::hash`: the 32-byte SHA-256 digest.
#[verifier::external_body]
pub(crate) fn sha256_digest(data: &[u8]) -> (r: Vec<u8>)
    ensures
        r@ == sha256_of(data@),
        r@.len() == 32,
{
    bitcoin_hashes::sha256::hash(data).to_byte_array().to_vec()
}

} // verus!
