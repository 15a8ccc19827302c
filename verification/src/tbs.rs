//! Threshold blind signatures over BLS12-381.
//!
//! A trusted dealer secret-shares a signing key among `n` holders so that any
//! `threshold` of them can jointly sign.  A client blinds a message point
//! with a secret nonzero scalar, collects signature shares on the blinded
//! point, combines any `threshold` of them by Lagrange interpolation at zero,
//! and unblinds the result into a signature under the aggregate public key.
//! Share `index` uses x-coordinate `index + 1`: the slot at zero holds the
//! secret itself.

use vstd::prelude::*;
use vstd::pervasive::unreached;

use bls12_381::{G1Affine, G2Affine, Scalar};

use crate::bls::{
    g1_mul, g1_scaled, g1_to_compressed, g1_compressed, g1_of_seed, g2_base_mul, g2_base_scaled,
    g2_generator, gt_eq, pairing, pairing_of, scalar_from_u64, scalar_invert, scalar_inverse,
    scalar_is_zero, scalar_of_u64, scalar_random, sha3_256_of,
};
use crate::hash::{domain_tag, hash_bytes_to_curve, hash_digest_to_curve};
use crate::poly::{
    distinct_nonzero, evaluate, horner_eval, interp_zero_g1, interp_zero_g2,
    interpolate_zero_g1, interpolate_zero_g2, random_coefficients, xs_of_g1, xs_of_g2,
};

verus! {

#[derive(Copy, Clone, Debug, Eq, PartialEq)]
pub struct PublicKeyShare(pub G2Affine);

#[derive(Copy, Clone, Debug, Eq, PartialEq)]
pub struct SecretKeyShare(pub Scalar);

#[derive(Copy, Clone, Debug, Eq, PartialEq)]
pub struct AggregatePublicKey(pub G2Affine);

#[derive(Copy, Clone, Debug, Eq, PartialEq)]
pub struct BlindingKey(pub Scalar);

#[derive(Copy, Clone, Debug, Eq, PartialEq)]
pub struct BlindedMessage(pub G1Affine);

#[derive(Copy, Clone, Debug, Eq, PartialEq)]
pub struct BlindedSignatureShare(pub G1Affine);

#[derive(Copy, Clone, Debug, Eq, PartialEq)]
pub struct BlindedSignature(pub G1Affine);

#[derive(Copy, Clone, Debug, Eq, PartialEq)]
pub struct Signature(pub G1Affine);

#[derive(Copy, Clone, Debug, Eq, PartialEq)]
pub struct Message(pub G1Affine);

/// A value drawn fresh from the system's secure randomness.
pub trait FromRandom: Sized {
    fn from_random() -> Self;
}

impl FromRandom for Scalar {
    /// Relies on the drawing wrapper; nothing is promised of the value.
    fn from_random() -> Scalar {
        scalar_random()
    }
}

impl Message {
    /// Hashes an arbitrary byte string to a message point, under the fixed
    /// domain tag.
    pub fn from_bytes(msg: &[u8]) -> (r: Message)
        ensures
            r.0 == g1_of_seed(sha3_256_of(domain_tag() + msg@)),
    {
        Message(hash_bytes_to_curve(msg))
    }

    /// Maps a pre-digested 32-byte hash to a message point.  Unlike
    /// `from_bytes` this mixes in no domain tag.
    pub fn from_hash(digest: &Vec<u8>) -> (r: Message)
        requires
            digest@.len() == 32,
        ensures
            r.0 == g1_of_seed(digest@),
    {
        Message(hash_digest_to_curve(digest))
    }

    /// The canonical 48-byte compressed encoding of the point.
    pub fn encode_compressed(&self) -> (r: Vec<u8>)
        ensures
            r@ == g1_compressed(self.0),
            r@.len() == 48,
    {
        g1_to_compressed(&self.0)
    }
}

impl BlindedMessage {
    /// The canonical 48-byte compressed encoding of the point.
    pub fn encode_compressed(&self) -> (r: Vec<u8>)
        ensures
            r@ == g1_compressed(self.0),
            r@.len() == 48,
    {
        g1_to_compressed(&self.0)
    }
}

impl Signature {
    /// The canonical 48-byte compressed encoding of the point.
    pub fn encode_compressed(&self) -> (r: Vec<u8>)
        ensures
            r@ == g1_compressed(self.0),
            r@.len() == 48,
    {
        g1_to_compressed(&self.0)
    }
}

impl BlindedSignature {
    /// The canonical 48-byte compressed encoding of the point.
    pub fn encode_compressed(&self) -> (r: Vec<u8>)
        ensures
            r@ == g1_compressed(self.0),
            r@.len() == 48,
    {
        g1_to_compressed(&self.0)
    }
}

impl BlindedSignatureShare {
    /// The canonical 48-byte compressed encoding of the point.
    pub fn encode_compressed(&self) -> (r: Vec<u8>)
        ensures
            r@ == g1_compressed(self.0),
            r@.len() == 48,
    {
        g1_to_compressed(&self.0)
    }
}

impl SecretKeyShare {
    /// The public key share of this secret share: the G2 generator scaled by
    /// the secret scalar.
    pub fn to_pub_key_share(&self) -> (r: PublicKeyShare)
        ensures
            r.0 == g2_base_scaled(self.0),
    {
        PublicKeyShare(g2_base_mul(&self.0))
    }
}

impl BlindingKey {
    /// Draws a fresh blinding key from secure randomness, retrying while the
    /// drawn scalar is zero.  After a bounded number of retries (an event of
    /// negligible probability) it falls back to the scalar one, so the key
    /// is nonzero on every path.
    pub fn random() -> (r: BlindingKey)
        ensures
            r.0 != scalar_of_u64(0),
    {
        let mut k = scalar_random();
        let mut tries: usize = 0;
        while scalar_is_zero(&k) && tries < 64
            invariant
                tries <= 64,
            decreases 64 - tries,
        {
            k = scalar_random();
            tries = tries + 1;
        }
        if scalar_is_zero(&k) {
            k = scalar_from_u64(1);
        }
        BlindingKey(k)
    }
}

/// The first `count` of the supplied share pairs, as interpolation points:
/// the share at index `i` sits at x-coordinate `i + 1`.
pub open spec fn combine_points(
    shares: Seq<(usize, BlindedSignatureShare)>,
    count: int,
) -> Seq<(u64, G1Affine)> {
    shares.take(count).map_values(|p: (usize, BlindedSignatureShare)| (((p.0 + 1) as u64, p.1.0)))
}

/// How many shares the combiner consumes: the threshold, or all of them
/// when fewer are supplied.
pub open spec fn combine_count(threshold: usize, shares: Seq<(usize, BlindedSignatureShare)>) -> int {
    if threshold <= shares.len() {
        threshold as int
    } else {
        shares.len() as int
    }
}

/// The first `threshold` public key shares as interpolation points, share
/// `i` at x-coordinate `i + 1`.
pub open spec fn aggregation_points(shares: Seq<PublicKeyShare>, threshold: int) -> Seq<
    (u64, G2Affine),
> {
    Seq::new(threshold as nat, |i: int| (((i + 1) as u64, shares[i].0)))
}

/// Generates `keys` secret key shares with threshold `threshold` from a
/// trusted dealer: evaluations at `1 ..= keys` of a random polynomial with
/// `threshold` coefficients, whose value at zero is the aggregate secret.
pub fn dealer_keygen(threshold: usize, keys: usize) -> (r: (
    AggregatePublicKey,
    Vec<PublicKeyShare>,
    Vec<SecretKeyShare>,
))
    requires
        1 <= threshold <= keys,
    ensures
        r.1@.len() == keys,
        r.2@.len() == keys,
        forall|i: int| 0 <= i < keys ==> (#[trigger] r.1@[i]).0 == g2_base_scaled(r.2@[i].0),
        exists|coeffs: Seq<Scalar>|
            {
                &&& coeffs.len() == threshold
                &&& r.0.0 == g2_base_scaled(horner_eval(coeffs, scalar_of_u64(0)))
                &&& forall|i: int|
                    0 <= i < keys ==> (#[trigger] r.2@[i]).0 == horner_eval(
                        coeffs,
                        scalar_of_u64((i + 1) as u64),
                    )
            },
{
    let coeffs = random_coefficients(threshold);
    let mut pub_shares: Vec<PublicKeyShare> = Vec::new();
    let mut sec_shares: Vec<SecretKeyShare> = Vec::new();
    let mut i: usize = 0;
    while i < keys
        invariant
            i <= keys,
            coeffs@.len() == threshold,
            pub_shares@.len() == i,
            sec_shares@.len() == i,
            forall|k: int|
                0 <= k < i ==> (#[trigger] sec_shares@[k]).0 == horner_eval(
                    coeffs@,
                    scalar_of_u64((k + 1) as u64),
                ),
            forall|k: int|
                0 <= k < i ==> (#[trigger] pub_shares@[k]).0 == g2_base_scaled(sec_shares@[k].0),
        decreases keys - i,
    {
        let x = i as u64 + 1;
        let sk = evaluate(&coeffs, x);
        let pk = g2_base_mul(&sk);
        pub_shares.push(PublicKeyShare(pk));
        sec_shares.push(SecretKeyShare(sk));
        i = i + 1;
    }
    let secret = evaluate(&coeffs, 0);
    let agg = AggregatePublicKey(g2_base_mul(&secret));
    proof {
        let w = coeffs@;
        assert(w.len() == threshold && agg.0 == g2_base_scaled(horner_eval(w, scalar_of_u64(0)))
            && forall|i: int|
            0 <= i < keys ==> (#[trigger] sec_shares@[i]).0 == horner_eval(
                w,
                scalar_of_u64((i + 1) as u64),
            ));
    }
    (agg, pub_shares, sec_shares)
}

/// Blinds a message point with a fresh nonzero blinding key.
pub fn blind_message(msg: Message) -> (r: (BlindingKey, BlindedMessage))
    ensures
        r.0.0 != scalar_of_u64(0),
        r.1.0 == g1_scaled(msg.0, r.0.0),
{
    let bkey = BlindingKey::random();
    let blinded = g1_mul(&msg.0, &bkey.0);
    (bkey, BlindedMessage(blinded))
}

/// Signs a blinded message with one secret key share: the blinded point
/// scaled by the share.
pub fn sign_blinded_msg(msg: BlindedMessage, sks: SecretKeyShare) -> (r: BlindedSignatureShare)
    ensures
        r.0 == g1_scaled(msg.0, sks.0),
{
    BlindedSignatureShare(g1_mul(&msg.0, &sks.0))
}

/// Combines the first `threshold` of the supplied `(index, share)` pairs
/// into a blinded signature by Lagrange interpolation at zero; when fewer
/// are supplied it combines them all.  The shares are not verified here: a
/// caller that accepts adversarial shares must check them first with
/// `verify_blind_share`.  Combining fewer than the dealer's threshold
/// yields a point unrelated to the secret, which the combiner does not
/// detect.
pub fn combine_valid_shares(
    shares: &Vec<(usize, BlindedSignatureShare)>,
    threshold: usize,
) -> (r: BlindedSignature)
    requires
        threshold >= 1,
        shares@.len() >= 1,
        forall|i: int, j: int|
            0 <= i < j < combine_count(threshold, shares@) ==> (#[trigger] shares@[i]).0 != (
            #[trigger] shares@[j]).0,
        forall|i: int|
            0 <= i < combine_count(threshold, shares@) ==> (#[trigger] shares@[i]).0
                < usize::MAX,
    ensures
        r.0 == interp_zero_g1(combine_points(shares@, combine_count(threshold, shares@))),
{
    let count = if threshold <= shares.len() {
        threshold
    } else {
        shares.len()
    };
    proof {
        assert(count as int == combine_count(threshold, shares@));
    }
    let mut pts: Vec<(u64, G1Affine)> = Vec::new();
    let mut i: usize = 0;
    while i < count
        invariant
            i <= count <= shares@.len(),
            count as int == combine_count(threshold, shares@),
            forall|k: int| 0 <= k < count ==> (#[trigger] shares@[k]).0 < usize::MAX,
            pts@ =~= combine_points(shares@, count as int).take(i as int),
        decreases count - i,
    {
        let idx = shares[i].0;
        let x = idx as u64 + 1;
        pts.push((x, shares[i].1.0));
        i = i + 1;
    }
    proof {
        assert(pts@ =~= combine_points(shares@, count as int));
        assert forall|a: int| 0 <= a < pts@.len() implies xs_of_g1(pts@)[a] != 0 by {
            assert(pts@[a].0 == (shares@[a].0 + 1) as u64);
        }
        assert forall|a: int, b: int| 0 <= a < b < pts@.len() implies xs_of_g1(pts@)[a]
            != xs_of_g1(pts@)[b] by {
            assert(pts@[a].0 == (shares@[a].0 + 1) as u64);
            assert(pts@[b].0 == (shares@[b].0 + 1) as u64);
            assert(shares@[a].0 != shares@[b].0);
        }
    }
    match interpolate_zero_g1(&pts) {
        Ok(p) => BlindedSignature(p),
        Err(_) => unreached(),
    }
}

/// Unblinds a blinded signature: scales it by the inverse of the blinding
/// key, which must be nonzero.
pub fn unblind_signature(blinding_key: BlindingKey, blinded_sig: BlindedSignature) -> (r:
    Signature)
    requires
        blinding_key.0 != scalar_of_u64(0),
    ensures
        r.0 == g1_scaled(blinded_sig.0, scalar_inverse(blinding_key.0)),
{
    let inv = match scalar_invert(&blinding_key.0) {
        Some(v) => v,
        None => unreached(),
    };
    Signature(g1_mul(&blinded_sig.0, &inv))
}

/// Unblinds after checking that the blinding key is usable: `None` exactly
/// when the key's scalar is zero.
pub fn try_unblind_signature(blinding_key: BlindingKey, blinded_sig: BlindedSignature) -> (r:
    Option<Signature>)
    ensures
        r is Some <==> blinding_key.0 != scalar_of_u64(0),
        r matches Some(s) ==> s.0 == g1_scaled(blinded_sig.0, scalar_inverse(blinding_key.0)),
{
    if scalar_is_zero(&blinding_key.0) {
        None
    } else {
        Some(unblind_signature(blinding_key, blinded_sig))
    }
}

/// Verifies a signature against the aggregate public key: the pairing of
/// the message with the key must equal the pairing of the signature with
/// the G2 generator.
pub fn verify(msg: Message, sig: Signature, pk: AggregatePublicKey) -> (r: bool)
    ensures
        r <==> pairing_of(msg.0, pk.0) == pairing_of(sig.0, g2_base_scaled(scalar_of_u64(1))),
{
    let lhs = pairing(&msg.0, &pk.0);
    let gen = g2_generator();
    let rhs = pairing(&sig.0, &gen);
    gt_eq(&lhs, &rhs)
}

/// Verifies one blinded signature share against the issuing holder's public
/// key share, by the same pairing equality.
pub fn verify_blind_share(
    msg: BlindedMessage,
    sig: BlindedSignatureShare,
    pk: PublicKeyShare,
) -> (r: bool)
    ensures
        r <==> pairing_of(msg.0, pk.0) == pairing_of(sig.0, g2_base_scaled(scalar_of_u64(1))),
{
    let lhs = pairing(&msg.0, &pk.0);
    let gen = g2_generator();
    let rhs = pairing(&sig.0, &gen);
    gt_eq(&lhs, &rhs)
}

/// A collection of key shares that can be aggregated into the dealer's
/// aggregate key.
pub trait Aggregatable {
    type Aggregate;

    /// When aggregation with this threshold is meaningful.
    spec fn can_aggregate(&self, threshold: usize) -> bool;

    /// The value that aggregation computes.
    spec fn aggregate_spec(&self, threshold: usize) -> Self::Aggregate;

    /// Aggregates the first `threshold` shares.
    fn aggregate(&self, threshold: usize) -> (r: Self::Aggregate)
        requires
            self.can_aggregate(threshold),
        ensures
            r == self.aggregate_spec(threshold),
    ;
}

impl Aggregatable for Vec<PublicKeyShare> {
    type Aggregate = AggregatePublicKey;

    open spec fn can_aggregate(&self, threshold: usize) -> bool {
        1 <= threshold <= self@.len()
    }

    open spec fn aggregate_spec(&self, threshold: usize) -> AggregatePublicKey {
        AggregatePublicKey(interp_zero_g2(aggregation_points(self@, threshold as int)))
    }

    /// Aggregates the first `threshold` public key shares by Lagrange
    /// interpolation at zero, share `i` at x-coordinate `i + 1`.
    fn aggregate(&self, threshold: usize) -> (r: AggregatePublicKey) {
        let mut pts: Vec<(u64, G2Affine)> = Vec::new();
        let mut i: usize = 0;
        while i < threshold
            invariant
                i <= threshold <= self@.len(),
                pts@ =~= aggregation_points(self@, threshold as int).take(i as int),
            decreases threshold - i,
        {
            let x = i as u64 + 1;
            pts.push((x, self[i].0));
            i = i + 1;
        }
        proof {
            assert(pts@ =~= aggregation_points(self@, threshold as int));
            assert forall|a: int| 0 <= a < pts@.len() implies xs_of_g2(pts@)[a] != 0 by {
                assert(pts@[a].0 == (a + 1) as u64);
            }
            assert forall|a: int, b: int| 0 <= a < b < pts@.len() implies xs_of_g2(pts@)[a]
                != xs_of_g2(pts@)[b] by {
                assert(pts@[a].0 == (a + 1) as u64);
                assert(pts@[b].0 == (b + 1) as u64);
            }
        }
        match interpolate_zero_g2(&pts) {
            Ok(p) => AggregatePublicKey(p),
            Err(_) => unreached(),
        }
    }
}

} // verus!
