//! Scalar-coefficient polynomials and Lagrange interpolation at zero.
//!
//! A polynomial of degree `d` is a sequence of `d + 1` scalar coefficients,
//! lowest first.  Interpolation at zero reconstructs `f(0)` from evaluations
//! `(x_i, y_i)`: it computes the sum of `y_i * L_i(0)` where
//! `L_i(0) = prod over j != i of x_j * (x_j - x_i)^-1`.  The x-coordinates
//! are 64-bit integers embedded into the scalar field; they must be distinct
//! and nonzero (the slot at zero holds the shared secret).  The same formula
//! serves both codomains used by the signature scheme: G1 points (combining
//! signature shares) and G2 points (aggregating public key shares).

use vstd::prelude::*;
use vstd::pervasive::unreached;

use bls12_381::{G1Affine, G2Affine, Scalar};

use crate::bls::{
    g1_mul, g1_add, g1_scaled, g1_sum, g2_mul, g2_add, g2_scaled, g2_sum, scalar_add,
    scalar_from_u64, scalar_invert, scalar_mul, scalar_of_u64, scalar_random, scalar_sub,
    scalar_diff, scalar_inverse, scalar_prod, scalar_sum,
};

verus! {

/// Failure of a cryptographic primitive on degenerate input.
#[derive(Clone, Copy, Debug, PartialEq, Eq)]
pub enum CryptoError {
    /// Interpolation x-coordinates were not distinct and nonzero.
    DegenerateInterpolation,
}

/// The value of the polynomial with the given coefficients (lowest first)
/// at `x`, by Horner's method.
pub open spec fn horner_eval(coeffs: Seq<Scalar>, x: Scalar) -> Scalar
    decreases coeffs.len(),
{
    if coeffs.len() == 0 {
        scalar_of_u64(0)
    } else {
        scalar_sum(coeffs[0], scalar_prod(x, horner_eval(coeffs.drop_first(), x)))
    }
}

/// One factor of the Lagrange basis polynomial at zero:
/// `x_j * (x_j - x_i)^-1`.
pub open spec fn lagrange_factor(xj: u64, xi: u64) -> Scalar {
    scalar_prod(
        scalar_of_u64(xj),
        scalar_inverse(scalar_diff(scalar_of_u64(xj), scalar_of_u64(xi))),
    )
}

/// The product of the Lagrange factors for index `i` over the first `j`
/// x-coordinates, skipping `i` itself.
pub open spec fn lagrange_prefix(xs: Seq<u64>, i: int, j: int) -> Scalar
    decreases j,
{
    if j <= 0 {
        scalar_of_u64(1)
    } else if j - 1 == i {
        lagrange_prefix(xs, i, j - 1)
    } else {
        scalar_prod(lagrange_prefix(xs, i, j - 1), lagrange_factor(xs[j - 1], xs[i]))
    }
}

/// The Lagrange basis polynomial for index `i` evaluated at zero.
pub open spec fn lagrange_at_zero(xs: Seq<u64>, i: int) -> Scalar {
    lagrange_prefix(xs, i, xs.len() as int)
}

/// All x-coordinates pairwise distinct and nonzero.
pub open spec fn distinct_nonzero(xs: Seq<u64>) -> bool {
    (forall|i: int| 0 <= i < xs.len() ==> xs[i] != 0) && (forall|i: int, j: int|
        0 <= i < j < xs.len() ==> xs[i] != xs[j])
}

pub open spec fn xs_of_g1(pts: Seq<(u64, G1Affine)>) -> Seq<u64> {
    pts.map_values(|p: (u64, G1Affine)| p.0)
}

pub open spec fn xs_of_g2(pts: Seq<(u64, G2Affine)>) -> Seq<u64> {
    pts.map_values(|p: (u64, G2Affine)| p.0)
}

/// The sum of the first `k` interpolation terms `y_i * L_i(0)` over G1.
pub open spec fn interp_prefix_g1(pts: Seq<(u64, G1Affine)>, k: int) -> G1Affine
    decreases k,
{
    if k <= 1 {
        g1_scaled(pts[0].1, lagrange_at_zero(xs_of_g1(pts), 0))
    } else {
        g1_sum(
            interp_prefix_g1(pts, k - 1),
            g1_scaled(pts[k - 1].1, lagrange_at_zero(xs_of_g1(pts), k - 1)),
        )
    }
}

/// The interpolation of `f(0)` from the given points, as a G1 point.
pub open spec fn interp_zero_g1(pts: Seq<(u64, G1Affine)>) -> G1Affine {
    interp_prefix_g1(pts, pts.len() as int)
}

/// The sum of the first `k` interpolation terms `y_i * L_i(0)` over G2.
pub open spec fn interp_prefix_g2(pts: Seq<(u64, G2Affine)>, k: int) -> G2Affine
    decreases k,
{
    if k <= 1 {
        g2_scaled(pts[0].1, lagrange_at_zero(xs_of_g2(pts), 0))
    } else {
        g2_sum(
            interp_prefix_g2(pts, k - 1),
            g2_scaled(pts[k - 1].1, lagrange_at_zero(xs_of_g2(pts), k - 1)),
        )
    }
}

/// The interpolation of `f(0)` from the given points, as a G2 point.
pub open spec fn interp_zero_g2(pts: Seq<(u64, G2Affine)>) -> G2Affine {
    interp_prefix_g2(pts, pts.len() as int)
}

/// Draws `n` uniform random coefficients: a random polynomial of degree
/// `n - 1`.
pub fn random_coefficients(n: usize) -> (r: Vec<Scalar>)
    ensures
        r@.len() == n,
{
    let mut coeffs: Vec<Scalar> = Vec::new();
    let mut i: usize = 0;
    while i < n
        invariant
            coeffs@.len() == i,
            i <= n,
        decreases n - i,
    {
        coeffs.push(scalar_random());
        i = i + 1;
    }
    coeffs
}

/// Evaluates the polynomial at the embedded integer `x` by Horner's method.
pub fn evaluate(coeffs: &Vec<Scalar>, x: u64) -> (r: Scalar)
    ensures
        r == horner_eval(coeffs@, scalar_of_u64(x)),
{
    let xs = scalar_from_u64(x);
    let mut acc = scalar_from_u64(0);
    let mut i: usize = coeffs.len();
    while i > 0
        invariant
            i <= coeffs@.len(),
            xs == scalar_of_u64(x),
            acc == horner_eval(coeffs@.skip(i as int), scalar_of_u64(x)),
        decreases i,
    {
        i = i - 1;
        let t = scalar_mul(&xs, &acc);
        let c = coeffs[i];
        acc = scalar_add(&c, &t);
        proof {
            assert(coeffs@.skip(i as int).drop_first() =~= coeffs@.skip(i as int + 1));
            assert(coeffs@.skip(i as int)[0] == coeffs@[i as int]);
        }
    }
    proof {
        assert(coeffs@.skip(0) =~= coeffs@);
    }
    acc
}

/// Tests whether the x-coordinates are pairwise distinct and all nonzero.
fn check_distinct_nonzero(xs: &Vec<u64>) -> (r: bool)
    ensures
        r <==> distinct_nonzero(xs@),
{
    let n = xs.len();
    let mut i: usize = 0;
    while i < n
        invariant
            i <= n,
            n == xs@.len(),
            forall|k: int| 0 <= k < i ==> xs@[k] != 0,
            forall|k: int, l: int| 0 <= k < l < i ==> xs@[k] != xs@[l],
        decreases n - i,
    {
        if xs[i] == 0 {
            return false;
        }
        let mut j: usize = 0;
        while j < i
            invariant
                j <= i < n,
                n == xs@.len(),
                forall|k: int| 0 <= k < j ==> xs@[k] != xs@[i as int],
            decreases i - j,
        {
            if xs[j] == xs[i] {
                return false;
            }
            j = j + 1;
        }
        i = i + 1;
    }
    true
}

/// Computes the Lagrange basis polynomial for index `i` at zero.  The
/// x-coordinates must be pairwise distinct so that every difference in a
/// denominator is invertible.
fn lagrange_coefficient(xs: &Vec<u64>, i: usize) -> (r: Scalar)
    requires
        i < xs@.len(),
        forall|k: int, l: int| 0 <= k < l < xs@.len() ==> xs@[k] != xs@[l],
    ensures
        r == lagrange_at_zero(xs@, i as int),
{
    let n = xs.len();
    let xi = xs[i];
    let xi_s = scalar_from_u64(xi);
    let mut lam = scalar_from_u64(1);
    let mut j: usize = 0;
    while j < n
        invariant
            j <= n,
            n == xs@.len(),
            i < n,
            xi == xs@[i as int],
            xi_s == scalar_of_u64(xi),
            forall|k: int, l: int| 0 <= k < l < xs@.len() ==> xs@[k] != xs@[l],
            lam == lagrange_prefix(xs@, i as int, j as int),
        decreases n - j,
    {
        if j != i {
            let xj = xs[j];
            let xj_s = scalar_from_u64(xj);
            proof {
                if j < i {
                    assert(xs@[j as int] != xs@[i as int]);
                } else {
                    assert(xs@[i as int] != xs@[j as int]);
                }
            }
            let d = scalar_sub(&xj_s, &xi_s);
            let inv = match scalar_invert(&d) {
                Some(v) => v,
                None => unreached(),
            };
            let f = scalar_mul(&xj_s, &inv);
            lam = scalar_mul(&lam, &f);
        }
        j = j + 1;
    }
    lam
}

/// Interpolates at zero over G1: the sum of `y_i * L_i(0)`.  Fails exactly
/// when the x-coordinates are not pairwise distinct and nonzero.
pub fn interpolate_zero_g1(points: &Vec<(u64, G1Affine)>) -> (r: Result<
    G1Affine,
    CryptoError,
>)
    requires
        points@.len() >= 1,
    ensures
        r is Ok <==> distinct_nonzero(xs_of_g1(points@)),
        r matches Ok(p) ==> p == interp_zero_g1(points@),
        r matches Err(e) ==> e == CryptoError::DegenerateInterpolation,
{
    let n = points.len();
    let mut xs: Vec<u64> = Vec::new();
    let mut k: usize = 0;
    while k < n
        invariant
            k <= n,
            n == points@.len(),
            xs@ =~= xs_of_g1(points@).take(k as int),
        decreases n - k,
    {
        xs.push(points[k].0);
        k = k + 1;
    }
    proof {
        assert(xs@ =~= xs_of_g1(points@));
    }
    if !check_distinct_nonzero(&xs) {
        return Err(CryptoError::DegenerateInterpolation);
    }
    let lam0 = lagrange_coefficient(&xs, 0);
    let mut acc = g1_mul(&points[0].1, &lam0);
    let mut i: usize = 1;
    while i < n
        invariant
            1 <= i <= n,
            n == points@.len(),
            xs@ == xs_of_g1(points@),
            distinct_nonzero(xs@),
            acc == interp_prefix_g1(points@, i as int),
        decreases n - i,
    {
        let lam = lagrange_coefficient(&xs, i);
        let term = g1_mul(&points[i].1, &lam);
        acc = g1_add(&acc, &term);
        i = i + 1;
    }
    Ok(acc)
}

/// Interpolates at zero over G2: the sum of `y_i * L_i(0)`.  Fails exactly
/// when the x-coordinates are not pairwise distinct and nonzero.
pub fn interpolate_zero_g2(points: &Vec<(u64, G2Affine)>) -> (r: Result<
    G2Affine,
    CryptoError,
>)
    requires
        points@.len() >= 1,
    ensures
        r is Ok <==> distinct_nonzero(xs_of_g2(points@)),
        r matches Ok(p) ==> p == interp_zero_g2(points@),
        r matches Err(e) ==> e == CryptoError::DegenerateInterpolation,
{
    let n = points.len();
    let mut xs: Vec<u64> = Vec::new();
    let mut k: usize = 0;
    while k < n
        invariant
            k <= n,
            n == points@.len(),
            xs@ =~= xs_of_g2(points@).take(k as int),
        decreases n - k,
    {
        xs.push(points[k].0);
        k = k + 1;
    }
    proof {
        assert(xs@ =~= xs_of_g2(points@));
    }
    if !check_distinct_nonzero(&xs) {
        return Err(CryptoError::DegenerateInterpolation);
    }
    let lam0 = lagrange_coefficient(&xs, 0);
    let mut acc = g2_mul(&points[0].1, &lam0);
    let mut i: usize = 1;
    while i < n
        invariant
            1 <= i <= n,
            n == points@.len(),
            xs@ == xs_of_g2(points@),
            distinct_nonzero(xs@),
            acc == interp_prefix_g2(points@, i as int),
        decreases n - i,
    {
        let lam = lagrange_coefficient(&xs, i);
        let term = g2_mul(&points[i].1, &lam);
        acc = g2_add(&acc, &term);
        i = i + 1;
    }
    Ok(acc)
}

} // verus!
