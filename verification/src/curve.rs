//! Points of the BLS12-381 G1 group in affine form, which serve as
//! polynomial commitments, and their random linear combinations.
use crate::field::{fpow, values, Scalar};
use ark_bls12_381::{Fq, Fr, G1Affine, G1Projective};
use ark_ec::{CurveGroup, VariableBaseMSM};
use ark_ff::{BigInt, PrimeField};
use vstd::prelude::*;

verus! {

/// The order of the BLS12-381 base field.
pub open spec fn base_modulus() -> nat {
    4002409555221667393417789825735904156556882819939007885332058136124031650490837864442687629129015664037894272559787nat
}

/// The integer encoded by six little-endian 64-bit limbs.
pub open spec fn limbs6_value(l: Seq<u64>) -> nat
    decreases l.len(),
{
    if l.len() == 0 {
        0
    } else {
        l[0] as nat + 0x1_0000_0000_0000_0000nat * limbs6_value(l.drop_first())
    }
}

/// An affine G1 point: canonical base-field coordinates and the flag of the
/// point at infinity, which `ark_ec` accepts as a point of the curve in the
/// prime-order subgroup.
#[derive(Clone, Copy, Debug)]
pub struct G1Point {
    x: [u64; 6],
    y: [u64; 6],
    infinity: bool,
}

impl G1Point {
    #[verifier::type_invariant]
    pub open spec fn canonical(self) -> bool {
        &&& limbs6_value(self@.0) < base_modulus()
        &&& limbs6_value(self@.1) < base_modulus()
        &&& g1_valid(self@)
    }
}

impl View for G1Point {
    type V = (Seq<u64>, Seq<u64>, bool);

    closed spec fn view(&self) -> (Seq<u64>, Seq<u64>, bool) {
        (self.x@, self.y@, self.infinity)
    }
}

/// The views of a list of points.
pub open spec fn point_views(s: Seq<G1Point>) -> Seq<(Seq<u64>, Seq<u64>, bool)> {
    s.map_values(|p: G1Point| p@)
}

/// What `ark_ec`'s multi-scalar multiplication `sum_i scalars[i] * points[i]`
/// returns in affine form, as a function of the points' coordinates and the
/// scalars' values.
pub uninterp spec fn g1_msm(points: Seq<(Seq<u64>, Seq<u64>, bool)>, scalars: Seq<nat>) -> (
    Seq<u64>,
    Seq<u64>,
    bool,
);

/// `ark_ff` `PrimeField::from_bigint` for the base field, read as a test:
/// whether the six little-endian limbs encode a value below the base modulus.
#[verifier::external_body]
fn base_field_canonical(limbs: [u64; 6]) -> (r: bool)
    ensures
        r == (limbs6_value(limbs@) < base_modulus()),
{
    Fq::from_bigint(BigInt::new(limbs)).is_some()
}

/// Whether `ark_ec` accepts the affine point with these canonical
/// coordinates and flag as on the curve and in the prime-order subgroup.
pub uninterp spec fn g1_valid(p: (Seq<u64>, Seq<u64>, bool)) -> bool;

/// `ark_ec` short-Weierstrass `Affine::is_on_curve` followed by
/// `is_in_correct_subgroup_assuming_on_curve` for G1 on the point with these
/// canonical coordinates and flag; the result is named `g1_valid`.
#[verifier::external_body]
fn g1_check(x: [u64; 6], y: [u64; 6], infinity: bool) -> (r: bool)
    requires
        limbs6_value(x@) < base_modulus(),
        limbs6_value(y@) < base_modulus(),
    ensures
        r == g1_valid((x@, y@, infinity)),
{
    let p = G1Affine { x: Fq::from_bigint(BigInt::new(x)).unwrap(), y: Fq::from_bigint(BigInt::new(y)).unwrap(), infinity };
    p.is_on_curve() && p.is_in_correct_subgroup_assuming_on_curve()
}

impl G1Point {
    /// The point with the given coordinates and infinity flag, when both
    /// coordinates lie below the base modulus and the point lies on the
    /// curve in the prime-order subgroup.
    pub fn from_coordinates(x: [u64; 6], y: [u64; 6], infinity: bool) -> (r: Option<G1Point>)
        ensures
            r is Some <==> (limbs6_value(x@) < base_modulus() && limbs6_value(y@) < base_modulus() && g1_valid(
                (x@, y@, infinity),
            )),
            r matches Some(p) ==> p@ == (x@, y@, infinity),
    {
        if base_field_canonical(x) && base_field_canonical(y) {
            if g1_check(x, y, infinity) {
                Some(G1Point { x, y, infinity })
            } else {
                None
            }
        } else {
            None
        }
    }

    /// The canonical coordinates and the infinity flag.
    pub fn coordinates(&self) -> (r: ([u64; 6], [u64; 6], bool))
        ensures
            (r.0@, r.1@, r.2) == self@,
    {
        (self.x, self.y, self.infinity)
    }
}

/// `ark_ec` `VariableBaseMSM::msm` over G1 followed by `into_affine`:
/// `sum_i scalars[i] * points[i]`. The result is a sum of multiples of
/// points of the subgroup, so it lies on the curve in the subgroup.
#[verifier::external_body]
fn msm(points: &[G1Point], scalars: &[Scalar]) -> (r: G1Point)
    requires
        points.len() == scalars.len(),
    ensures
        r@ == g1_msm(point_views(points@), values(scalars@)),
        (forall|i: int| 0 <= i < points.len() ==> g1_valid(#[trigger] points@[i]@)) ==> g1_valid(r@),
{
    let bases: Vec<G1Affine> = points.iter().map(|p| G1Affine { x: Fq::from_bigint(BigInt::new(p.x)).unwrap(), y: Fq::from_bigint(BigInt::new(p.y)).unwrap(), infinity: p.infinity }).collect();
    let coeffs: Vec<Fr> = scalars.iter().map(|s| Fr::from_bigint(BigInt::new(s.limbs())).unwrap()).collect();
    let r = G1Projective::msm(&bases, &coeffs).unwrap().into_affine();
    G1Point { x: r.x.into_bigint().0, y: r.y.into_bigint().0, infinity: r.infinity }
}

/// The powers `coeff^0, ..., coeff^(n - 1)`.
pub open spec fn powers(coeff: nat, n: nat) -> Seq<nat> {
    Seq::new(n, |i: int| fpow(coeff, i as nat))
}

/// `sum_i coeff^i * points[i]`.
pub fn point_rlc(points: &[G1Point], coeff: &Scalar) -> (r: G1Point)
    ensures
        r@ == g1_msm(point_views(points@), powers(coeff@, points.len() as nat)),
{
    let mut coeffs: Vec<Scalar> = Vec::new();
    for idx in 0..points.len()
        invariant
            coeffs.len() == idx,
            forall|i: int| 0 <= i < idx ==> (#[trigger] coeffs[i])@ == fpow(coeff@, i as nat),
    {
        coeffs.push(coeff.pow(idx as u64));
    }
    assert(values(coeffs@) =~= powers(coeff@, points.len() as nat));
    msm(points, coeffs.as_slice())
}

/// The commitment `sum_i coeff^i * commitments[i]`.
pub fn commitment_rlc(commitments: &[G1Point], coeff: &Scalar) -> (r: G1Point)
    ensures
        r@ == g1_msm(point_views(commitments@), powers(coeff@, commitments.len() as nat)),
{
    point_rlc(commitments, coeff)
}

} // verus!
