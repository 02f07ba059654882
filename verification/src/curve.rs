use vstd::prelude::*;
use vstd::arithmetic::power2::pow2;
use crate::group_model::{AffineView, GroupVal, gv_zero, gv_add, gv_single, on_curve, chord_of_curve_points};
use crate::field_model::{base_modulus, f_sub, f_mul};
use ark_ec::{AffineCurve, ProjectiveCurve};
use ark_ff::{BigInteger, Field, FpParameters, One, Zero};

verus! {

/// An element of the curve's base field.
#[verifier::external_body]
pub struct FieldElement {
    inner: ark_bls12_381::Fq,
}

impl Clone for FieldElement {
    /// Relies on the copy holding the same field element.
    #[verifier::external_body]
    fn clone(&self) -> (r: Self)
        ensures
            fe_value(r) == fe_value(*self),
    {
        FieldElement { inner: self.inner }
    }
}

/// The mathematical value a base-field element holds: its canonical
/// (non-Montgomery) integer form, below the base-field modulus.
pub uninterp spec fn fe_value(e: FieldElement) -> nat;

/// A scalar in fixed-width big-integer form.
#[verifier::external_body]
pub struct Scalar {
    inner: ark_ff::BigInteger256,
}

impl Clone for Scalar {
    /// Relies on the copy holding the same integer words.
    #[verifier::external_body]
    fn clone(&self) -> (r: Self)
        ensures
            scalar_value(r) == scalar_value(*self),
    {
        Scalar { inner: self.inner }
    }
}

/// The mathematical value a scalar holds: the unsigned integer stored in its
/// fixed-width words.
pub uninterp spec fn scalar_value(s: Scalar) -> nat;

/// An affine curve point.
#[verifier::external_body]
pub struct AffinePoint {
    inner: ark_ec::short_weierstrass_jacobian::GroupAffine<ark_bls12_381::g1::Parameters>,
}

impl Clone for AffinePoint {
    /// Relies on the copy holding the same point.
    #[verifier::external_body]
    fn clone(&self) -> (r: Self)
        ensures
            affine_view(r) == affine_view(*self),
    {
        AffinePoint { inner: self.inner }
    }
}

/// What an affine point holds: its coordinate pair in canonical integer form
/// plus the point-at-infinity flag.
pub uninterp spec fn affine_view(p: AffinePoint) -> AffineView;

/// A projective point accumulator.
#[verifier::external_body]
pub struct ProjectivePoint {
    inner: ark_ec::short_weierstrass_jacobian::GroupProjective<ark_bls12_381::g1::Parameters>,
}

impl Clone for ProjectivePoint {
    /// Relies on the copy holding the same point.
    #[verifier::external_body]
    fn clone(&self) -> (r: Self)
        ensures
            formal_sum(r) == formal_sum(*self),
    {
        ProjectivePoint { inner: self.inner }
    }
}

/// What a point accumulator holds: the formal sum of affine points that has
/// been folded into it. The curve group law acts on accumulators exactly as
/// formal-sum addition acts on these values; the constructors fold in curve
/// points only, which the group-law contracts below rely on.
pub uninterp spec fn formal_sum(p: ProjectivePoint) -> GroupVal;

impl Scalar {
    /// Relies on the big integer's `From<u64>` filling only the lowest word.
    #[verifier::external_body]
    pub fn from_u64(x: u64) -> (r: Scalar)
        ensures
            scalar_value(r) == x as nat,
    {
        Scalar { inner: ark_ff::BigInteger256::from(x) }
    }

    /// Relies on the big integer's word constructor storing the words lowest
    /// first.
    #[verifier::external_body]
    pub fn from_limbs(w0: u64, w1: u64, w2: u64, w3: u64) -> (r: Scalar)
        ensures
            scalar_value(r) == w0 + w1 * pow2(64) + w2 * pow2(128) + w3 * pow2(192),
    {
        Scalar { inner: ark_ff::BigInteger256::new([w0, w1, w2, w3]) }
    }

    /// Relies on the big integer's `is_zero` checking every word.
    #[verifier::external_body]
    pub fn is_zero(&self) -> (r: bool)
        ensures
            r == (scalar_value(*self) == 0),
    {
        self.inner.is_zero()
    }

    /// Relies on the big integer's `divn`, a right shift by `n` bits.
    #[verifier::external_body]
    pub(crate) fn shift_right(&self, n: u32) -> (r: Scalar)
        ensures
            scalar_value(r) == scalar_value(*self) / pow2(n as nat),
    {
        let mut t = self.inner;
        t.divn(n);
        Scalar { inner: t }
    }

    /// Relies on the words of the big integer being stored lowest first.
    #[verifier::external_body]
    pub(crate) fn lowest_word(&self) -> (r: u64)
        ensures
            r as nat == scalar_value(*self) % pow2(64),
    {
        self.inner.as_ref()[0]
    }
}

/// Relies on the bit width that the scalar-field parameters state for their
/// modulus.
#[verifier::external_body]
pub(crate) fn scalar_modulus_bits() -> (r: usize)
    ensures
        r == 255,
{
    <ark_bls12_381::FrParameters as FpParameters>::MODULUS_BITS as usize
}

impl FieldElement {
    /// Relies on the field's multiplicative identity having canonical value one.
    #[verifier::external_body]
    pub(crate) fn one() -> (r: FieldElement)
        ensures
            fe_value(r) == 1,
            fe_value(r) < base_modulus(),
    {
        FieldElement { inner: ark_bls12_381::Fq::one() }
    }

    /// Relies on field subtraction being integer subtraction modulo the prime.
    #[verifier::external_body]
    pub(crate) fn sub(&self, other: &FieldElement) -> (r: FieldElement)
        requires
            fe_value(*self) < base_modulus(),
            fe_value(*other) < base_modulus(),
        ensures
            fe_value(r) == f_sub(fe_value(*self), fe_value(*other)),
            fe_value(r) < base_modulus(),
    {
        FieldElement { inner: self.inner - other.inner }
    }

    /// Relies on field multiplication being integer multiplication modulo the
    /// prime, and on the field having no zero divisors (the modulus is prime).
    #[verifier::external_body]
    pub(crate) fn mul(&self, other: &FieldElement) -> (r: FieldElement)
        requires
            fe_value(*self) < base_modulus(),
            fe_value(*other) < base_modulus(),
        ensures
            fe_value(r) == f_mul(fe_value(*self), fe_value(*other)),
            fe_value(r) < base_modulus(),
            fe_value(*self) != 0 && fe_value(*other) != 0 ==> fe_value(r) != 0,
    {
        FieldElement { inner: self.inner * other.inner }
    }

    /// Relies on `Field::inverse` returning the multiplicative inverse for a
    /// non-zero element and nothing for zero.
    #[verifier::external_body]
    pub(crate) fn inverse(&self) -> (r: Option<FieldElement>)
        requires
            fe_value(*self) < base_modulus(),
        ensures
            r is Some <==> fe_value(*self) != 0,
            r matches Some(v) ==> fe_value(v) < base_modulus() && f_mul(
                fe_value(v),
                fe_value(*self),
            ) == 1,
    {
        match self.inner.inverse() {
            Some(v) => Some(FieldElement { inner: v }),
            None => None,
        }
    }
}

impl AffinePoint {
    /// Relies on `prime_subgroup_generator` returning a finite curve point
    /// with canonical coordinates.
    #[verifier::external_body]
    pub fn generator() -> (r: AffinePoint)
        ensures
            !affine_view(r).infinity,
            affine_view(r).x < base_modulus(),
            affine_view(r).y < base_modulus(),
            on_curve(affine_view(r)),
    {
        AffinePoint { inner: ark_bls12_381::G1Affine::prime_subgroup_generator() }
    }

    /// Relies on the affine point's public coordinate fields.
    #[verifier::external_body]
    pub(crate) fn x_coord(&self) -> (r: FieldElement)
        ensures
            fe_value(r) == affine_view(*self).x,
    {
        FieldElement { inner: self.inner.x }
    }

    /// Relies on the affine point's public coordinate fields.
    #[verifier::external_body]
    pub(crate) fn y_coord(&self) -> (r: FieldElement)
        ensures
            fe_value(r) == affine_view(*self).y,
    {
        FieldElement { inner: self.inner.y }
    }

    /// Relies on the affine constructor storing the given coordinates as a
    /// finite point, and on the chord construction: the affine sum of two
    /// finite curve points with distinct `x` lies on the curve again, so only
    /// curve points are ever stored.
    #[verifier::external_body]
    pub(crate) fn from_coords(x: &FieldElement, y: &FieldElement) -> (r: AffinePoint)
        requires
            exists|p1: AffineView, p2: AffineView| #[trigger] chord_of_curve_points(
                AffineView { x: fe_value(*x), y: fe_value(*y), infinity: false },
                p1,
                p2,
            ),
        ensures
            affine_view(r) == (AffineView { x: fe_value(*x), y: fe_value(*y), infinity: false }),
            on_curve(affine_view(r)),
    {
        AffinePoint {
            inner: ark_ec::short_weierstrass_jacobian::GroupAffine::new(x.inner, y.inner, false),
        }
    }

    /// Relies on affine equality comparing the coordinates and the infinity
    /// flag field by field.
    #[verifier::external_body]
    pub fn equals(&self, other: &AffinePoint) -> (r: bool)
        ensures
            r == (affine_view(*self) == affine_view(*other)),
    {
        self.inner == other.inner
    }
}

impl ProjectivePoint {
    /// Relies on `zero` returning the group identity, which carries the empty
    /// formal sum.
    #[verifier::external_body]
    pub fn identity() -> (r: ProjectivePoint)
        ensures
            formal_sum(r) == gv_zero(),
    {
        ProjectivePoint { inner: ark_ec::short_weierstrass_jacobian::GroupProjective::zero() }
    }

    /// Relies on `into_projective` converting without changing the point, so
    /// the result carries that one affine point once.
    #[verifier::external_body]
    pub fn from_affine(p: &AffinePoint) -> (r: ProjectivePoint)
        ensures
            formal_sum(r) == gv_single(affine_view(*p)),
    {
        ProjectivePoint { inner: p.inner.into_projective() }
    }

    /// Relies on projective addition implementing the curve group law, which
    /// adds the formal sums of the operands.
    #[verifier::external_body]
    pub(crate) fn add(&self, other: &ProjectivePoint) -> (r: ProjectivePoint)
        ensures
            formal_sum(r) == gv_add(formal_sum(*self), formal_sum(*other)),
    {
        let mut t = self.inner;
        t += &other.inner;
        ProjectivePoint { inner: t }
    }

    /// Relies on mixed addition implementing the curve group law for an
    /// affine addend.
    #[verifier::external_body]
    pub(crate) fn add_mixed(&self, other: &AffinePoint) -> (r: ProjectivePoint)
        ensures
            formal_sum(r) == gv_add(formal_sum(*self), gv_single(affine_view(*other))),
    {
        let mut t = self.inner;
        t.add_assign_mixed(&other.inner);
        ProjectivePoint { inner: t }
    }

    /// Relies on `double_in_place` implementing the curve's doubling, which
    /// adds the point's formal sum to itself.
    #[verifier::external_body]
    pub(crate) fn double(&self) -> (r: ProjectivePoint)
        ensures
            formal_sum(r) == gv_add(formal_sum(*self), formal_sum(*self)),
    {
        let mut t = self.inner;
        t.double_in_place();
        ProjectivePoint { inner: t }
    }

    /// Relies on projective equality comparing points as group elements:
    /// equal formal sums evaluate to equal group elements.
    #[verifier::external_body]
    pub fn equals(&self, other: &ProjectivePoint) -> (r: bool)
        ensures
            formal_sum(*self) == formal_sum(*other) ==> r,
    {
        self.inner == other.inner
    }

    /// Relies on `into_affine` returning canonical coordinates, and on the
    /// accumulator holding a sum of curve points, whose value is a curve
    /// point.
    #[verifier::external_body]
    pub fn to_affine(&self) -> (r: AffinePoint)
        ensures
            affine_view(r).x < base_modulus(),
            affine_view(r).y < base_modulus(),
            on_curve(affine_view(r)),
    {
        AffinePoint { inner: self.inner.into_affine() }
    }
}

} // verus!
