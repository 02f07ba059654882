use vstd::prelude::*;
use crate::field_model::{f_add, f_sub, f_mul, f_inv};

verus! {

/// Spec-level picture of an affine curve point: both coordinates in canonical
/// integer form together with the point-at-infinity flag.
pub struct AffineView {
    pub x: nat,
    pub y: nat,
    pub infinity: bool,
}

/// Whether a view lies on the curve: the point at infinity, or a coordinate
/// pair satisfying the curve equation `y^2 = x^3 + 4`.
pub open spec fn on_curve(v: AffineView) -> bool {
    v.infinity || f_mul(v.y, v.y) == f_add(f_mul(f_mul(v.x, v.x), v.x), 4)
}

/// The slope of the chord through two affine points with distinct `x`.
pub open spec fn chord_slope(p1: AffineView, p2: AffineView) -> nat {
    f_mul(f_sub(p2.y, p1.y), f_inv(f_sub(p2.x, p1.x)))
}

/// The affine sum of two points with distinct `x` coordinates, by the chord
/// construction: `x3 = m^2 - x1 - x2` and `y3 = m (x1 - x3) - y1`.
pub open spec fn chord_sum(p1: AffineView, p2: AffineView) -> AffineView {
    let m = chord_slope(p1, p2);
    let x3 = f_sub(f_sub(f_mul(m, m), p1.x), p2.x);
    AffineView { x: x3, y: f_sub(f_mul(m, f_sub(p1.x, x3)), p1.y), infinity: false }
}

/// `v` is the chord sum of two finite curve points with distinct `x`
/// coordinates; such a sum lies on the curve again.
pub open spec fn chord_of_curve_points(v: AffineView, p1: AffineView, p2: AffineView) -> bool {
    on_curve(p1) && on_curve(p2) && !p1.infinity && !p2.infinity && p1.x != p2.x && v == chord_sum(
        p1,
        p2,
    )
}

/// The mathematical value carried by a point accumulator: a formal sum of
/// affine points with natural-number multiplicities (an element of the free
/// abelian monoid over affine points). The curve's group operations act on
/// accumulators exactly as formal-sum addition acts on these values.
pub type GroupVal = spec_fn(AffineView) -> nat;

/// The empty formal sum, carried by the group identity.
pub open spec fn gv_zero() -> GroupVal {
    |p: AffineView| 0nat
}

/// Formal sum of two formal sums: multiplicities add pointwise.
pub open spec fn gv_add(a: GroupVal, b: GroupVal) -> GroupVal {
    |p: AffineView| a(p) + b(p)
}

/// A formal sum scaled by a natural number.
pub open spec fn gv_scale(k: nat, a: GroupVal) -> GroupVal {
    |p: AffineView| k * a(p)
}

/// The formal sum holding a single affine point once.
pub open spec fn gv_single(q: AffineView) -> GroupVal {
    |p: AffineView| if p == q { 1nat } else { 0nat }
}

pub proof fn lemma_gv_add_zero(a: GroupVal)
    ensures
        gv_add(a, gv_zero()) == a,
        gv_add(gv_zero(), a) == a,
{
    assert(gv_add(a, gv_zero()) =~= a);
    assert(gv_add(gv_zero(), a) =~= a);
}

pub proof fn lemma_gv_add_comm(a: GroupVal, b: GroupVal)
    ensures
        gv_add(a, b) == gv_add(b, a),
{
    assert(gv_add(a, b) =~= gv_add(b, a));
}

pub proof fn lemma_gv_add_assoc(a: GroupVal, b: GroupVal, c: GroupVal)
    ensures
        gv_add(gv_add(a, b), c) == gv_add(a, gv_add(b, c)),
{
    assert(gv_add(gv_add(a, b), c) =~= gv_add(a, gv_add(b, c)));
}

pub proof fn lemma_gv_scale_zero(a: GroupVal)
    ensures
        gv_scale(0, a) == gv_zero(),
{
    assert(gv_scale(0, a) =~= gv_zero());
}

pub proof fn lemma_gv_scale_one(a: GroupVal)
    ensures
        gv_scale(1, a) == a,
{
    assert(gv_scale(1, a) =~= a);
}

/// Doubling an accumulator doubles every multiplicity.
pub proof fn lemma_gv_add_self_is_scale_two(a: GroupVal)
    ensures
        gv_add(a, a) == gv_scale(2, a),
{
    assert forall|p: AffineView| #[trigger] gv_add(a, a)(p) == gv_scale(2, a)(p) by {
        assert(a(p) + a(p) == 2 * a(p)) by (nonlinear_arith);
    }
    assert(gv_add(a, a) =~= gv_scale(2, a));
}

pub proof fn lemma_gv_add_exchange(a: GroupVal, b: GroupVal, c: GroupVal, d: GroupVal)
    ensures
        gv_add(gv_add(a, b), gv_add(c, d)) == gv_add(gv_add(a, c), gv_add(b, d)),
{
    assert(gv_add(gv_add(a, b), gv_add(c, d)) =~= gv_add(gv_add(a, c), gv_add(b, d)));
}

pub proof fn lemma_gv_scale_of_zero(k: nat)
    ensures
        gv_scale(k, gv_zero()) == gv_zero(),
{
    assert forall|p: AffineView| #[trigger] gv_scale(k, gv_zero())(p) == gv_zero()(p) by {
        assert(k * 0nat == 0) by (nonlinear_arith);
    }
    assert(gv_scale(k, gv_zero()) =~= gv_zero());
}

pub proof fn lemma_gv_scale_split(k1: nat, k2: nat, a: GroupVal)
    ensures
        gv_scale(k1 + k2, a) == gv_add(gv_scale(k1, a), gv_scale(k2, a)),
{
    assert forall|p: AffineView| #[trigger] gv_scale((k1 + k2) as nat, a)(p) == gv_add(
        gv_scale(k1, a),
        gv_scale(k2, a),
    )(p) by {
        assert((k1 + k2) * a(p) == k1 * a(p) + k2 * a(p)) by (nonlinear_arith);
    }
    assert(gv_scale(k1 + k2, a) =~= gv_add(gv_scale(k1, a), gv_scale(k2, a)));
}

pub proof fn lemma_gv_scale_scale(k1: nat, k2: nat, a: GroupVal)
    ensures
        gv_scale(k1 * k2, a) == gv_scale(k1, gv_scale(k2, a)),
{
    assert forall|p: AffineView| #[trigger] gv_scale((k1 * k2) as nat, a)(p) == gv_scale(
        k1,
        gv_scale(k2, a),
    )(p) by {
        assert((k1 * k2) * a(p) == k1 * (k2 * a(p))) by (nonlinear_arith);
    }
    assert(gv_scale(k1 * k2, a) =~= gv_scale(k1, gv_scale(k2, a)));
}

pub proof fn lemma_gv_scale_add(k: nat, a: GroupVal, b: GroupVal)
    ensures
        gv_scale(k, gv_add(a, b)) == gv_add(gv_scale(k, a), gv_scale(k, b)),
{
    assert forall|p: AffineView| #[trigger] gv_scale(k, gv_add(a, b))(p) == gv_add(
        gv_scale(k, a),
        gv_scale(k, b),
    )(p) by {
        assert(k * (a(p) + b(p)) == k * a(p) + k * b(p)) by (nonlinear_arith);
    }
    assert(gv_scale(k, gv_add(a, b)) =~= gv_add(gv_scale(k, a), gv_scale(k, b)));
}

} // verus!
