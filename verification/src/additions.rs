use vstd::prelude::*;
use crate::field_model::{base_modulus, f_sub, f_mul, lemma_f_inv_unique, lemma_f_sub_eq_zero, lemma_f_mul_zero, lemma_f_mul_comm, lemma_f_mul_assoc};
use crate::group_model::{AffineView, gv_add, gv_single, on_curve, chord_slope, chord_sum, chord_of_curve_points};
use crate::curve::{AffinePoint, ProjectivePoint, FieldElement, affine_view, formal_sum, fe_value};
use crate::msm::VariableBaseMSM;

verus! {

/// Why a batched point operation was refused.
#[derive(Clone, Copy, PartialEq, Eq, Debug)]
pub enum PairError {
    /// The two index sequences have different lengths.
    LengthMismatch,
    /// An index reaches past the end of the point sequence.
    IndexOutOfRange,
    /// Some pair has equal `x` coordinates, so the shared batched product
    /// cannot be inverted.
    NonInvertible,
}

/// Every index stays below the number of points.
pub open spec fn indices_valid(plen: nat, idx: Seq<usize>) -> bool {
    forall|i: int| 0 <= i < idx.len() ==> (#[trigger] idx[i]) < plen
}

/// Every point's coordinates are canonical base-field values.
pub open spec fn points_canonical(ps: Seq<AffinePoint>) -> bool {
    forall|j: int|
        0 <= j < ps.len() ==> affine_view(#[trigger] ps[j]).x < base_modulus() && affine_view(
            ps[j],
        ).y < base_modulus()
}

/// Every point lies on the curve (the point at infinity counts as on it).
pub open spec fn points_on_curve(ps: Seq<AffinePoint>) -> bool {
    forall|j: int| 0 <= j < ps.len() ==> on_curve(affine_view(#[trigger] ps[j]))
}

/// Every pair whose indices are in range names two finite points: the batch
/// adder has no case for an identity operand.
pub open spec fn pairs_finite(ps: Seq<AffinePoint>, fst: Seq<usize>, snd: Seq<usize>) -> bool {
    forall|i: int|
        0 <= i < fst.len() ==> ((#[trigger] fst[i]) < ps.len() ==> !affine_view(
            ps[fst[i] as int],
        ).infinity) && (snd[i] < ps.len() ==> !affine_view(ps[snd[i] as int]).infinity)
}

/// The difference of the `x` coordinates of pair `i` (second minus first).
pub open spec fn pair_x_diff(ps: Seq<AffinePoint>, fst: Seq<usize>, snd: Seq<usize>, i: int) -> nat {
    f_sub(affine_view(ps[snd[i] as int]).x, affine_view(ps[fst[i] as int]).x)
}

/// Every pair has distinct `x` coordinates, so its chord slope exists.
pub open spec fn all_pairs_addable(ps: Seq<AffinePoint>, fst: Seq<usize>, snd: Seq<usize>) -> bool {
    forall|i: int| 0 <= i < fst.len() ==> #[trigger] pair_x_diff(ps, fst, snd, i) != 0
}

/// The product of `av[i] * ... * av[j-1]` in the base field.
pub open spec fn prod_range(av: Seq<nat>, i: int, j: int) -> nat
    decreases j - i,
{
    if i >= j {
        1
    } else {
        f_mul(prod_range(av, i, j - 1), av[j - 1])
    }
}

proof fn lemma_prod_range_bound(av: Seq<nat>, i: int, j: int)
    ensures
        prod_range(av, i, j) < base_modulus(),
    decreases j - i,
{
    if i >= j {
    } else {
        vstd::arithmetic::div_mod::lemma_mod_division_less_than_divisor(
            (prod_range(av, i, j - 1) * av[j - 1]) as int,
            base_modulus() as int,
        );
    }
}

proof fn lemma_f_mul_one(x: nat)
    requires
        x < base_modulus(),
    ensures
        f_mul(x, 1) == x,
        f_mul(1, x) == x,
{
    vstd::arithmetic::div_mod::lemma_small_mod(x, base_modulus());
}

proof fn lemma_prod_range_cons(av: Seq<nat>, i: int, j: int)
    requires
        i < j,
    ensures
        prod_range(av, i, j) == f_mul(av[i], prod_range(av, i + 1, j)),
    decreases j - i,
{
    if i == j - 1 {
        assert(prod_range(av, i, i) == 1);
        assert(prod_range(av, i + 1, j) == 1);
        lemma_f_mul_comm(1, av[i]);
    } else {
        lemma_prod_range_cons(av, i, j - 1);
        lemma_f_mul_assoc(av[i], prod_range(av, i + 1, j - 1), av[j - 1]);
    }
}

proof fn lemma_prod_range_concat(av: Seq<nat>, i: int, mid: int, j: int)
    requires
        i <= mid <= j,
    ensures
        prod_range(av, i, j) == f_mul(prod_range(av, i, mid), prod_range(av, mid, j)),
    decreases j - mid,
{
    if j == mid {
        lemma_prod_range_bound(av, i, mid);
        lemma_f_mul_one(prod_range(av, i, mid));
    } else {
        lemma_prod_range_concat(av, i, mid, j - 1);
        lemma_f_mul_assoc(prod_range(av, i, mid), prod_range(av, mid, j - 1), av[j - 1]);
    }
}


/// A range product with a zero factor is zero.
proof fn lemma_prod_range_zero(av: Seq<nat>, j: int, t: int)
    requires
        0 <= t < j,
        av[t] == 0,
    ensures
        prod_range(av, 0, j) == 0,
{
    lemma_prod_range_concat(av, 0, t, j);
    lemma_prod_range_cons(av, t, j);
    lemma_f_mul_zero(prod_range(av, t + 1, j));
    lemma_f_mul_zero(prod_range(av, 0, t));
}

impl VariableBaseMSM {
    /// Adds `points[first_index[i]] + points[second_index[i]]` for each pair
    /// independently, with one projective mixed addition per pair.
    pub fn mixed_point_addition(
        points: &Vec<AffinePoint>,
        first_index: &Vec<usize>,
        second_index: &Vec<usize>,
    ) -> (r: Result<Vec<ProjectivePoint>, PairError>)
        ensures
            r is Ok <==> first_index@.len() == second_index@.len() && indices_valid(
                points@.len(),
                first_index@,
            ) && indices_valid(points@.len(), second_index@),
            r == Err::<Vec<ProjectivePoint>, PairError>(PairError::LengthMismatch)
                <==> first_index@.len() != second_index@.len(),
            r == Err::<Vec<ProjectivePoint>, PairError>(PairError::IndexOutOfRange) <==> (
            first_index@.len() == second_index@.len() && !(indices_valid(
                points@.len(),
                first_index@,
            ) && indices_valid(points@.len(), second_index@))),
            r matches Ok(v) ==> v@.len() == first_index@.len() && forall|i: int|
                0 <= i < v@.len() ==> formal_sum(#[trigger] v@[i]) == gv_add(
                    gv_single(affine_view(points@[first_index@[i] as int])),
                    gv_single(affine_view(points@[second_index@[i] as int])),
                ),
    {
        if first_index.len() != second_index.len() {
            return Err(PairError::LengthMismatch);
        }
        let n = first_index.len();
        let mut i: usize = 0;
        while i < n
            invariant
                i <= n,
                n == first_index@.len(),
                n == second_index@.len(),
                forall|t: int| 0 <= t < i ==> (#[trigger] first_index@[t]) < points@.len(),
                forall|t: int| 0 <= t < i ==> (#[trigger] second_index@[t]) < points@.len(),
            decreases n - i,
        {
            if first_index[i] >= points.len() {
                proof {
                    assert(first_index@[i as int] >= points@.len());
                }
                return Err(PairError::IndexOutOfRange);
            }
            if second_index[i] >= points.len() {
                proof {
                    assert(second_index@[i as int] >= points@.len());
                }
                return Err(PairError::IndexOutOfRange);
            }
            i += 1;
        }
        let mut results: Vec<ProjectivePoint> = Vec::new();
        let mut i: usize = 0;
        while i < n
            invariant
                i <= n,
                n == first_index@.len(),
                n == second_index@.len(),
                results@.len() == i,
                forall|t: int| 0 <= t < n ==> (#[trigger] first_index@[t]) < points@.len(),
                forall|t: int| 0 <= t < n ==> (#[trigger] second_index@[t]) < points@.len(),
                forall|t: int|
                    0 <= t < i ==> formal_sum(#[trigger] results@[t]) == gv_add(
                        gv_single(affine_view(points@[first_index@[t] as int])),
                        gv_single(affine_view(points@[second_index@[t] as int])),
                    ),
            decreases n - i,
        {
            let fi = first_index[i];
            let si = second_index[i];
            let res = ProjectivePoint::from_affine(&points[fi]).add_mixed(&points[si]);
            results.push(res);
            i += 1;
        }
        Ok(results)
    }

    /// Adds each indexed pair of affine points, spending a single shared
    /// field inversion on the whole batch (Montgomery's trick): prefix
    /// products of the `x` differences, one inversion, suffix products to
    /// recover each reciprocal, then the chord formula per pair.
    pub fn batch_affine_point_addition(
        points: &Vec<AffinePoint>,
        first_index: &Vec<usize>,
        second_index: &Vec<usize>,
    ) -> (r: Result<Vec<AffinePoint>, PairError>)
        requires
            points_canonical(points@),
            points_on_curve(points@),
            pairs_finite(points@, first_index@, second_index@),
        ensures
            r is Ok <==> first_index@.len() == second_index@.len() && indices_valid(
                points@.len(),
                first_index@,
            ) && indices_valid(points@.len(), second_index@) && all_pairs_addable(
                points@,
                first_index@,
                second_index@,
            ),
            r == Err::<Vec<AffinePoint>, PairError>(PairError::LengthMismatch)
                <==> first_index@.len() != second_index@.len(),
            r == Err::<Vec<AffinePoint>, PairError>(PairError::NonInvertible) <==> (
            first_index@.len() == second_index@.len() && indices_valid(
                points@.len(),
                first_index@,
            ) && indices_valid(points@.len(), second_index@) && !all_pairs_addable(
                points@,
                first_index@,
                second_index@,
            )),
            r matches Ok(v) ==> v@.len() == first_index@.len() && forall|i: int|
                0 <= i < v@.len() ==> affine_view(#[trigger] v@[i]) == chord_sum(
                    affine_view(points@[first_index@[i] as int]),
                    affine_view(points@[second_index@[i] as int]),
                ),
    {
        if first_index.len() != second_index.len() {
            return Err(PairError::LengthMismatch);
        }
        let n = first_index.len();
        let mut i: usize = 0;
        while i < n
            invariant
                i <= n,
                n == first_index@.len(),
                n == second_index@.len(),
                forall|t: int| 0 <= t < i ==> (#[trigger] first_index@[t]) < points@.len(),
                forall|t: int| 0 <= t < i ==> (#[trigger] second_index@[t]) < points@.len(),
            decreases n - i,
        {
            if first_index[i] >= points.len() {
                proof {
                    assert(first_index@[i as int] >= points@.len());
                }
                return Err(PairError::IndexOutOfRange);
            }
            if second_index[i] >= points.len() {
                proof {
                    assert(second_index@[i as int] >= points@.len());
                }
                return Err(PairError::IndexOutOfRange);
            }
            i += 1;
        }
        if n == 0 {
            return Ok(Vec::new());
        }
        let ghost av = Seq::new(
            n as nat,
            |t: int| pair_x_diff(points@, first_index@, second_index@, t),
        );
        let mut a_vec: Vec<FieldElement> = Vec::new();
        let mut i: usize = 0;
        while i < n
            invariant
                i <= n,
                n == first_index@.len(),
                n == second_index@.len(),
                points_canonical(points@),
                av == Seq::new(
                    n as nat,
                    |t: int| pair_x_diff(points@, first_index@, second_index@, t),
                ),
                forall|t: int| 0 <= t < n ==> (#[trigger] first_index@[t]) < points@.len(),
                forall|t: int| 0 <= t < n ==> (#[trigger] second_index@[t]) < points@.len(),
                a_vec@.len() == i,
                forall|t: int|
                    0 <= t < i ==> fe_value(#[trigger] a_vec@[t]) == av[t] && fe_value(a_vec@[t])
                        < base_modulus(),
            decreases n - i,
        {
            let fi = first_index[i];
            let si = second_index[i];
            let x1 = points[fi].x_coord();
            let x2 = points[si].x_coord();
            a_vec.push(x2.sub(&x1));
            i += 1;
        }
        let mut d_vec: Vec<FieldElement> = Vec::new();
        d_vec.push(FieldElement::one());
        let mut i: usize = 1;
        while i < n
            invariant
                1 <= i <= n,
                n == a_vec@.len(),
                forall|t: int|
                    0 <= t < n ==> fe_value(#[trigger] a_vec@[t]) == av[t] && fe_value(a_vec@[t])
                        < base_modulus(),
                d_vec@.len() == i,
                forall|t: int|
                    0 <= t < i ==> fe_value(#[trigger] d_vec@[t]) == prod_range(av, 0, t)
                        && fe_value(d_vec@[t]) < base_modulus(),
                forall|t: int|
                    0 <= t < i ==> ((forall|j: int| 0 <= j < t ==> av[j] != 0) ==> fe_value(
                        #[trigger] d_vec@[t],
                    ) != 0),
            decreases n - i,
        {
            let val = d_vec[i - 1].mul(&a_vec[i - 1]);
            d_vec.push(val);
            i += 1;
        }
        let full = d_vec[n - 1].mul(&a_vec[n - 1]);
        proof {
            assert(fe_value(full) == prod_range(av, 0, n as int));
        }
        let inv = full.inverse();
        let s_elem = match inv {
            Some(v) => v,
            None => {
                proof {
                    // the batched product vanished, so some difference is zero
                    if all_pairs_addable(points@, first_index@, second_index@) {
                        assert forall|j: int| 0 <= j < n implies av[j] != 0 by {
                            assert(pair_x_diff(points@, first_index@, second_index@, j) != 0);
                        }
                        assert(fe_value(full) != 0);
                        assert(false);
                    }
                }
                return Err(PairError::NonInvertible);
            },
        };
        proof {
            // the product is invertible, so every difference is non-zero
            if !all_pairs_addable(points@, first_index@, second_index@) {
                let bad = choose|j: int|
                    0 <= j < n && pair_x_diff(points@, first_index@, second_index@, j) == 0;
                lemma_prod_range_zero(av, n as int, bad);
                assert(false);
            }
        }
        let ghost sval = fe_value(s_elem);
        let mut e_vec: Vec<FieldElement> = Vec::new();
        while e_vec.len() < n
            invariant
                e_vec@.len() <= n,
            decreases n - e_vec.len(),
        {
            e_vec.push(FieldElement::one());
        }
        e_vec.set(n - 1, s_elem);
        proof {
            lemma_f_mul_one(sval);
        }
        let mut i: usize = n - 1;
        while i > 0
            invariant
                i <= n - 1,
                n >= 1,
                n == a_vec@.len(),
                e_vec@.len() == n,
                f_mul(sval, prod_range(av, 0, n as int)) == 1,
                sval < base_modulus(),
                forall|t: int|
                    0 <= t < n ==> fe_value(#[trigger] a_vec@[t]) == av[t] && fe_value(a_vec@[t])
                        < base_modulus(),
                forall|t: int|
                    i <= t < n ==> fe_value(#[trigger] e_vec@[t]) == f_mul(
                        sval,
                        prod_range(av, t + 1, n as int),
                    ) && fe_value(e_vec@[t]) < base_modulus(),
            decreases i,
        {
            let val = e_vec[i].mul(&a_vec[i]);
            proof {
                lemma_f_mul_assoc(sval, prod_range(av, i + 1, n as int), av[i as int]);
                lemma_f_mul_comm(prod_range(av, i + 1, n as int), av[i as int]);
                lemma_prod_range_cons(av, i as int, n as int);
            }
            e_vec.set(i - 1, val);
            i -= 1;
        }
        let mut out: Vec<AffinePoint> = Vec::new();
        let mut i: usize = 0;
        while i < n
            invariant
                i <= n,
                n >= 1,
                n == first_index@.len(),
                n == second_index@.len(),
                n == a_vec@.len(),
                d_vec@.len() == n,
                e_vec@.len() == n,
                points_canonical(points@),
                av == Seq::new(
                    n as nat,
                    |t: int| pair_x_diff(points@, first_index@, second_index@, t),
                ),
                f_mul(sval, prod_range(av, 0, n as int)) == 1,
                sval < base_modulus(),
                points_on_curve(points@),
                pairs_finite(points@, first_index@, second_index@),
                all_pairs_addable(points@, first_index@, second_index@),
                forall|t: int| 0 <= t < n ==> (#[trigger] first_index@[t]) < points@.len(),
                forall|t: int| 0 <= t < n ==> (#[trigger] second_index@[t]) < points@.len(),
                forall|t: int|
                    0 <= t < n ==> fe_value(#[trigger] a_vec@[t]) == av[t] && fe_value(a_vec@[t])
                        < base_modulus(),
                forall|t: int|
                    0 <= t < n ==> fe_value(#[trigger] d_vec@[t]) == prod_range(av, 0, t)
                        && fe_value(d_vec@[t]) < base_modulus(),
                forall|t: int|
                    0 <= t < n ==> fe_value(#[trigger] e_vec@[t]) == f_mul(
                        sval,
                        prod_range(av, t + 1, n as int),
                    ) && fe_value(e_vec@[t]) < base_modulus(),
                out@.len() == i,
                forall|t: int|
                    0 <= t < i ==> affine_view(#[trigger] out@[t]) == chord_sum(
                        affine_view(points@[first_index@[t] as int]),
                        affine_view(points@[second_index@[t] as int]),
                    ),
            decreases n - i,
        {
            let ri = d_vec[i].mul(&e_vec[i]);
            proof {
                let ii = i as int;
                let nn = n as int;
                let di = prod_range(av, 0, ii);
                let p2 = prod_range(av, ii + 1, nn);
                // shuffle the product so the shared inverse stands in front:
                // ri == s * (d_i * p2)
                lemma_f_mul_assoc(di, sval, p2);
                lemma_f_mul_comm(di, sval);
                lemma_f_mul_assoc(sval, di, p2);
                assert(fe_value(ri) == f_mul(sval, f_mul(di, p2)));
                // multiplying by the pair difference restores the full product
                lemma_f_mul_assoc(sval, f_mul(di, p2), av[ii]);
                lemma_f_mul_assoc(di, p2, av[ii]);
                lemma_f_mul_comm(p2, av[ii]);
                lemma_prod_range_cons(av, ii, nn);
                lemma_prod_range_concat(av, 0, ii, nn);
                assert(f_mul(fe_value(ri), av[ii]) == f_mul(sval, prod_range(av, 0, nn)));
                lemma_f_inv_unique(av[ii], fe_value(ri));
            }
            let fi = first_index[i];
            let si = second_index[i];
            let x1 = points[fi].x_coord();
            let y1 = points[fi].y_coord();
            let x2 = points[si].x_coord();
            let y2 = points[si].y_coord();
            let msl = y2.sub(&y1).mul(&ri);
            let x3 = msl.mul(&msl).sub(&x1).sub(&x2);
            let y3 = msl.mul(&x1.sub(&x3)).sub(&y1);
            proof {
                let ii = i as int;
                let p1v = affine_view(points@[first_index@[ii] as int]);
                let p2v = affine_view(points@[second_index@[ii] as int]);
                // the pair's difference is non-zero, so the x coordinates differ
                assert(pair_x_diff(points@, first_index@, second_index@, ii) != 0);
                assert(av[ii] == f_sub(p2v.x, p1v.x));
                lemma_f_sub_eq_zero(p2v.x, p1v.x);
                assert(fe_value(msl) == chord_slope(p1v, p2v));
                assert(chord_of_curve_points(
                    AffineView { x: fe_value(x3), y: fe_value(y3), infinity: false },
                    p1v,
                    p2v,
                ));
            }
            out.push(AffinePoint::from_coords(&x3, &y3));
            i += 1;
        }
        Ok(out)
    }
}

} // verus!
