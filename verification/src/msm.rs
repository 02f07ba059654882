use vstd::prelude::*;
use vstd::arithmetic::power2::{pow2, lemma_pow2_adds, lemma_pow2_pos, lemma_pow2_strictly_increases, lemma2_to64, lemma2_to64_rest};
use vstd::arithmetic::div_mod::{lemma_div_denominator, lemma_small_mod, lemma_mod_mod, lemma_div_basics, lemma_fundamental_div_mod};
use vstd::bits::{lemma_u64_shl_is_mul, lemma_usize_shl_is_mul};
use vstd::math::min;
use crate::group_model::{AffineView, GroupVal, gv_zero, gv_add, gv_scale, gv_single, lemma_gv_add_zero, lemma_gv_add_comm, lemma_gv_add_assoc, lemma_gv_add_exchange, lemma_gv_scale_zero, lemma_gv_scale_one, lemma_gv_scale_split, lemma_gv_scale_scale, lemma_gv_scale_add, lemma_gv_scale_of_zero, lemma_gv_add_self_is_scale_two};
use crate::curve::{AffinePoint, ProjectivePoint, Scalar, affine_view, formal_sum, scalar_value, scalar_modulus_bits};
use crate::digits::{digit, plan_window_width, lemma_digit_bound, lemma_chunk_split};

verus! {

/// The spec-level picture of a sequence of affine points.
pub open spec fn point_views(ps: Seq<AffinePoint>) -> Seq<AffineView> {
    ps.map_values(|p: AffinePoint| affine_view(p))
}

/// The spec-level values of a sequence of scalars.
pub open spec fn scalar_nats(ss: Seq<Scalar>) -> Seq<nat> {
    ss.map_values(|s: Scalar| scalar_value(s))
}

/// The weighted formal sum of the first `k` base/scalar pairs:
/// the formal counterpart of `sum over i < k of sv[i] * pv[i]`.
pub open spec fn lin_comb_prefix(pv: Seq<AffineView>, sv: Seq<nat>, k: int) -> GroupVal
    decreases k,
{
    if k <= 0 {
        gv_zero()
    } else {
        gv_add(lin_comb_prefix(pv, sv, k - 1), gv_scale(sv[k - 1], gv_single(pv[k - 1])))
    }
}

/// The weighted formal sum of all base/scalar pairs, truncated to the
/// shorter of the two sequences.
pub open spec fn lin_comb(pv: Seq<AffineView>, sv: Seq<nat>) -> GroupVal {
    lin_comb_prefix(pv, sv, min(pv.len() as int, sv.len() as int))
}

/// The formal sum contributed by window `(w, c)` over the first `k` pairs:
/// each base weighted by its scalar's `c`-bit digit at bit `w`.
pub open spec fn win_prefix(pv: Seq<AffineView>, sv: Seq<nat>, w: nat, c: nat, k: int) -> GroupVal
    decreases k,
{
    if k <= 0 {
        gv_zero()
    } else {
        gv_add(
            win_prefix(pv, sv, w, c, k - 1),
            gv_scale(digit(sv[k - 1], w, c), gv_single(pv[k - 1])),
        )
    }
}

/// The formal sum held by the bucket of digit `d` in window `(w, c)` after
/// the first `k` pairs: the plain sum of the bases whose digit is `d`.
pub open spec fn bucket_prefix(
    pv: Seq<AffineView>,
    sv: Seq<nat>,
    w: nat,
    c: nat,
    d: nat,
    k: int,
) -> GroupVal
    decreases k,
{
    if k <= 0 {
        gv_zero()
    } else {
        let rest = bucket_prefix(pv, sv, w, c, d, k - 1);
        if digit(sv[k - 1], w, c) == d {
            gv_add(rest, gv_single(pv[k - 1]))
        } else {
            rest
        }
    }
}

/// The buckets of window `(w, c)` after `k` pairs, as a sequence indexed by
/// digit minus one.
pub open spec fn bucket_seq(
    pv: Seq<AffineView>,
    sv: Seq<nat>,
    w: nat,
    c: nat,
    k: int,
    m: int,
) -> Seq<GroupVal> {
    Seq::new(m as nat, |t: int| bucket_prefix(pv, sv, w, c, (t + 1) as nat, k))
}

/// `sum over t in [j, len) of (base + t - j) * bs[t]`: the tail of the
/// suffix-sum reduction, with the weight of the first summand given.
pub open spec fn wsum(bs: Seq<GroupVal>, j: int, base: nat) -> GroupVal
    decreases bs.len() - j,
{
    if j < 0 || j >= bs.len() {
        gv_zero()
    } else {
        gv_add(gv_scale(base, bs[j]), wsum(bs, j + 1, (base + 1) as nat))
    }
}

/// `sum over t in [j, len) of bs[t]`.
pub open spec fn suffix_total(bs: Seq<GroupVal>, j: int) -> GroupVal
    decreases bs.len() - j,
{
    if j < 0 || j >= bs.len() {
        gv_zero()
    } else {
        gv_add(bs[j], suffix_total(bs, j + 1))
    }
}

/// The value folded up by the window combiner when windows `k` and above
/// have been taken in, each round adding a window and doubling `c` times.
pub open spec fn horner_from(wins: Seq<GroupVal>, c: nat, k: int) -> GroupVal
    decreases wins.len() - k,
{
    if k < 0 || k >= wins.len() {
        gv_zero()
    } else {
        gv_scale(pow2(c), gv_add(horner_from(wins, c, k + 1), wins[k]))
    }
}

/// The per-window formal sums of the first `n` pairs, for `m` windows of
/// width `c` starting at bit zero.
pub open spec fn win_seq(pv: Seq<AffineView>, sv: Seq<nat>, c: nat, m: int, n: int) -> Seq<
    GroupVal,
> {
    Seq::new(m as nat, |t: int| win_prefix(pv, sv, (t * c) as nat, c, n))
}

/// The per-window contributions of one single pair `(p, s)`.
pub open spec fn single_wins(p: AffineView, s: nat, c: nat, m: int) -> Seq<GroupVal> {
    Seq::new(m as nat, |t: int| gv_scale(digit(s, (t * c) as nat, c), gv_single(p)))
}

/// Two prefix combinations agree when the sequences agree below `k`.
proof fn lemma_lin_comb_prefix_agree(
    pv1: Seq<AffineView>,
    sv1: Seq<nat>,
    pv2: Seq<AffineView>,
    sv2: Seq<nat>,
    k: int,
)
    requires
        forall|i: int| 0 <= i < k ==> pv1[i] == pv2[i] && sv1[i] == sv2[i],
    ensures
        lin_comb_prefix(pv1, sv1, k) == lin_comb_prefix(pv2, sv2, k),
    decreases k,
{
    if k > 0 {
        lemma_lin_comb_prefix_agree(pv1, sv1, pv2, sv2, k - 1);
    }
}

/// Raising every weight of the reduction tail by one adds one plain copy of
/// the tail.
proof fn lemma_wsum_shift(bs: Seq<GroupVal>, j: int, base: nat)
    requires
        0 <= j <= bs.len(),
    ensures
        wsum(bs, j, (base + 1) as nat) == gv_add(wsum(bs, j, base), suffix_total(bs, j)),
    decreases bs.len() - j,
{
    if j == bs.len() {
        lemma_gv_add_zero(gv_zero());
    } else {
        lemma_wsum_shift(bs, j + 1, (base + 1) as nat);
        // wsum(j, base+1) = (base+1)*bs[j] + wsum(j+1, base+2)
        //                 = (base*bs[j] + bs[j]) + (wsum(j+1, base+1) + suffix(j+1))
        lemma_gv_scale_split(base, 1, bs[j]);
        lemma_gv_scale_one(bs[j]);
        lemma_gv_add_exchange(
            gv_scale(base, bs[j]),
            bs[j],
            wsum(bs, j + 1, (base + 1) as nat),
            suffix_total(bs, j + 1),
        );
    }
}

/// A reduction tail over all-identity buckets is the identity.
proof fn lemma_wsum_zero(bs: Seq<GroupVal>, j: int, base: nat)
    requires
        forall|t: int| 0 <= t < bs.len() ==> bs[t] == gv_zero(),
    ensures
        wsum(bs, j, base) == gv_zero(),
    decreases bs.len() - j,
{
    if 0 <= j < bs.len() {
        lemma_wsum_zero(bs, j + 1, (base + 1) as nat);
        lemma_gv_scale_of_zero(base);
        lemma_gv_add_zero(gv_zero());
    }
}

/// Adding one point into one bucket raises the reduction tail by that point
/// taken with the bucket's weight.
proof fn lemma_wsum_update(
    aa: Seq<GroupVal>,
    bb: Seq<GroupVal>,
    t0: int,
    x: GroupVal,
    j: int,
    base: nat,
)
    requires
        aa.len() == bb.len(),
        0 <= t0 < aa.len(),
        bb[t0] == gv_add(aa[t0], x),
        forall|t: int| 0 <= t < aa.len() && t != t0 ==> bb[t] == aa[t],
        0 <= j <= aa.len(),
    ensures
        j <= t0 ==> wsum(bb, j, base) == gv_add(
            wsum(aa, j, base),
            gv_scale((base + t0 - j) as nat, x),
        ),
        j > t0 ==> wsum(bb, j, base) == wsum(aa, j, base),
    decreases aa.len() - j,
{
    if j == aa.len() {
    } else {
        lemma_wsum_update(aa, bb, t0, x, j + 1, (base + 1) as nat);
        if j == t0 {
            // base*(aa[j] + x) + tail = (base*aa[j] + tail) + base*x
            lemma_gv_scale_add(base, aa[j], x);
            assert(gv_add(
                gv_add(gv_scale(base, aa[j]), gv_scale(base, x)),
                wsum(aa, j + 1, (base + 1) as nat),
            ) == gv_add(
                gv_add(gv_scale(base, aa[j]), wsum(aa, j + 1, (base + 1) as nat)),
                gv_scale(base, x),
            )) by {
                lemma_gv_add_comm(gv_scale(base, x), wsum(aa, j + 1, (base + 1) as nat));
                lemma_gv_add_assoc(
                    gv_scale(base, aa[j]),
                    gv_scale(base, x),
                    wsum(aa, j + 1, (base + 1) as nat),
                );
                lemma_gv_add_assoc(
                    gv_scale(base, aa[j]),
                    wsum(aa, j + 1, (base + 1) as nat),
                    gv_scale(base, x),
                );
            }
        } else if j < t0 {
            // the updated entry sits in the tail
            lemma_gv_add_assoc(
                gv_scale(base, aa[j]),
                wsum(aa, j + 1, (base + 1) as nat),
                gv_scale((base + t0 - j) as nat, x),
            );
        }
    }
}

/// The suffix-sum reduction of the buckets equals the digit-weighted window
/// sum: the exchange of summation at the heart of the bucket method.
proof fn lemma_exchange(pv: Seq<AffineView>, sv: Seq<nat>, w: nat, c: nat, k: int, m: int)
    requires
        1 <= c,
        m == pow2(c) - 1,
        0 <= k <= pv.len(),
        k <= sv.len(),
    ensures
        wsum(bucket_seq(pv, sv, w, c, k, m), 0, 1) == win_prefix(pv, sv, w, c, k),
    decreases k,
{
    lemma_pow2_pos(c);
    let bcur = bucket_seq(pv, sv, w, c, k, m);
    if k == 0 {
        assert(forall|t: int| 0 <= t < m ==> bcur[t] == gv_zero());
        lemma_wsum_zero(bcur, 0, 1);
    } else {
        lemma_exchange(pv, sv, w, c, k - 1, m);
        let bprev = bucket_seq(pv, sv, w, c, k - 1, m);
        let e = digit(sv[k - 1], w, c);
        lemma_digit_bound(sv[k - 1], w, c);
        let x = gv_single(pv[k - 1]);
        if e == 0 {
            assert(bcur =~= bprev);
            lemma_gv_scale_zero(x);
            lemma_gv_add_zero(win_prefix(pv, sv, w, c, k - 1));
        } else {
            let t0 = e - 1;
            assert(bcur[t0] == gv_add(bprev[t0], x));
            assert(forall|t: int| 0 <= t < m && t != t0 ==> bcur[t] == bprev[t]);
            lemma_wsum_update(bprev, bcur, t0, x, 0, 1);
            assert((1 + t0 - 0) as nat == e);
        }
    }
}

/// The combiner's fold over all-identity windows is the identity.
proof fn lemma_horner_zero(wins: Seq<GroupVal>, c: nat, k: int)
    requires
        forall|t: int| 0 <= t < wins.len() ==> wins[t] == gv_zero(),
    ensures
        horner_from(wins, c, k) == gv_zero(),
    decreases wins.len() - k,
{
    if 0 <= k < wins.len() {
        lemma_horner_zero(wins, c, k + 1);
        lemma_gv_add_zero(gv_zero());
        lemma_gv_scale_of_zero(pow2(c));
    }
}

/// The combiner's fold is additive in the window sums.
proof fn lemma_horner_add(aa: Seq<GroupVal>, bb: Seq<GroupVal>, cc: Seq<GroupVal>, c: nat, k: int)
    requires
        aa.len() == bb.len(),
        aa.len() == cc.len(),
        forall|t: int| 0 <= t < aa.len() ==> cc[t] == gv_add(aa[t], bb[t]),
    ensures
        horner_from(cc, c, k) == gv_add(horner_from(aa, c, k), horner_from(bb, c, k)),
    decreases aa.len() - k,
{
    if k < 0 || k >= aa.len() {
        lemma_gv_add_zero(gv_zero());
    } else {
        lemma_horner_add(aa, bb, cc, c, k + 1);
        lemma_gv_add_exchange(horner_from(aa, c, k + 1), horner_from(bb, c, k + 1), aa[k], bb[k]);
        lemma_gv_scale_add(
            pow2(c),
            gv_add(horner_from(aa, c, k + 1), aa[k]),
            gv_add(horner_from(bb, c, k + 1), bb[k]),
        );
    }
}

/// For a single pair, the fold from window `k` up is the pair's base scaled
/// by the bits of the scalar above `k * c`, shifted up by one window.
#[verifier::rlimit(60)]
proof fn lemma_horner_single(p: AffineView, s: nat, c: nat, m: int, k: int)
    requires
        1 <= c,
        0 <= k <= m,
    ensures
        horner_from(single_wins(p, s, c, m), c, k) == gv_scale(
            pow2(c) * ((s / pow2((k * c) as nat)) % pow2(((m - k) * c) as nat)),
            gv_single(p),
        ),
    decreases m - k,
{
    let wins = single_wins(p, s, c, m);
    lemma_pow2_pos(c);
    lemma_pow2_pos((k * c) as nat);
    if k == m {
        let u = s / pow2((k * c) as nat);
        lemma2_to64();
        assert((m - k) * c == 0) by (nonlinear_arith)
            requires k == m;
        assert(pow2(((m - k) * c) as nat) == 1);
        lemma_fundamental_div_mod(u as int, 1);
        lemma_div_basics(u as int);
        assert(u % 1 == 0);
        assert(pow2(c) * (u % pow2(((m - k) * c) as nat)) == 0);
        lemma_gv_scale_zero(gv_single(p));
        assert(horner_from(wins, c, k) == gv_zero());
    } else {
        lemma_horner_single(p, s, c, m, k + 1);
        let u = s / pow2((k * c) as nat);
        let levels = m - k;
        // chain the divisions: (s / 2^(k c)) / 2^c == s / 2^((k+1) c)
        assert((k * c + c) == (k + 1) * c) by (nonlinear_arith);
        lemma_pow2_adds((k * c) as nat, c);
        lemma_div_denominator(s as int, pow2((k * c) as nat) as int, pow2(c) as int);
        assert(u / pow2(c) == s / pow2(((k + 1) * c) as nat));
        // split the low window off the remaining bits
        lemma_chunk_split(u, c, levels as nat);
        assert((levels - 1) * c == ((m - (k + 1)) * c)) by (nonlinear_arith)
            requires levels == m - k;
        assert(u % pow2((levels * c) as nat) == pow2(c) * ((u / pow2(c)) % pow2(
            ((m - (k + 1)) * c) as nat,
        )) + u % pow2(c));
        let hi = (s / pow2(((k + 1) * c) as nat)) % pow2(((m - (k + 1)) * c) as nat);
        // wins[k] is the low digit of u
        assert(wins[k] == gv_scale(digit(s, (k * c) as nat, c), gv_single(p)));
        assert(digit(s, (k * c) as nat, c) == u % pow2(c));
        assert(horner_from(wins, c, k + 1) == gv_scale((pow2(c) * hi) as nat, gv_single(p)));
        lemma_gv_scale_split((pow2(c) * hi) as nat, (u % pow2(c)) as nat, gv_single(p));
        assert(gv_add(horner_from(wins, c, k + 1), wins[k]) == gv_scale(
            (pow2(c) * hi + u % pow2(c)) as nat,
            gv_single(p),
        ));
        assert(pow2(c) * hi + u % pow2(c) == u % pow2((levels * c) as nat));
        lemma_gv_scale_scale(pow2(c), (u % pow2((levels * c) as nat)) as nat, gv_single(p));
        assert(horner_from(wins, c, k) == gv_scale(
            pow2(c),
            gv_add(horner_from(wins, c, k + 1), wins[k]),
        ));
        assert(horner_from(wins, c, k) == gv_scale(
            (pow2(c) * (u % pow2((levels * c) as nat))) as nat,
            gv_single(p),
        ));
    }
}

/// For a single pair, folding all windows recovers the base scaled by the
/// whole scalar.
proof fn lemma_single_pair_total(p: AffineView, s: nat, c: nat, m: int)
    requires
        1 <= c,
        1 <= m,
        s < pow2((m * c) as nat),
    ensures
        gv_add(
            gv_scale(digit(s, 0, c), gv_single(p)),
            horner_from(single_wins(p, s, c, m), c, 1),
        ) == gv_scale(s, gv_single(p)),
{
    lemma_pow2_pos(c);
    assert(pow2(0) == 1) by {
        lemma2_to64();
    }
    lemma_div_basics(s as int);
    assert(s / pow2(0) == s);
    assert(digit(s, 0, c) == s % pow2(c));
    lemma_horner_single(p, s, c, m, 1);
    assert(1 * c == c) by (nonlinear_arith);
    let hi = (s / pow2(c)) % pow2(((m - 1) * c) as nat);
    lemma_chunk_split(s, c, m as nat);
    lemma_gv_scale_split((s % pow2(c)) as nat, (pow2(c) * hi) as nat, gv_single(p));
    lemma_small_mod(s, pow2((m * c) as nat));
}

/// Folding the per-window sums of the first `n` pairs yields their weighted
/// formal sum, once the windows cover every scalar bit.
proof fn lemma_windows_sum(pv: Seq<AffineView>, sv: Seq<nat>, c: nat, m: int, n: int)
    requires
        1 <= c,
        1 <= m,
        0 <= n <= pv.len(),
        n <= sv.len(),
        forall|i: int| 0 <= i < n ==> sv[i] < pow2(255),
        m * c >= 255,
    ensures
        gv_add(win_prefix(pv, sv, 0, c, n), horner_from(win_seq(pv, sv, c, m, n), c, 1))
            == lin_comb_prefix(pv, sv, n),
    decreases n,
{
    let wins = win_seq(pv, sv, c, m, n);
    if n == 0 {
        assert(forall|t: int| 0 <= t < m ==> wins[t] == gv_zero());
        lemma_horner_zero(wins, c, 1);
        lemma_gv_add_zero(gv_zero());
    } else {
        lemma_windows_sum(pv, sv, c, m, n - 1);
        let prev = win_seq(pv, sv, c, m, n - 1);
        let p = pv[n - 1];
        let s = sv[n - 1];
        let sing = single_wins(p, s, c, m);
        assert(forall|t: int| 0 <= t < m ==> wins[t] == gv_add(prev[t], sing[t]));
        lemma_horner_add(prev, sing, wins, c, 1);
        // the scalar fits in the covered bits
        if 255 < m * c {
            lemma_pow2_strictly_increases(255, (m * c) as nat);
        }
        lemma_single_pair_total(p, s, c, m);
        assert(0 * c == 0) by (nonlinear_arith);
        assert(sing[0] == gv_scale(digit(s, 0, c), gv_single(p)));
        lemma_gv_add_exchange(
            win_prefix(pv, sv, 0, c, n - 1),
            gv_scale(digit(s, 0, c), gv_single(p)),
            horner_from(prev, c, 1),
            horner_from(sing, c, 1),
        );
    }
}


/// Extracts the `c`-bit digit of `s` that starts at bit `w`: shift right by
/// `w`, then keep the lowest word modulo `2^c`.
fn extract_digit(s: &Scalar, w: usize, c: usize) -> (d: u64)
    requires
        1 <= c <= 46,
        w <= 255,
    ensures
        d as nat == digit(scalar_value(*s), w as nat, c as nat),
        (d as nat) < pow2(c as nat),
{
    let shifted = s.shift_right(w as u32);
    let low = shifted.lowest_word();
    let cc = c as u64;
    proof {
        lemma2_to64();
        lemma2_to64_rest();
        if (c as nat) < 46 {
            lemma_pow2_strictly_increases(c as nat, 46);
        }
        lemma_u64_shl_is_mul(1u64, cc);
    }
    let modulus: u64 = 1u64 << cc;
    let d = low % modulus;
    proof {
        let sh = scalar_value(*s) / pow2(w as nat);
        lemma_pow2_pos(c as nat);
        lemma_pow2_pos((64 - c) as nat);
        lemma_pow2_adds(c as nat, (64 - c) as nat);
        lemma_mod_mod(sh as int, pow2(c as nat) as int, pow2((64 - c) as nat) as int);
    }
    d
}

/// One window of the bucket method: accumulate each base into the bucket of
/// its digit, then reduce the buckets with a running suffix sum.
fn window_sum(points: &Vec<AffinePoint>, scalars: &Vec<Scalar>, w_start: usize, c: usize) -> (r:
    ProjectivePoint)
    requires
        points@.len() == scalars@.len(),
        3 <= c <= 46,
        pow2(c as nat) < usize::MAX as nat,
        w_start <= 255,
    ensures
        formal_sum(r) == win_prefix(
            point_views(points@),
            scalar_nats(scalars@),
            w_start as nat,
            c as nat,
            points@.len() as int,
        ),
{
    let ghost pv = point_views(points@);
    let ghost sv = scalar_nats(scalars@);
    let ghost w = w_start as nat;
    let ghost cn = c as nat;
    proof {
        lemma2_to64();
        lemma2_to64_rest();
        if (c as nat) < 46 {
            lemma_pow2_strictly_increases(c as nat, 46);
        }
        lemma_pow2_pos(c as nat);
        lemma_usize_shl_is_mul(1usize, c);
    }
    let m_buckets: usize = (1usize << c) - 1;
    let mut buckets: Vec<ProjectivePoint> = Vec::new();
    while buckets.len() < m_buckets
        invariant
            buckets@.len() <= m_buckets,
            forall|t: int| 0 <= t < buckets@.len() ==> formal_sum(buckets@[t]) == gv_zero(),
        decreases m_buckets - buckets.len(),
    {
        buckets.push(ProjectivePoint::identity());
    }
    let n = points.len();
    let mut i: usize = 0;
    while i < n
        invariant
            i <= n,
            n == points@.len(),
            n == scalars@.len(),
            pv == point_views(points@),
            sv == scalar_nats(scalars@),
            w == w_start as nat,
            cn == c as nat,
            3 <= c <= 46,
            w_start <= 255,
            buckets@.len() == m_buckets,
            m_buckets == pow2(cn) - 1,
            forall|t: int|
                0 <= t < m_buckets ==> formal_sum(buckets@[t]) == bucket_prefix(
                    pv,
                    sv,
                    w,
                    cn,
                    (t + 1) as nat,
                    i as int,
                ),
        decreases n - i,
    {
        let d = extract_digit(&scalars[i], w_start, c);
        proof {
            assert(sv[i as int] == scalar_value(scalars@[i as int]));
            assert(pv[i as int] == affine_view(points@[i as int]));
        }
        if d != 0 {
            proof {
                lemma2_to64_rest();
                if cn < 46 {
                    lemma_pow2_strictly_increases(cn, 46);
                }
            }
            let idx = (d - 1) as usize;
            let updated = buckets[idx].add_mixed(&points[i]);
            buckets.set(idx, updated);
        }
        proof {
            assert forall|t: int| 0 <= t < m_buckets implies formal_sum(buckets@[t])
                == bucket_prefix(pv, sv, w, cn, (t + 1) as nat, (i + 1) as int) by {
                assert(digit(sv[i as int], w, cn) == d as nat);
            }
        }
        i += 1;
    }
    let ghost bvals = bucket_seq(pv, sv, w, cn, n as int, m_buckets as int);
    proof {
        assert forall|t: int| 0 <= t < m_buckets implies formal_sum(buckets@[t]) == bvals[t] by {}
    }
    let mut running = ProjectivePoint::identity();
    let mut acc = ProjectivePoint::identity();
    let mut j = m_buckets;
    while j > 0
        invariant
            j <= m_buckets,
            buckets@.len() == m_buckets,
            bvals.len() == m_buckets,
            forall|t: int| 0 <= t < m_buckets ==> formal_sum(buckets@[t]) == bvals[t],
            formal_sum(running) == suffix_total(bvals, j as int),
            formal_sum(acc) == wsum(bvals, j as int, 1),
        decreases j,
    {
        j = j - 1;
        let r2 = running.add(&buckets[j]);
        let a2 = acc.add(&r2);
        proof {
            // running + bucket is the suffix total from j
            lemma_gv_add_comm(suffix_total(bvals, j + 1), bvals[j as int]);
            // acc + suffix(j) is the weighted tail from j
            lemma_wsum_shift(bvals, j + 1, 1);
            lemma_gv_scale_one(bvals[j as int]);
            lemma_gv_add_comm(wsum(bvals, j + 1, 2), bvals[j as int]);
            lemma_gv_add_assoc(bvals[j as int], wsum(bvals, j + 1, 1), suffix_total(bvals, j + 1));
            lemma_gv_add_comm(bvals[j as int], wsum(bvals, j + 1, 1));
            lemma_gv_add_assoc(wsum(bvals, j + 1, 1), bvals[j as int], suffix_total(bvals, j + 1));
        }
        running = r2;
        acc = a2;
    }
    proof {
        lemma_exchange(pv, sv, w, cn, n as int, m_buckets as int);
    }
    acc
}

/// Multi-scalar multiplication and batched point additions over the curve.
pub struct VariableBaseMSM;

impl VariableBaseMSM {
    /// Computes the sum of `scalars[i] * bases[i]` with Pippenger's bucket
    /// method, truncating to the shorter input and skipping zero scalars.
    pub fn multi_scalar_mul(bases: &Vec<AffinePoint>, scalars: &Vec<Scalar>) -> (r:
        ProjectivePoint)
        requires
            forall|i: int|
                0 <= i < scalars@.len() ==> scalar_value(#[trigger] scalars@[i]) < pow2(255),
        ensures
            formal_sum(r) == lin_comb(point_views(bases@), scalar_nats(scalars@)),
    {
        let size = if bases.len() <= scalars.len() {
            bases.len()
        } else {
            scalars.len()
        };
        let ghost pv0 = point_views(bases@);
        let ghost sv0 = scalar_nats(scalars@);
        let mut fp: Vec<AffinePoint> = Vec::new();
        let mut fs: Vec<Scalar> = Vec::new();
        let mut i: usize = 0;
        while i < size
            invariant
                i <= size,
                size <= bases@.len(),
                size <= scalars@.len(),
                pv0 == point_views(bases@),
                sv0 == scalar_nats(scalars@),
                forall|t: int|
                    0 <= t < scalars@.len() ==> scalar_value(#[trigger] scalars@[t]) < pow2(255),
                fp@.len() == fs@.len(),
                forall|t: int|
                    0 <= t < fs@.len() ==> scalar_value(#[trigger] fs@[t]) < pow2(255),
                lin_comb_prefix(point_views(fp@), scalar_nats(fs@), fp@.len() as int)
                    == lin_comb_prefix(pv0, sv0, i as int),
            decreases size - i,
        {
            let ghost oldpv = point_views(fp@);
            let ghost oldsv = scalar_nats(fs@);
            if !scalars[i].is_zero() {
                fp.push(bases[i].clone());
                fs.push(scalars[i].clone());
                proof {
                    assert(point_views(fp@) =~= oldpv.push(affine_view(bases@[i as int])));
                    assert(scalar_nats(fs@) =~= oldsv.push(scalar_value(scalars@[i as int])));
                    lemma_lin_comb_prefix_agree(
                        point_views(fp@),
                        scalar_nats(fs@),
                        oldpv,
                        oldsv,
                        oldpv.len() as int,
                    );
                }
            } else {
                proof {
                    lemma_gv_scale_zero(gv_single(pv0[i as int]));
                    lemma_gv_add_zero(lin_comb_prefix(pv0, sv0, i as int));
                }
            }
            i += 1;
        }
        let n = fp.len();
        let ghost pv = point_views(fp@);
        let ghost sv = scalar_nats(fs@);
        let c = plan_window_width(n);
        let num_bits = scalar_modulus_bits();
        let mut sums: Vec<ProjectivePoint> = Vec::new();
        let mut w_start: usize = 0;
        while w_start < num_bits
            invariant
                num_bits == 255,
                3 <= c <= 46,
                pow2(c as nat) < usize::MAX as nat,
                n == fp@.len(),
                n == fs@.len(),
                pv == point_views(fp@),
                sv == scalar_nats(fs@),
                w_start == sums@.len() * c,
                w_start < 255 + c,
                forall|t: int|
                    0 <= t < sums@.len() ==> formal_sum(#[trigger] sums@[t]) == win_prefix(
                        pv,
                        sv,
                        (t * c) as nat,
                        c as nat,
                        n as int,
                    ),
            decreases 255 + c - w_start,
        {
            let ws = window_sum(&fp, &fs, w_start, c);
            proof {
                assert(sums@.len() * c == w_start);
            }
            sums.push(ws);
            proof {
                assert((sums@.len() - 1) * c == sums@.len() * c - c) by (nonlinear_arith);
            }
            w_start = w_start + c;
        }
        let ghost m = sums@.len() as int;
        let ghost wins = win_seq(pv, sv, c as nat, m, n as int);
        proof {
            assert(m >= 1);
            assert(m * (c as int) >= 255);
            assert(wins.len() == m);
            assert(forall|t: int| 0 <= t < m ==> formal_sum(#[trigger] sums@[t]) == wins[t]);
        }
        let mut total = ProjectivePoint::identity();
        let mut k = sums.len();
        while k > 1
            invariant
                1 <= k <= m || (k == m && m == 0),
                m == sums@.len() as int,
                wins.len() == m,
                3 <= c <= 46,
                forall|t: int| 0 <= t < m ==> formal_sum(#[trigger] sums@[t]) == wins[t],
                formal_sum(total) == horner_from(wins, c as nat, k as int),
            decreases k,
        {
            k = k - 1;
            let folded = total.add(&sums[k]);
            let ghost base_val = gv_add(horner_from(wins, c as nat, k + 1), wins[k as int]);
            let mut cur = folded;
            let mut j: usize = 0;
            proof {
                lemma2_to64();
                lemma_gv_scale_one(base_val);
            }
            while j < c
                invariant
                    j <= c,
                    formal_sum(cur) == gv_scale(pow2(j as nat), base_val),
                decreases c - j,
            {
                let doubled = cur.double();
                proof {
                    lemma_gv_add_self_is_scale_two(gv_scale(pow2(j as nat), base_val));
                    lemma_gv_scale_scale(2, pow2(j as nat), base_val);
                    lemma_pow2_adds(1, j as nat);
                    lemma2_to64();
                }
                cur = doubled;
                j += 1;
            }
            total = cur;
        }
        let result = sums[0].add(&total);
        proof {
            lemma_windows_sum(pv, sv, c as nat, m, n as int);
            assert((0 * c) as nat == 0) by (nonlinear_arith);
            assert(wins[0] == win_prefix(pv, sv, 0, c as nat, n as int));
            assert(formal_sum(result) == lin_comb_prefix(pv, sv, n as int));
            assert(lin_comb_prefix(pv, sv, n as int) == lin_comb_prefix(pv0, sv0, size as int));
            assert(size as int == min(pv0.len() as int, sv0.len() as int));
        }
        result
    }
}


/// Reference scalar multiplication for one pair: plain double-and-add over
/// the scalar's bits, low to high.
pub fn scalar_point_mul(p: &AffinePoint, s: &Scalar) -> (r: ProjectivePoint)
    requires
        scalar_value(*s) < pow2(255),
    ensures
        formal_sum(r) == gv_scale(scalar_value(*s), gv_single(affine_view(*p))),
{
    let ghost sval = scalar_value(*s);
    let ghost base = gv_single(affine_view(*p));
    let mut acc = ProjectivePoint::identity();
    let mut addend = ProjectivePoint::from_affine(p);
    let mut w: usize = 0;
    proof {
        lemma2_to64();
        lemma_gv_scale_zero(base);
        lemma_gv_scale_one(base);
        lemma_small_mod(0, pow2(0));
        assert(sval % pow2(0) == 0) by {
            lemma_fundamental_div_mod(sval as int, 1);
        }
    }
    while w < 255
        invariant
            w <= 255,
            sval == scalar_value(*s),
            base == gv_single(affine_view(*p)),
            formal_sum(acc) == gv_scale(sval % pow2(w as nat), base),
            formal_sum(addend) == gv_scale(pow2(w as nat), base),
        decreases 255 - w,
    {
        let bit = extract_digit(s, w, 1);
        let ghost bitv = digit(sval, w as nat, 1);
        proof {
            lemma2_to64();
            lemma_pow2_pos(w as nat);
            // split bit w off the low bits: s % (2^w * 2) == 2^w * bit + s % 2^w
            vstd::arithmetic::div_mod::lemma_mod_breakdown(
                sval as int,
                pow2(w as nat) as int,
                2,
            );
            lemma_pow2_adds(w as nat, 1);
            assert(pow2((w + 1) as nat) == pow2(w as nat) * 2);
            assert(bitv == (sval / pow2(w as nat)) % 2);
            assert(sval % pow2((w + 1) as nat) == pow2(w as nat) * bitv + sval % pow2(w as nat));
        }
        if bit != 0 {
            acc = acc.add(&addend);
            proof {
                assert(bitv == 1);
                lemma_gv_scale_split((sval % pow2(w as nat)) as nat, pow2(w as nat), base);
            }
        }
        let next = addend.double();
        proof {
            lemma_gv_add_self_is_scale_two(gv_scale(pow2(w as nat), base));
            lemma_gv_scale_scale(2, pow2(w as nat), base);
            lemma_pow2_adds(1, w as nat);
        }
        addend = next;
        w += 1;
    }
    proof {
        lemma_small_mod(sval, pow2(255));
    }
    acc
}

/// Reference evaluation of the whole combination: one double-and-add per
/// pair, summed in order. It meets the same contract as the bucket method.
pub fn naive_multi_scalar_mul(bases: &Vec<AffinePoint>, scalars: &Vec<Scalar>) -> (r:
    ProjectivePoint)
    requires
        forall|i: int|
            0 <= i < scalars@.len() ==> scalar_value(#[trigger] scalars@[i]) < pow2(255),
    ensures
        formal_sum(r) == lin_comb(point_views(bases@), scalar_nats(scalars@)),
{
    let size = if bases.len() <= scalars.len() {
        bases.len()
    } else {
        scalars.len()
    };
    let ghost pv = point_views(bases@);
    let ghost sv = scalar_nats(scalars@);
    let mut acc = ProjectivePoint::identity();
    let mut i: usize = 0;
    while i < size
        invariant
            i <= size,
            size <= bases@.len(),
            size <= scalars@.len(),
            pv == point_views(bases@),
            sv == scalar_nats(scalars@),
            forall|t: int|
                0 <= t < scalars@.len() ==> scalar_value(#[trigger] scalars@[t]) < pow2(255),
            formal_sum(acc) == lin_comb_prefix(pv, sv, i as int),
        decreases size - i,
    {
        let term = scalar_point_mul(&bases[i], &scalars[i]);
        acc = acc.add(&term);
        i += 1;
    }
    proof {
        assert(size as int == min(pv.len() as int, sv.len() as int));
    }
    acc
}

/// With every scalar zero, the combination is the group identity.
proof fn lemma_lin_comb_prefix_zero(pv: Seq<AffineView>, sv: Seq<nat>, k: int)
    requires
        forall|i: int| 0 <= i < k ==> sv[i] == 0,
    ensures
        lin_comb_prefix(pv, sv, k) == gv_zero(),
    decreases k,
{
    if k > 0 {
        lemma_lin_comb_prefix_zero(pv, sv, k - 1);
        lemma_gv_scale_zero(gv_single(pv[k - 1]));
        lemma_gv_add_zero(gv_zero());
    }
}

/// All-zero scalars give the group identity, whatever the bases are.
pub proof fn lemma_lin_comb_zero_scalars(pv: Seq<AffineView>, sv: Seq<nat>)
    requires
        forall|i: int| 0 <= i < sv.len() ==> sv[i] == 0,
    ensures
        lin_comb(pv, sv) == gv_zero(),
{
    lemma_lin_comb_prefix_zero(pv, sv, min(pv.len() as int, sv.len() as int));
}

/// A single pair with scalar one yields exactly its base point.
pub proof fn lemma_lin_comb_single_unit(pv: Seq<AffineView>, sv: Seq<nat>)
    requires
        pv.len() == 1,
        sv.len() == 1,
        sv[0] == 1,
    ensures
        lin_comb(pv, sv) == gv_single(pv[0]),
{
    assert(min(pv.len() as int, sv.len() as int) == 1);
    assert(lin_comb_prefix(pv, sv, 0) == gv_zero());
    lemma_gv_scale_one(gv_single(pv[0]));
    lemma_gv_add_zero(gv_single(pv[0]));
}


/// Taking one pair out of the combination leaves the combination of the
/// remaining pairs plus that pair's own term.
proof fn lemma_lin_comb_remove(pv: Seq<AffineView>, sv: Seq<nat>, t: int, k: int)
    requires
        0 <= t < k,
        k <= pv.len(),
        k <= sv.len(),
    ensures
        lin_comb_prefix(pv, sv, k) == gv_add(
            lin_comb_prefix(pv.remove(t), sv.remove(t), k - 1),
            gv_scale(sv[t], gv_single(pv[t])),
        ),
    decreases k,
{
    let rp = pv.remove(t);
    let rs = sv.remove(t);
    if t == k - 1 {
        lemma_lin_comb_prefix_agree(rp, rs, pv, sv, k - 1);
    } else {
        lemma_lin_comb_remove(pv, sv, t, k - 1);
        assert(rp[k - 2] == pv[k - 1]);
        assert(rs[k - 2] == sv[k - 1]);
        let tail = gv_scale(sv[k - 1], gv_single(pv[k - 1]));
        let own = gv_scale(sv[t], gv_single(pv[t]));
        lemma_gv_add_assoc(lin_comb_prefix(rp, rs, k - 2), own, tail);
        lemma_gv_add_comm(own, tail);
        lemma_gv_add_assoc(lin_comb_prefix(rp, rs, k - 2), tail, own);
    }
}

/// Reordering the base/scalar pairs by one and the same permutation leaves
/// the combination unchanged.
pub proof fn lemma_lin_comb_permuted(
    pv1: Seq<AffineView>,
    sv1: Seq<nat>,
    pv2: Seq<AffineView>,
    sv2: Seq<nat>,
    perm: Seq<int>,
)
    requires
        pv1.len() == sv1.len(),
        pv2.len() == pv1.len(),
        sv2.len() == sv1.len(),
        perm.len() == pv1.len(),
        forall|i: int| 0 <= i < perm.len() ==> 0 <= #[trigger] perm[i] < perm.len(),
        forall|i: int, j: int| 0 <= i < j < perm.len() ==> perm[i] != perm[j],
        forall|i: int|
            0 <= i < perm.len() ==> pv2[i] == pv1[#[trigger] perm[i]] && sv2[i] == sv1[perm[i]],
    ensures
        lin_comb(pv2, sv2) == lin_comb(pv1, sv1),
    decreases pv1.len(),
{
    let n = pv1.len() as int;
    if n > 0 {
        let t = perm[n - 1];
        let rp = pv1.remove(t);
        let rs = sv1.remove(t);
        let qp = pv2.subrange(0, n - 1);
        let qs = sv2.subrange(0, n - 1);
        let perm2 = Seq::new(
            (n - 1) as nat,
            |i: int|
                if perm[i] < t {
                    perm[i]
                } else {
                    perm[i] - 1
                },
        );
        assert forall|i: int| 0 <= i < perm2.len() implies 0 <= #[trigger] perm2[i]
            < perm2.len() by {
            assert(perm[i] != t);
        }
        assert forall|i: int, j: int| 0 <= i < j < perm2.len() implies perm2[i] != perm2[j] by {
            assert(perm[i] != perm[j]);
            assert(perm[i] != t);
            assert(perm[j] != t);
        }
        assert forall|i: int| 0 <= i < perm2.len() implies qp[i] == rp[#[trigger] perm2[i]]
            && qs[i] == rs[perm2[i]] by {
            assert(perm[i] != t);
            if perm[i] < t {
                assert(rp[perm2[i]] == pv1[perm[i]]);
                assert(rs[perm2[i]] == sv1[perm[i]]);
            } else {
                assert(rp[perm2[i]] == pv1[perm[i]]);
                assert(rs[perm2[i]] == sv1[perm[i]]);
            }
        }
        lemma_lin_comb_permuted(rp, rs, qp, qs, perm2);
        lemma_lin_comb_remove(pv1, sv1, t, n);
        lemma_lin_comb_prefix_agree(qp, qs, pv2, sv2, n - 1);
        assert(pv2[n - 1] == pv1[t]);
        assert(sv2[n - 1] == sv1[t]);
    }
}

} // verus!
