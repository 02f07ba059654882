use vstd::prelude::*;
use vstd::arithmetic::power2::{pow2, lemma_pow2_adds, lemma_pow2_strictly_increases, lemma_pow2_pos};
use vstd::arithmetic::div_mod::{lemma_mod_breakdown, lemma_div_is_ordered, lemma_mod_division_less_than_divisor};

verus! {

/// The `c`-bit digit of the scalar value `s` that starts at bit `w`:
/// shift `w` bits away, then keep the low `c` bits.
pub open spec fn digit(s: nat, w: nat, c: nat) -> nat {
    (s / pow2(w)) % pow2(c)
}

pub proof fn lemma_digit_bound(s: nat, w: nat, c: nat)
    ensures
        digit(s, w, c) < pow2(c),
{
    lemma_pow2_pos(c);
    lemma_mod_division_less_than_divisor((s / pow2(w)) as int, pow2(c) as int);
}

/// Splitting the low `j * c` bits of `u` into the low `c`-bit digit and the
/// remaining `(j - 1) * c` bits of the shifted value.
pub proof fn lemma_chunk_split(u: nat, c: nat, j: nat)
    requires
        1 <= j,
    ensures
        u % pow2(j * c) == pow2(c) * ((u / pow2(c)) % pow2(((j - 1) as nat) * c)) + u % pow2(c),
{
    let jm = ((j - 1) as nat) * c;
    lemma_pow2_pos(c);
    lemma_pow2_pos(jm);
    lemma_pow2_adds(c, jm);
    assert(c + ((j - 1) as nat) * c == j * c) by (nonlinear_arith)
        requires 1 <= j;
    lemma_mod_breakdown(u as int, pow2(c) as int, pow2(jm) as int);
}

/// Ceiling of the base-two logarithm: the least `k` with `pow2(k) >= x`
/// (zero for `x <= 1`).
pub open spec fn clog2(x: nat) -> nat
    decreases x,
{
    if x <= 1 {
        0
    } else {
        1 + clog2((x + 1) / 2)
    }
}

proof fn lemma_clog2_covers(x: nat)
    ensures
        pow2(clog2(x)) >= x,
    decreases x,
{
    if x <= 1 {
        vstd::arithmetic::power2::lemma2_to64();
    } else {
        let h = (x + 1) / 2;
        assert(h < x);
        lemma_clog2_covers(h);
        lemma_pow2_adds(1, clog2(h));
        vstd::arithmetic::power2::lemma2_to64();
        assert(2 * pow2(clog2(h)) >= 2 * h) by (nonlinear_arith)
            requires pow2(clog2(h)) >= h;
        assert(2 * h >= x);
    }
}

proof fn lemma_clog2_tight(x: nat)
    requires
        x >= 2,
    ensures
        clog2(x) >= 1,
        pow2((clog2(x) - 1) as nat) < x,
    decreases x,
{
    let h = (x + 1) / 2;
    if h <= 1 {
        assert(x <= 3);
        vstd::arithmetic::power2::lemma2_to64();
    } else {
        lemma_clog2_tight(h);
        lemma_pow2_adds(1, (clog2(h) - 1) as nat);
        vstd::arithmetic::power2::lemma2_to64();
        assert(2 * pow2((clog2(h) - 1) as nat) < 2 * h) by (nonlinear_arith)
            requires pow2((clog2(h) - 1) as nat) < h;
        assert(2 * h <= x + 1);
        assert(pow2((clog2(x) - 1) as nat) == 2 * pow2((clog2(h) - 1) as nat));
    }
}

proof fn lemma_clog2_monotone(x1: nat, x2: nat)
    requires
        x1 <= x2,
    ensures
        clog2(x1) <= clog2(x2),
{
    if x1 >= 2 && clog2(x1) > clog2(x2) {
        lemma_clog2_tight(x1);
        lemma_clog2_covers(x2);
        if clog2(x2) < (clog2(x1) - 1) as nat {
            lemma_pow2_strictly_increases(clog2(x2), (clog2(x1) - 1) as nat);
        }
        assert(false);
    }
}

/// Exact characterization used when computing `clog2`.
proof fn lemma_clog2_unique(x: nat, k: nat)
    requires
        pow2(k) >= x,
        k == 0 || pow2((k - 1) as nat) < x,
    ensures
        k == clog2(x),
{
    if x <= 1 {
        if k >= 1 {
            lemma_pow2_pos((k - 1) as nat);
        }
    } else {
        lemma_clog2_covers(x);
        lemma_clog2_tight(x);
        if k < clog2(x) {
            let km = (clog2(x) - 1) as nat;
            if k < km {
                lemma_pow2_strictly_increases(k, km);
            }
            assert(pow2(km) < x);
            assert(false);
        }
        if k > clog2(x) {
            if clog2(x) < (k - 1) as nat {
                lemma_pow2_strictly_increases(clog2(x), (k - 1) as nat);
            }
            assert(pow2((k - 1) as nat) >= pow2(clog2(x)));
            assert(false);
        }
    }
}

/// Ceiling base-two logarithm, as the window planner needs it.
pub fn log2_ceil(x: usize) -> (r: u32)
    ensures
        r == clog2(x as nat),
        r <= 64,
{
    if x <= 1 {
        proof {
            vstd::arithmetic::power2::lemma2_to64();
            lemma_clog2_unique(x as nat, 0);
        }
        return 0u32;
    }
    let mut p: u128 = 1;
    let mut k: u32 = 0;
    proof {
        vstd::arithmetic::power2::lemma2_to64();
    }
    while p < x as u128
        invariant
            x >= 2,
            p == pow2(k as nat),
            k == 0 || pow2((k - 1) as nat) < x as nat,
            k <= 64,
            p <= 2 * (x as u128),
        decreases 2 * (x as int) - p,
    {
        proof {
            vstd::arithmetic::power2::lemma2_to64();
            vstd::arithmetic::power2::lemma2_to64_rest();
            if k >= 64 {
                assert(p >= 0x1_0000_0000_0000_0000u128);
                assert(false);
            }
            lemma_pow2_strictly_increases(k as nat, 64);
            lemma_pow2_adds(k as nat, 1);
            lemma_pow2_pos(k as nat);
        }
        p = p * 2;
        k = k + 1;
    }
    proof {
        lemma_clog2_unique(x as nat, k as nat);
    }
    k
}

/// The planned window width for a given input size: `3` below `32` pairs,
/// and `clog2(size) * 69 / 100 + 2` from `32` pairs on (the `69 / 100`
/// integer ratio stands in for `ln 2`).
pub open spec fn window_width(size: nat) -> nat {
    if size < 32 {
        3
    } else {
        clog2(size) * 69 / 100 + 2
    }
}

pub fn plan_window_width(size: usize) -> (c: usize)
    ensures
        c == window_width(size as nat),
        3 <= c <= 46,
        pow2(c as nat) < usize::MAX as nat,
{
    proof {
        vstd::layout::unsigned_int_max_values();
        assert(usize::BITS == 32 || usize::BITS == 64);
        vstd::arithmetic::power2::lemma2_to64();
        vstd::arithmetic::power2::lemma2_to64_rest();
    }
    if size < 32 {
        proof {
            assert(pow2(3) < usize::MAX as nat);
        }
        3
    } else {
        let l = log2_ceil(size);
        let ghost b = usize::BITS as nat;
        proof {
            lemma_clog2_monotone(32, size as nat);
            reveal_with_fuel(clog2, 7);
            assert(clog2(32) == 5);
            assert(5 * 69 / 100 == 3);
            lemma_div_is_ordered(5int * 69, clog2(size as nat) as int * 69, 100);
            assert(clog2(size as nat) * 69 <= 64 * 69) by (nonlinear_arith)
                requires clog2(size as nat) <= 64;
            lemma_div_is_ordered(clog2(size as nat) as int * 69, 64int * 69, 100);
            assert(64 * 69 / 100 == 44);
            // the planned width always leaves the bucket count inside the
            // machine's address range
            if clog2(size as nat) > b {
                lemma_clog2_tight(size as nat);
                if (clog2(size as nat) - 1) as nat > b {
                    lemma_pow2_strictly_increases(b, (clog2(size as nat) - 1) as nat);
                }
                assert(false);
            }
            assert(clog2(size as nat) * 69 <= b * 69) by (nonlinear_arith)
                requires clog2(size as nat) <= b;
            lemma_div_is_ordered(clog2(size as nat) as int * 69, b as int * 69, 100);
            if b == 32 {
                assert(32 * 69 / 100 == 22);
                assert(pow2(24) < pow2(32) - 1);
            } else {
                assert(64 * 69 / 100 == 44);
                assert(pow2(46) < pow2(64) - 1);
            }
            if (clog2(size as nat) * 69 / 100 + 2) < b * 69 / 100 + 2 {
                lemma_pow2_strictly_increases(
                    clog2(size as nat) * 69 / 100 + 2,
                    b * 69 / 100 + 2,
                );
            }
        }
        (l * 69 / 100 + 2) as usize
    }
}

/// The planner returns `3` for every size below `32` and is monotonically
/// non-decreasing from `32` on.
pub proof fn lemma_window_width_monotone(s1: nat, s2: nat)
    ensures
        s1 < 32 ==> window_width(s1) == 3,
        32 <= s1 <= s2 ==> window_width(s1) <= window_width(s2),
{
    if 32 <= s1 <= s2 {
        lemma_clog2_monotone(s1, s2);
        assert(clog2(s1) * 69 <= clog2(s2) * 69) by (nonlinear_arith)
            requires clog2(s1) <= clog2(s2);
        lemma_div_is_ordered(clog2(s1) as int * 69, clog2(s2) as int * 69, 100);
    }
}

} // verus!
