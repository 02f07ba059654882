use vstd::prelude::*;
use vstd::arithmetic::div_mod::{lemma_small_mod, lemma_mul_mod_noop_general, lemma_mod_self_0, lemma_fundamental_div_mod_converse_mod};

verus! {

/// The modulus of the curve's base field (the prime over which point
/// coordinates are taken).
pub open spec fn base_modulus() -> nat {
    0x1a0111ea397fe69a4b1ba7b6434bacd764774b84f38512bf6730d2a0f6b0f6241eabfffeb153ffffb9feffffffffaaabnat
}

/// Base-field subtraction on canonical integer values.
pub open spec fn f_sub(a: nat, b: nat) -> nat {
    (((a as int) - (b as int)) % (base_modulus() as int)) as nat
}

/// Base-field addition on canonical integer values.
pub open spec fn f_add(a: nat, b: nat) -> nat {
    ((a + b) % base_modulus()) as nat
}

/// Base-field multiplication on canonical integer values.
pub open spec fn f_mul(a: nat, b: nat) -> nat {
    ((a * b) % base_modulus()) as nat
}

/// The multiplicative inverse of a non-zero base-field value: the unique
/// canonical value whose product with `a` is one.
pub open spec fn f_inv(a: nat) -> nat {
    choose|r: nat| r < base_modulus() && f_mul(r, a) == 1
}

/// A multiplicative inverse is unique, so any witness equals `f_inv`.
pub proof fn lemma_f_inv_unique(a: nat, r: nat)
    requires
        r < base_modulus(),
        f_mul(r, a) == 1,
    ensures
        r == f_inv(a),
{
    let q = base_modulus() as int;
    let rr = f_inv(a);
    assert(rr < base_modulus() && f_mul(rr, a) == 1);
    let ai = a as int;
    let ri = r as int;
    let rri = rr as int;
    // r == r * ((rr * a) % q) % q == (r * a % q) * rr % q == rr
    lemma_mul_mod_noop_general(ri, rri * ai, q);
    assert(ri * (rri * ai) == (ri * ai) * rri) by (nonlinear_arith);
    lemma_mul_mod_noop_general(ri * ai, rri, q);
    lemma_small_mod(r, base_modulus());
    lemma_small_mod(rr, base_modulus());
    assert((ri * ((rri * ai) % q)) % q == (ri * (rri * ai)) % q);
    assert((ri * 1) % q == r);
    assert(((ri * ai) * rri) % q == (((ri * ai) % q) * rri) % q);
    assert((1 * rri) % q == rr);
}

/// On canonical values, the field difference vanishes exactly on equal
/// values.
pub proof fn lemma_f_sub_eq_zero(a: nat, b: nat)
    requires
        a < base_modulus(),
        b < base_modulus(),
    ensures
        (f_sub(a, b) == 0) <==> (a == b),
{
    let q = base_modulus() as int;
    if a >= b {
        lemma_small_mod((a - b) as nat, base_modulus());
    } else {
        lemma_fundamental_div_mod_converse_mod(
            (a as int) - (b as int),
            q,
            -1,
            (a as int) - (b as int) + q,
        );
    }
}

pub proof fn lemma_f_mul_comm(a: nat, b: nat)
    ensures
        f_mul(a, b) == f_mul(b, a),
{
    assert(a * b == b * a) by (nonlinear_arith);
}

pub proof fn lemma_f_mul_assoc(a: nat, b: nat, c: nat)
    ensures
        f_mul(f_mul(a, b), c) == f_mul(a, f_mul(b, c)),
{
    let q = base_modulus() as int;
    lemma_mul_mod_noop_general((a * b) as int, c as int, q);
    lemma_mul_mod_noop_general(a as int, (b * c) as int, q);
    assert((a * b) * c == a * (b * c)) by (nonlinear_arith);
}

/// A product with a zero factor is zero in the field.
pub proof fn lemma_f_mul_zero(a: nat)
    ensures
        f_mul(a, 0) == 0,
        f_mul(0, a) == 0,
{
    lemma_mod_self_0(base_modulus() as int);
    assert(a * 0 == 0) by (nonlinear_arith);
    assert(0 * a == 0) by (nonlinear_arith);
    lemma_small_mod(0, base_modulus());
}

} // verus!
