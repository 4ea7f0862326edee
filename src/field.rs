//! The base field's arithmetic as mathematics: what each primitive computes on
//! 256-bit values, and the laws that follow for canonical residues.
use vstd::prelude::*;

use vstd::arithmetic::div_mod::{
    lemma_fundamental_div_mod, lemma_fundamental_div_mod_converse, lemma_mul_mod_noop,
    lemma_mul_mod_noop_left, lemma_small_mod, lemma_add_mod_noop,
    lemma_sub_mod_noop,
};
use vstd::arithmetic::power::{lemma_pow_adds, pow};

use crate::constants::{lemma_constants, np_nat, p_nat, rinv_nat};
use crate::limbs::r_spec;

verus! {

/// One conditional subtraction of p from a value below 2^256 + p, kept to 256 bits.
pub open spec fn reduce_once(v: nat) -> nat {
    if v >= p_nat() {
        ((v - p_nat()) % (r_spec() as int)) as nat
    } else {
        v
    }
}

/// Montgomery reduction of a product: `(t + m p) / 2^256` with
/// `m = (t mod 2^256) * np mod 2^256`.
pub open spec fn redc(t: nat) -> nat {
    (t + (((t % r_spec()) * np_nat()) % r_spec()) * p_nat()) / r_spec()
}

/// Montgomery product of two 256-bit values.
pub open spec fn mont_mul(a: nat, b: nat) -> nat {
    reduce_once(redc(a * b))
}

/// Modular sum of two 256-bit values.
pub open spec fn field_add(a: nat, b: nat) -> nat {
    reduce_once(a + b)
}

/// Modular difference: `a` plus `p - b` taken modulo 2^256, then reduced.
pub open spec fn field_sub(a: nat, b: nat) -> nat {
    reduce_once((a + (p_nat() - b) % (r_spec() as int)) as nat)
}

/// Modular negation: `p - a` taken modulo 2^256, then reduced.
pub open spec fn field_neg(a: nat) -> nat {
    reduce_once(((p_nat() - a) % (r_spec() as int)) as nat)
}

/// The residue that a Montgomery-form value stands for: `x * 2^-256 mod p`.
pub open spec fn residue(x: nat) -> nat {
    (x * rinv_nat()) % p_nat()
}

/// Montgomery multiplication of canonical values is multiplication by 2^-256 mod p.
pub proof fn lemma_mont_mul_canonical(a: nat, b: nat)
    requires
        a < p_nat(),
        b < p_nat(),
    ensures
        mont_mul(a, b) == (a * b * rinv_nat()) % p_nat(),
        mont_mul(a, b) < p_nat(),
{
    lemma_constants();
    let rr = r_spec() as int;
    let pp = p_nat() as int;
    let np = np_nat() as int;
    let ri = rinv_nat() as int;
    let t = (a * b) as int;
    assert(t < pp * pp) by (nonlinear_arith)
        requires
            t == a * b,
            a < pp,
            b < pp,
            0 <= a,
            0 <= b,
    ;
    lemma_fundamental_div_mod(t, rr);
    let t0 = t % rr;
    let q1 = t / rr;
    let x = t0 * np;
    lemma_fundamental_div_mod(x, rr);
    let m = x % rr;
    let q2 = x / rr;
    lemma_fundamental_div_mod(np * pp + 1, rr);
    let k = (np * pp + 1) / rr;
    let s = t + m * pp;
    assert(s == rr * (t0 * k + q1 - q2 * pp)) by (nonlinear_arith)
        requires
            s == t + m * pp,
            t == rr * q1 + t0,
            x == t0 * np,
            x == rr * q2 + m,
            np * pp + 1 == rr * k,
    ;
    let c = t0 * k + q1 - q2 * pp;
    lemma_fundamental_div_mod_converse(s, rr, c, 0);
    assert(redc(a * b) == c);
    assert(0 <= m < rr);
    assert(c < 2 * pp && c >= 0) by (nonlinear_arith)
        requires
            s == rr * c,
            s == t + m * pp,
            0 <= t < pp * pp,
            0 <= m < rr,
            0 < pp < rr,
    ;
    let r = mont_mul(a, b) as int;
    let z: int = if c >= pp {
        1
    } else {
        0
    };
    if c >= pp {
        lemma_fundamental_div_mod_converse(c - pp, rr, 0, c - pp);
    }
    assert(r == c - z * pp);
    lemma_fundamental_div_mod(rr * ri, pp);
    let u = (rr * ri) / pp;
    let y = m - rr * z;
    assert(t == r * rr - pp * y) by (nonlinear_arith)
        requires
            s == rr * c,
            s == t + m * pp,
            r == c - z * pp,
            y == m - rr * z,
    ;
    assert(t * ri == r * (rr * ri) - pp * (y * ri)) by (nonlinear_arith)
        requires
            t == r * rr - pp * y,
    ;
    assert(t * ri == r + pp * (r * u - y * ri)) by (nonlinear_arith)
        requires
            t * ri == r * (rr * ri) - pp * (y * ri),
            rr * ri == pp * u + 1,
    ;
    lemma_fundamental_div_mod_converse(t * ri, pp, r * u - y * ri, r);
}

/// The residue of a Montgomery product is the product of the residues.
pub proof fn lemma_mont_mul_residue(a: nat, b: nat)
    requires
        a < p_nat(),
        b < p_nat(),
    ensures
        mont_mul(a, b) < p_nat(),
        residue(mont_mul(a, b)) == (residue(a) * residue(b)) % p_nat(),
{
    lemma_mont_mul_canonical(a, b);
    let pp = p_nat() as int;
    let ri = rinv_nat() as int;
    lemma_mul_mod_noop_left(a * b * ri, ri, pp);
    lemma_mul_mod_noop(a * ri, b * ri, pp);
    assert(a * b * ri * ri == (a * ri) * (b * ri)) by (nonlinear_arith);
}

/// Multiplying `s * x^e1` by `x^e2`, both taken mod p, gives `s * x^(e1 + e2)` mod p.
pub proof fn lemma_mul_pows(s: int, x: int, e1: nat, e2: nat)
    ensures
        (((s * pow(x, e1)) % (p_nat() as int)) * (pow(x, e2) % (p_nat() as int))) % (p_nat() as int)
            == (s * pow(x, e1 + e2)) % (p_nat() as int),
{
    let pp = p_nat() as int;
    lemma_mul_mod_noop(s * pow(x, e1), pow(x, e2), pp);
    lemma_pow_adds(x, e1, e2);
    assert(s * pow(x, e1) * pow(x, e2) == s * (pow(x, e1) * pow(x, e2))) by (nonlinear_arith);
}

/// Modular addition of canonical values is addition mod p, on values and on residues.
pub proof fn lemma_add_residue(a: nat, b: nat)
    requires
        a < p_nat(),
        b < p_nat(),
    ensures
        field_add(a, b) < p_nat(),
        field_add(a, b) == ((a + b) as int) % (p_nat() as int),
        residue(field_add(a, b)) == ((residue(a) + residue(b)) as int) % (p_nat() as int),
{
    lemma_constants();
    let pp = p_nat() as int;
    let ri = rinv_nat() as int;
    if a + b >= pp {
        lemma_fundamental_div_mod_converse(a + b - pp, r_spec() as int, 0, a + b - pp);
        lemma_fundamental_div_mod_converse((a + b) as int, pp, 1, a + b - pp);
    } else {
        lemma_fundamental_div_mod_converse((a + b) as int, pp, 0, (a + b) as int);
    }
    lemma_mul_mod_noop_left((a + b) as int, ri, pp);
    lemma_add_mod_noop(a * ri, b * ri, pp);
    assert((a + b) * ri == a * ri + b * ri) by (nonlinear_arith);
}

/// Modular subtraction of canonical values is subtraction mod p, on values and on residues.
pub proof fn lemma_sub_residue(a: nat, b: nat)
    requires
        a < p_nat(),
        b < p_nat(),
    ensures
        field_sub(a, b) < p_nat(),
        field_sub(a, b) == (a - b) % (p_nat() as int),
        residue(field_sub(a, b)) == (residue(a) - residue(b)) % (p_nat() as int),
{
    lemma_constants();
    let pp = p_nat() as int;
    let ri = rinv_nat() as int;
    lemma_fundamental_div_mod_converse(pp - b, r_spec() as int, 0, pp - b);
    if a + pp - b >= pp {
        lemma_fundamental_div_mod_converse(a - b, r_spec() as int, 0, a - b);
        lemma_fundamental_div_mod_converse(a - b, pp, 0, a - b);
    } else {
        lemma_fundamental_div_mod_converse(a - b, pp, -1, a + pp - b);
    }
    lemma_mul_mod_noop_left(a - b, ri, pp);
    lemma_sub_mod_noop(a * ri, b * ri, pp);
    assert((a - b) * ri == a * ri - b * ri) by (nonlinear_arith);
}

/// Modular negation of a canonical value is negation mod p, on values and on residues.
pub proof fn lemma_neg_residue(a: nat)
    requires
        a < p_nat(),
    ensures
        field_neg(a) < p_nat(),
        field_neg(a) == (0 - a) % (p_nat() as int),
        residue(field_neg(a)) == (0 - residue(a)) % (p_nat() as int),
{
    lemma_constants();
    let pp = p_nat() as int;
    let ri = rinv_nat() as int;
    lemma_fundamental_div_mod_converse(pp - a, r_spec() as int, 0, pp - a);
    if a == 0 {
        lemma_fundamental_div_mod_converse(0, r_spec() as int, 0, 0);
        lemma_fundamental_div_mod_converse(0, pp, 0, 0);
    } else {
        lemma_fundamental_div_mod_converse(0 - a, pp, -1, pp - a);
    }
    lemma_mul_mod_noop_left(0 - a, ri, pp);
    lemma_sub_mod_noop(0, a * ri, pp);
    lemma_small_mod(0, pp as nat);
    assert((0 - a) * ri == 0 - a * ri) by (nonlinear_arith);
}

/// A canonical value is determined by its residue: multiplying back by 2^256 recovers it.
pub proof fn lemma_residue_inverse(a: nat)
    requires
        a < p_nat(),
    ensures
        ((residue(a) * r_spec()) as int) % (p_nat() as int) == a,
{
    lemma_constants();
    let pp = p_nat() as int;
    let ri = rinv_nat() as int;
    let rr = r_spec() as int;
    lemma_mul_mod_noop_left(a * ri, rr, pp);
    lemma_fundamental_div_mod(rr * ri, pp);
    let u = (rr * ri) / pp;
    assert(a * ri * rr == a + pp * (a * u)) by (nonlinear_arith)
        requires
            rr * ri == pp * u + 1,
    ;
    lemma_fundamental_div_mod_converse(a * ri * rr, pp, a * u, a as int);
}

/// Canonical values with the same residue are equal.
pub proof fn lemma_residue_injective(a: nat, b: nat)
    requires
        a < p_nat(),
        b < p_nat(),
        residue(a) == residue(b),
    ensures
        a == b,
{
    lemma_residue_inverse(a);
    lemma_residue_inverse(b);
}

} // verus!
