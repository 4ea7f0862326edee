//! Laws of the base-field arithmetic on canonical residues, and of the
//! extensions built on it.
use vstd::prelude::*;

use vstd::arithmetic::div_mod::{
    lemma_add_mod_noop, lemma_mul_mod_noop_left, lemma_mul_mod_noop_right, lemma_small_mod,
};

use crate::constants::{lemma_constants, p_nat, rinv_nat, R2};
use crate::field::{
    field_add, field_neg, lemma_add_residue, lemma_mont_mul_canonical, lemma_neg_residue,
    lemma_residue_inverse, mont_mul, residue,
};
use crate::gfp12::{g12_canonical, g12_conjugate, g12_mul, g12_square};
use crate::gfp2::{
    g2_add, g2_canonical, g2_mul, g2_mul_xi, g2_residue, g2_sub, lemma_g2_closed,
    lemma_g2_mul,
};
use crate::gfp6::{g6_add, g6_canonical, g6_mul, g6_mul_tau, g6_neg, g6_sub, G6};
use crate::field::lemma_sub_residue;
use vstd::arithmetic::div_mod::{lemma_mul_mod_noop, lemma_sub_mod_noop};
use crate::limbs::{r_spec, val4};

verus! {

/// Adding zero leaves a canonical value unchanged.
pub proof fn lemma_add_zero(a: nat)
    requires
        a < p_nat(),
    ensures
        field_add(a, 0) == a,
{
}

/// Multiplying by the Montgomery form of one leaves a canonical value unchanged.
pub proof fn lemma_mul_one(a: nat)
    requires
        a < p_nat(),
    ensures
        mont_mul(a, r_spec() % p_nat()) == a,
{
    lemma_constants();
    let pp = p_nat() as int;
    let ri = rinv_nat() as int;
    let rr = r_spec() as int;
    lemma_mont_mul_canonical(a, (rr % pp) as nat);
    lemma_mul_mod_noop_right(a as int, rr, pp);
    lemma_mul_mod_noop_left(a * (rr % pp), ri, pp);
    lemma_mul_mod_noop_left(a * rr, ri, pp);
    lemma_residue_inverse(a);
    lemma_mul_mod_noop_left(a * ri, rr, pp);
    assert(a * rr * ri == a * ri * rr) by (nonlinear_arith);
    assert((a * (rr % pp) * ri) % pp == (a * rr * ri) % pp);
    assert((a * ri * rr) % pp == a);
}

/// A canonical value plus its negation is zero.
pub proof fn lemma_add_neg(a: nat)
    requires
        a < p_nat(),
    ensures
        field_add(a, field_neg(a)) == 0,
{
    let pp = p_nat() as int;
    lemma_neg_residue(a);
    lemma_add_residue(a, field_neg(a));
    lemma_add_mod_noop(a as int, 0 - a, pp);
    lemma_small_mod(a, p_nat());
    lemma_small_mod(0, p_nat());
}

/// Addition is commutative.
pub proof fn lemma_add_commutative(a: nat, b: nat)
    ensures
        field_add(a, b) == field_add(b, a),
{
}

/// Montgomery multiplication is commutative.
pub proof fn lemma_mul_commutative(a: nat, b: nat)
    ensures
        mont_mul(a, b) == mont_mul(b, a),
{
    assert(a * b == b * a) by (nonlinear_arith);
}

/// Addition of canonical values is associative.
pub proof fn lemma_add_associative(a: nat, b: nat, c: nat)
    requires
        a < p_nat(),
        b < p_nat(),
        c < p_nat(),
    ensures
        field_add(field_add(a, b), c) == field_add(a, field_add(b, c)),
{
    let pp = p_nat() as int;
    lemma_add_residue(a, b);
    lemma_add_residue(b, c);
    lemma_add_residue(field_add(a, b), c);
    lemma_add_residue(a, field_add(b, c));
    lemma_add_mod_noop((a + b) as int, c as int, pp);
    lemma_add_mod_noop(a as int, (b + c) as int, pp);
    lemma_small_mod(a, p_nat());
    lemma_small_mod(c, p_nat());
}

/// Montgomery multiplication of canonical values is associative.
pub proof fn lemma_mul_associative(a: nat, b: nat, c: nat)
    requires
        a < p_nat(),
        b < p_nat(),
        c < p_nat(),
    ensures
        mont_mul(mont_mul(a, b), c) == mont_mul(a, mont_mul(b, c)),
{
    let pp = p_nat() as int;
    let ri = rinv_nat() as int;
    lemma_mont_mul_canonical(a, b);
    lemma_mont_mul_canonical(b, c);
    lemma_mont_mul_canonical(mont_mul(a, b), c);
    lemma_mont_mul_canonical(a, mont_mul(b, c));
    lemma_mul_mod_noop_left(a * b * ri, c * ri, pp);
    lemma_mul_mod_noop_right(a as int, b * c * ri, pp);
    lemma_mul_mod_noop_left(a * ((b * c * ri) % pp), ri, pp);
    lemma_mul_mod_noop_left(a * (b * c * ri), ri, pp);
    assert(((a * b * ri) % pp) * c * ri == ((a * b * ri) % pp) * (c * ri)) by (nonlinear_arith);
    assert((a * b * ri) * (c * ri) == a * (b * c * ri) * ri) by (nonlinear_arith);
}

/// Montgomery multiplication distributes over addition of canonical values.
pub proof fn lemma_distributive(a: nat, b: nat, c: nat)
    requires
        a < p_nat(),
        b < p_nat(),
        c < p_nat(),
    ensures
        mont_mul(a, field_add(b, c)) == field_add(mont_mul(a, b), mont_mul(a, c)),
{
    let pp = p_nat() as int;
    let ri = rinv_nat() as int;
    lemma_add_residue(b, c);
    lemma_mont_mul_canonical(a, field_add(b, c));
    lemma_mont_mul_canonical(a, b);
    lemma_mont_mul_canonical(a, c);
    lemma_add_residue(mont_mul(a, b), mont_mul(a, c));
    lemma_mul_mod_noop_right(a as int, (b + c) as int, pp);
    lemma_mul_mod_noop_left(a * (((b + c) as int) % pp), ri, pp);
    lemma_mul_mod_noop_left(a * ((b + c) as int), ri, pp);
    lemma_add_mod_noop(a * b * ri, a * c * ri, pp);
    assert(a * (b + c) * ri == a * b * ri + a * c * ri) by (nonlinear_arith);
}

/// Lifting a canonical value into Montgomery form and taking it out again
/// gives it back.
pub proof fn lemma_mont_round_trip(a: nat)
    requires
        a < p_nat(),
    ensures
        mont_mul(mont_mul(a, val4(R2)), 1) == a,
{
    lemma_constants();
    let pp = p_nat() as int;
    let ri = rinv_nat() as int;
    let rr = r_spec() as int;
    let r2 = val4(R2);
    crate::field::lemma_mont_mul_residue(a, r2);
    let e = mont_mul(a, r2);
    lemma_mont_mul_canonical(e, 1);
    assert(e * 1 * ri == e * ri) by (nonlinear_arith);
    assert(mont_mul(e, 1) == residue(e));
    lemma_mul_mod_noop_left(rr * rr, ri, pp);
    vstd::arithmetic::div_mod::lemma_fundamental_div_mod(rr * ri, pp);
    let u = (rr * ri) / pp;
    assert(rr * rr * ri == rr + pp * (rr * u)) by (nonlinear_arith)
        requires
            rr * ri == pp * u + 1,
    ;
    vstd::arithmetic::div_mod::lemma_mod_multiples_vanish(rr * u, rr, pp);
    assert(residue(r2) == rr % pp);
    lemma_mul_mod_noop_right(residue(a) as int, rr, pp);
    lemma_residue_inverse(a);
}

/// Negating a canonical value twice gives it back.
pub proof fn lemma_neg_involution(a: nat)
    requires
        a < p_nat(),
    ensures
        field_neg(field_neg(a)) == a,
{
    let pp = p_nat() as int;
    lemma_neg_residue(a);
    lemma_neg_residue(field_neg(a));
    vstd::arithmetic::div_mod::lemma_sub_mod_noop(0, 0 - a, pp);
    lemma_small_mod(0, p_nat());
    lemma_small_mod(a, p_nat());
}

/// Conjugating a canonical top-level element twice gives it back.
pub proof fn lemma_g12_conjugate_involution(a: (
    ((nat, nat), (nat, nat), (nat, nat)),
    ((nat, nat), (nat, nat), (nat, nat)),
))
    requires
        g12_canonical(a),
    ensures
        g12_conjugate(g12_conjugate(a)) == a,
{
    let x = a.0;
    lemma_neg_involution(x.0.0);
    lemma_neg_involution(x.0.1);
    lemma_neg_involution(x.1.0);
    lemma_neg_involution(x.1.1);
    lemma_neg_involution(x.2.0);
    lemma_neg_involution(x.2.1);
    assert(g6_neg(g6_neg(x)) == x);
}

/// Both parts of an integer pair reduced mod p.
pub open spec fn cmod(u: (int, int)) -> (int, int) {
    (u.0 % (p_nat() as int), u.1 % (p_nat() as int))
}

/// Sum of `u.0·i + u.1` and `v.0·i + v.1` over the integers.
pub open spec fn cadd(u: (int, int), v: (int, int)) -> (int, int) {
    (u.0 + v.0, u.1 + v.1)
}

/// Difference over the integers.
pub open spec fn csub(u: (int, int), v: (int, int)) -> (int, int) {
    (u.0 - v.0, u.1 - v.1)
}

/// Product over the integers with i² = -1.
pub open spec fn cmul(u: (int, int), v: (int, int)) -> (int, int) {
    (u.0 * v.1 + u.1 * v.0, u.1 * v.1 - u.0 * v.0)
}

/// Product with ξ = i + 3 over the integers.
pub open spec fn cxi(u: (int, int)) -> (int, int) {
    (3 * u.0 + u.1, 3 * u.1 - u.0)
}

/// `a` is canonical and its residues are `u` reduced mod p.
pub open spec fn stands_for(a: (nat, nat), u: (int, int)) -> bool {
    g2_canonical(a) && g2_residue(a) == cmod(u)
}

proof fn lemma_stands_for_self(a: (nat, nat))
    requires
        g2_canonical(a),
    ensures
        stands_for(a, g2_residue(a)),
{
    lemma_small_mod(residue(a.0), p_nat());
    lemma_small_mod(residue(a.1), p_nat());
}

proof fn lemma_add_cong(a: (nat, nat), b: (nat, nat), u: (int, int), v: (int, int))
    requires
        stands_for(a, u),
        stands_for(b, v),
    ensures
        stands_for(g2_add(a, b), cadd(u, v)),
{
    let pp = p_nat() as int;
    lemma_add_residue(a.0, b.0);
    lemma_add_residue(a.1, b.1);
    lemma_add_mod_noop(u.0, v.0, pp);
    lemma_add_mod_noop(u.1, v.1, pp);
}

proof fn lemma_sub_cong(a: (nat, nat), b: (nat, nat), u: (int, int), v: (int, int))
    requires
        stands_for(a, u),
        stands_for(b, v),
    ensures
        stands_for(g2_sub(a, b), csub(u, v)),
{
    let pp = p_nat() as int;
    lemma_sub_residue(a.0, b.0);
    lemma_sub_residue(a.1, b.1);
    lemma_sub_mod_noop(u.0, v.0, pp);
    lemma_sub_mod_noop(u.1, v.1, pp);
}

proof fn lemma_mul_cong(a: (nat, nat), b: (nat, nat), u: (int, int), v: (int, int))
    requires
        stands_for(a, u),
        stands_for(b, v),
    ensures
        stands_for(g2_mul(a, b), cmul(u, v)),
{
    let pp = p_nat() as int;
    lemma_g2_mul(a, b);
    let (a0, a1) = (u.0 % pp, u.1 % pp);
    let (b0, b1) = (v.0 % pp, v.1 % pp);
    lemma_mul_mod_noop(u.0, v.1, pp);
    lemma_mul_mod_noop(u.1, v.0, pp);
    lemma_mul_mod_noop(u.1, v.1, pp);
    lemma_mul_mod_noop(u.0, v.0, pp);
    lemma_add_mod_noop(a0 * b1, a1 * b0, pp);
    lemma_add_mod_noop(u.0 * v.1, u.1 * v.0, pp);
    lemma_sub_mod_noop(a1 * b1, a0 * b0, pp);
    lemma_sub_mod_noop(u.1 * v.1, u.0 * v.0, pp);
}

proof fn lemma_xi_cong(a: (nat, nat), u: (int, int))
    requires
        stands_for(a, u),
    ensures
        stands_for(g2_mul_xi(a), cxi(u)),
{
    let pp = p_nat() as int;
    lemma_g2_closed(a, a, 0);
    lemma_add_residue(a.0, a.0);
    lemma_add_residue(field_add(a.0, a.0), a.0);
    lemma_add_residue(field_add(field_add(a.0, a.0), a.0), a.1);
    lemma_add_residue(a.1, a.1);
    lemma_add_residue(field_add(a.1, a.1), a.1);
    lemma_sub_residue(field_add(field_add(a.1, a.1), a.1), a.0);
    lemma_add_mod_noop(u.0, u.0, pp);
    lemma_add_mod_noop(u.0 + u.0, u.0, pp);
    lemma_add_mod_noop(3 * u.0, u.1, pp);
    lemma_add_mod_noop(u.1, u.1, pp);
    lemma_add_mod_noop(u.1 + u.1, u.1, pp);
    lemma_sub_mod_noop(3 * u.1, u.0, pp);
}

/// `(x + y)(x' + y') - yy' - xx' = xy' + yx'` over integer pairs with i² = -1.
proof fn lemma_karatsuba(x: (int, int), y: (int, int), xb: (int, int), yb: (int, int))
    ensures
        csub(csub(cmul(cadd(x, y), cadd(xb, yb)), cmul(y, yb)), cmul(x, xb)) == cadd(
            cmul(x, yb),
            cmul(y, xb),
        ),
{
    let (x0, x1) = x;
    let (y0, y1) = y;
    let (u0, u1) = xb;
    let (v0, v1) = yb;
    assert((x0 + y0) * (u1 + v1) == x0 * u1 + x0 * v1 + y0 * u1 + y0 * v1) by (nonlinear_arith);
    assert((x1 + y1) * (u0 + v0) == x1 * u0 + x1 * v0 + y1 * u0 + y1 * v0) by (nonlinear_arith);
    assert((x1 + y1) * (u1 + v1) == x1 * u1 + x1 * v1 + y1 * u1 + y1 * v1) by (nonlinear_arith);
    assert((x0 + y0) * (u0 + v0) == x0 * u0 + x0 * v0 + y0 * u0 + y0 * v0) by (nonlinear_arith);
}

/// Residue triples of a cubic element, over unreduced integer pairs.
pub type C6 = ((int, int), (int, int), (int, int));

/// `a` is canonical and its coefficients stand for the pairs of `u`.
pub open spec fn stands_for6(a: G6, u: C6) -> bool {
    stands_for(a.0, u.0) && stands_for(a.1, u.1) && stands_for(a.2, u.2)
}

/// Coefficient-wise sum of triples.
pub open spec fn p6add(u: C6, v: C6) -> C6 {
    (cadd(u.0, v.0), cadd(u.1, v.1), cadd(u.2, v.2))
}

/// Coefficient-wise difference of triples.
pub open spec fn p6sub(u: C6, v: C6) -> C6 {
    (csub(u.0, v.0), csub(u.1, v.1), csub(u.2, v.2))
}

/// Product with τ: `(y, z, ξx)`.
pub open spec fn p6tau(u: C6) -> C6 {
    (u.1, u.2, cxi(u.0))
}

/// The product of `x·τ² + y·τ + z` and `x'·τ² + y'·τ + z'` reduced by τ³ = ξ.
pub open spec fn p6mul(u: C6, v: C6) -> C6 {
    let (x, y, z) = u;
    let (xb, yb, zb) = v;
    (
        cadd(cadd(cmul(x, zb), cmul(y, yb)), cmul(z, xb)),
        cadd(cadd(cmul(y, zb), cmul(z, yb)), cxi(cmul(x, xb))),
        cadd(cmul(z, zb), cxi(cadd(cmul(x, yb), cmul(y, xb)))),
    )
}

proof fn lemma_g6_mul_cong(a: G6, b: G6, u: C6, v: C6)
    requires
        stands_for6(a, u),
        stands_for6(b, v),
    ensures
        stands_for6(g6_mul(a, b), p6mul(u, v)),
{
    let (x, y, z) = u;
    let (xb, yb, zb) = v;
    let v0 = g2_mul(a.2, b.2);
    let v1 = g2_mul(a.1, b.1);
    let v2 = g2_mul(a.0, b.0);
    lemma_mul_cong(a.2, b.2, z, zb);
    lemma_mul_cong(a.1, b.1, y, yb);
    lemma_mul_cong(a.0, b.0, x, xb);
    let (w0, w1, w2) = (cmul(z, zb), cmul(y, yb), cmul(x, xb));
    lemma_add_cong(a.0, a.1, x, y);
    lemma_add_cong(b.0, b.1, xb, yb);
    let m = g2_mul(g2_add(a.0, a.1), g2_add(b.0, b.1));
    lemma_mul_cong(g2_add(a.0, a.1), g2_add(b.0, b.1), cadd(x, y), cadd(xb, yb));
    let mz = cmul(cadd(x, y), cadd(xb, yb));
    lemma_sub_cong(m, v1, mz, w1);
    lemma_sub_cong(g2_sub(m, v1), v2, csub(mz, w1), w2);
    lemma_xi_cong(g2_sub(g2_sub(m, v1), v2), csub(csub(mz, w1), w2));
    lemma_add_cong(g2_mul_xi(g2_sub(g2_sub(m, v1), v2)), v0, cxi(csub(csub(mz, w1), w2)), w0);
    lemma_karatsuba(x, y, xb, yb);
    lemma_add_cong(a.1, a.2, y, z);
    lemma_add_cong(b.1, b.2, yb, zb);
    let n = g2_mul(g2_add(a.1, a.2), g2_add(b.1, b.2));
    lemma_mul_cong(g2_add(a.1, a.2), g2_add(b.1, b.2), cadd(y, z), cadd(yb, zb));
    let my = cmul(cadd(y, z), cadd(yb, zb));
    lemma_sub_cong(n, v0, my, w0);
    lemma_sub_cong(g2_sub(n, v0), v1, csub(my, w0), w1);
    lemma_xi_cong(v2, w2);
    lemma_add_cong(g2_sub(g2_sub(n, v0), v1), g2_mul_xi(v2), csub(csub(my, w0), w1), cxi(w2));
    lemma_karatsuba(y, z, yb, zb);
    lemma_add_cong(a.0, a.2, x, z);
    lemma_add_cong(b.0, b.2, xb, zb);
    let o = g2_mul(g2_add(a.0, a.2), g2_add(b.0, b.2));
    lemma_mul_cong(g2_add(a.0, a.2), g2_add(b.0, b.2), cadd(x, z), cadd(xb, zb));
    let mx = cmul(cadd(x, z), cadd(xb, zb));
    lemma_sub_cong(o, v0, mx, w0);
    lemma_add_cong(g2_sub(o, v0), v1, csub(mx, w0), w1);
    lemma_sub_cong(g2_add(g2_sub(o, v0), v1), v2, cadd(csub(mx, w0), w1), w2);
    lemma_karatsuba(x, z, xb, zb);
}

proof fn lemma_stands_for6_self(a: G6)
    requires
        g6_canonical(a),
    ensures
        stands_for6(a, (g2_residue(a.0), g2_residue(a.1), g2_residue(a.2))),
{
    lemma_stands_for_self(a.0);
    lemma_stands_for_self(a.1);
    lemma_stands_for_self(a.2);
}

/// The cubic product of canonical elements is the product of the polynomials
/// `x·τ² + y·τ + z` reduced by τ³ = ξ, on residues:
/// `z'' = zz' + ξ(xy' + yx')`, `y'' = yz' + zy' + ξxx'`, `x'' = xz' + yy' + zx'`.
pub proof fn lemma_g6_mul_is_polynomial_product(a: G6, b: G6)
    requires
        g6_canonical(a),
        g6_canonical(b),
    ensures
        ({
            let (x, y, z) = (g2_residue(a.0), g2_residue(a.1), g2_residue(a.2));
            let (xb, yb, zb) = (g2_residue(b.0), g2_residue(b.1), g2_residue(b.2));
            let c = g6_mul(a, b);
            &&& g6_canonical(c)
            &&& g2_residue(c.2) == cmod(cadd(cmul(z, zb), cxi(cadd(cmul(x, yb), cmul(y, xb)))))
            &&& g2_residue(c.1) == cmod(cadd(cadd(cmul(y, zb), cmul(z, yb)), cxi(cmul(x, xb))))
            &&& g2_residue(c.0) == cmod(cadd(cadd(cmul(x, zb), cmul(y, yb)), cmul(z, xb)))
        }),
{
    lemma_stands_for6_self(a);
    lemma_stands_for6_self(b);
    lemma_g6_mul_cong(
        a,
        b,
        (g2_residue(a.0), g2_residue(a.1), g2_residue(a.2)),
        (g2_residue(b.0), g2_residue(b.1), g2_residue(b.2)),
    );
}

proof fn lemma_cmul_distributes(u: (int, int), v: (int, int), w: (int, int))
    ensures
        cmul(cadd(u, v), w) == cadd(cmul(u, w), cmul(v, w)),
        cmul(w, cadd(u, v)) == cadd(cmul(w, u), cmul(w, v)),
{
    assert((u.0 + v.0) * w.1 == u.0 * w.1 + v.0 * w.1) by (nonlinear_arith);
    assert((u.1 + v.1) * w.0 == u.1 * w.0 + v.1 * w.0) by (nonlinear_arith);
    assert((u.1 + v.1) * w.1 == u.1 * w.1 + v.1 * w.1) by (nonlinear_arith);
    assert((u.0 + v.0) * w.0 == u.0 * w.0 + v.0 * w.0) by (nonlinear_arith);
    assert(w.0 * (u.1 + v.1) == w.0 * u.1 + w.0 * v.1) by (nonlinear_arith);
    assert(w.1 * (u.0 + v.0) == w.1 * u.0 + w.1 * v.0) by (nonlinear_arith);
    assert(w.1 * (u.1 + v.1) == w.1 * u.1 + w.1 * v.1) by (nonlinear_arith);
    assert(w.0 * (u.0 + v.0) == w.0 * u.0 + w.0 * v.0) by (nonlinear_arith);
}

proof fn lemma_cmul_commutes(u: (int, int), v: (int, int))
    ensures
        cmul(u, v) == cmul(v, u),
{
    assert(u.0 * v.1 == v.1 * u.0) by (nonlinear_arith);
    assert(u.1 * v.0 == v.0 * u.1) by (nonlinear_arith);
    assert(u.1 * v.1 == v.1 * u.1) by (nonlinear_arith);
    assert(u.0 * v.0 == v.0 * u.0) by (nonlinear_arith);
}

proof fn lemma_cmul_xi(u: (int, int), v: (int, int))
    ensures
        cmul(u, cxi(v)) == cxi(cmul(u, v)),
{
    assert(u.0 * (3 * v.1 - v.0) == 3 * (u.0 * v.1) - u.0 * v.0) by (nonlinear_arith);
    assert(u.1 * (3 * v.0 + v.1) == 3 * (u.1 * v.0) + u.1 * v.1) by (nonlinear_arith);
    assert(u.1 * (3 * v.1 - v.0) == 3 * (u.1 * v.1) - u.1 * v.0) by (nonlinear_arith);
    assert(u.0 * (3 * v.0 + v.1) == 3 * (u.0 * v.0) + u.0 * v.1) by (nonlinear_arith);
}

proof fn lemma_p6mul_distributes(u: C6, v: C6, w: C6)
    ensures
        p6mul(p6add(u, v), w) == p6add(p6mul(u, w), p6mul(v, w)),
        p6mul(w, p6add(u, v)) == p6add(p6mul(w, u), p6mul(w, v)),
{
    lemma_cmul_distributes(u.0, v.0, w.0);
    lemma_cmul_distributes(u.0, v.0, w.1);
    lemma_cmul_distributes(u.0, v.0, w.2);
    lemma_cmul_distributes(u.1, v.1, w.0);
    lemma_cmul_distributes(u.1, v.1, w.1);
    lemma_cmul_distributes(u.1, v.1, w.2);
    lemma_cmul_distributes(u.2, v.2, w.0);
    lemma_cmul_distributes(u.2, v.2, w.1);
    lemma_cmul_distributes(u.2, v.2, w.2);
}

proof fn lemma_p6mul_commutes(u: C6, v: C6)
    ensures
        p6mul(u, v) == p6mul(v, u),
{
    lemma_cmul_commutes(u.0, v.0);
    lemma_cmul_commutes(u.0, v.1);
    lemma_cmul_commutes(u.0, v.2);
    lemma_cmul_commutes(u.1, v.0);
    lemma_cmul_commutes(u.1, v.1);
    lemma_cmul_commutes(u.1, v.2);
    lemma_cmul_commutes(u.2, v.0);
    lemma_cmul_commutes(u.2, v.1);
    lemma_cmul_commutes(u.2, v.2);
}

proof fn lemma_p6mul_tau(u: C6, v: C6)
    ensures
        p6mul(u, p6tau(v)) == p6tau(p6mul(u, v)),
{
    lemma_cmul_xi(u.0, v.0);
    lemma_cmul_xi(u.1, v.0);
    lemma_cmul_xi(u.2, v.0);
}

/// `(x + y)(y + τx) - xy - τxy = y² + τx²` over the cubic polynomials.
proof fn lemma_complex_square_identity(x: C6, y: C6)
    ensures
        p6sub(p6sub(p6mul(p6add(x, y), p6add(y, p6tau(x))), p6mul(x, y)), p6tau(p6mul(x, y)))
            == p6add(p6mul(y, y), p6tau(p6mul(x, x))),
{
    let t = p6add(y, p6tau(x));
    lemma_p6mul_distributes(x, y, t);
    lemma_p6mul_distributes(y, p6tau(x), x);
    lemma_p6mul_distributes(y, p6tau(x), y);
    lemma_p6mul_tau(x, x);
    lemma_p6mul_tau(y, x);
    lemma_p6mul_commutes(y, x);
}

proof fn lemma_g6_add_cong(a: G6, b: G6, u: C6, v: C6)
    requires
        stands_for6(a, u),
        stands_for6(b, v),
    ensures
        stands_for6(g6_add(a, b), p6add(u, v)),
{
    lemma_add_cong(a.0, b.0, u.0, v.0);
    lemma_add_cong(a.1, b.1, u.1, v.1);
    lemma_add_cong(a.2, b.2, u.2, v.2);
}

proof fn lemma_g6_sub_cong(a: G6, b: G6, u: C6, v: C6)
    requires
        stands_for6(a, u),
        stands_for6(b, v),
    ensures
        stands_for6(g6_sub(a, b), p6sub(u, v)),
{
    lemma_sub_cong(a.0, b.0, u.0, v.0);
    lemma_sub_cong(a.1, b.1, u.1, v.1);
    lemma_sub_cong(a.2, b.2, u.2, v.2);
}

proof fn lemma_g6_tau_cong(a: G6, u: C6)
    requires
        stands_for6(a, u),
    ensures
        stands_for6(g6_mul_tau(a), p6tau(u)),
{
    lemma_xi_cong(a.0, u.0);
}

proof fn lemma_same_standing(a: (nat, nat), b: (nat, nat), u: (int, int))
    requires
        stands_for(a, u),
        stands_for(b, u),
    ensures
        a == b,
{
    crate::field::lemma_residue_injective(a.0, b.0);
    crate::field::lemma_residue_injective(a.1, b.1);
}

/// Squaring a canonical top-level element with the dedicated formula gives the
/// same value as multiplying it by itself.
pub proof fn lemma_g12_square(a: (G6, G6))
    requires
        g12_canonical(a),
    ensures
        g12_square(a) == g12_mul(a, a),
{
    let (x, y) = a;
    lemma_stands_for6_self(x);
    lemma_stands_for6_self(y);
    let xr = (g2_residue(x.0), g2_residue(x.1), g2_residue(x.2));
    let yr = (g2_residue(y.0), g2_residue(y.1), g2_residue(y.2));
    let v0 = g6_mul(x, y);
    lemma_g6_mul_cong(x, y, xr, yr);
    lemma_g6_tau_cong(x, xr);
    lemma_g6_add_cong(y, g6_mul_tau(x), yr, p6tau(xr));
    let t = g6_add(y, g6_mul_tau(x));
    lemma_g6_add_cong(x, y, xr, yr);
    lemma_g6_mul_cong(g6_add(x, y), t, p6add(xr, yr), p6add(yr, p6tau(xr)));
    let m = g6_mul(g6_add(x, y), t);
    let mr = p6mul(p6add(xr, yr), p6add(yr, p6tau(xr)));
    lemma_g6_sub_cong(m, v0, mr, p6mul(xr, yr));
    lemma_g6_tau_cong(v0, p6mul(xr, yr));
    lemma_g6_sub_cong(g6_sub(m, v0), g6_mul_tau(v0), p6sub(mr, p6mul(xr, yr)), p6tau(p6mul(xr, yr)));
    lemma_g6_mul_cong(y, y, yr, yr);
    lemma_g6_mul_cong(x, x, xr, xr);
    lemma_g6_tau_cong(g6_mul(x, x), p6mul(xr, xr));
    lemma_g6_add_cong(g6_mul(y, y), g6_mul_tau(g6_mul(x, x)), p6mul(yr, yr), p6tau(p6mul(xr, xr)));
    lemma_complex_square_identity(xr, yr);
    let sq = g6_sub(g6_sub(m, v0), g6_mul_tau(v0));
    let ml = g6_add(g6_mul(y, y), g6_mul_tau(g6_mul(x, x)));
    let e = p6add(p6mul(yr, yr), p6tau(p6mul(xr, xr)));
    lemma_same_standing(sq.0, ml.0, e.0);
    lemma_same_standing(sq.1, ml.1, e.1);
    lemma_same_standing(sq.2, ml.2, e.2);
}

} // verus!
