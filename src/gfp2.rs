//! The quadratic extension: elements `x·i + y` over the base field, with i² = -1.
use vstd::prelude::*;

use vstd::arithmetic::div_mod::{lemma_add_mod_noop, lemma_mul_mod_noop, lemma_sub_mod_noop};
use vstd::arithmetic::power::pow;

use crate::constants::p_nat;
use crate::limbs::r_spec;
use crate::field::{
    field_add, field_neg, field_sub, lemma_add_residue, lemma_mont_mul_residue, lemma_neg_residue,
    lemma_sub_residue, mont_mul, residue,
};
use crate::gfp::{gfp_add, gfp_mul, gfp_neg, gfp_sub, same_limbs, Gfp};

verus! {

/// An element `x·i + y` of the quadratic extension, stored as `[x, y]`.
#[derive(Clone, Copy, Debug, Default, Eq)]
pub struct Gfp2(pub [Gfp; 2]);

/// Two quadratic elements hold the same limbs.
pub open spec fn same_g2(a: Gfp2, b: Gfp2) -> bool {
    same_limbs(a.0[0], b.0[0]) && same_limbs(a.0[1], b.0[1])
}

impl PartialEq for Gfp2 {
    fn eq(&self, o: &Gfp2) -> (r: bool) {
        self.0[0] == o.0[0] && self.0[1] == o.0[1]
    }
}

impl vstd::std_specs::cmp::PartialEqSpecImpl for Gfp2 {
    open spec fn obeys_eq_spec() -> bool {
        true
    }

    open spec fn eq_spec(&self, o: &Gfp2) -> bool {
        same_g2(*self, *o)
    }
}

impl View for Gfp2 {
    type V = (nat, nat);

    open spec fn view(&self) -> (nat, nat) {
        (self.0[0]@, self.0[1]@)
    }
}

/// Both components are canonical.
pub open spec fn g2_canonical(a: (nat, nat)) -> bool {
    a.0 < p_nat() && a.1 < p_nat()
}

/// The residues of both components, as the pair `(x, y)` of `x·i + y`.
pub open spec fn g2_residue(a: (nat, nat)) -> (int, int) {
    (residue(a.0) as int, residue(a.1) as int)
}

/// Component-wise sum.
pub open spec fn g2_add(a: (nat, nat), b: (nat, nat)) -> (nat, nat) {
    (field_add(a.0, b.0), field_add(a.1, b.1))
}

/// Component-wise difference.
pub open spec fn g2_sub(a: (nat, nat), b: (nat, nat)) -> (nat, nat) {
    (field_sub(a.0, b.0), field_sub(a.1, b.1))
}

/// Component-wise negation.
pub open spec fn g2_neg(a: (nat, nat)) -> (nat, nat) {
    (field_neg(a.0), field_neg(a.1))
}

/// The conjugate `-x·i + y`.
pub open spec fn g2_conjugate(a: (nat, nat)) -> (nat, nat) {
    (field_neg(a.0), a.1)
}

/// Both components multiplied by one base-field value.
pub open spec fn g2_mul_scalar(a: (nat, nat), s: nat) -> (nat, nat) {
    (mont_mul(a.0, s), mont_mul(a.1, s))
}

/// Three-multiplication product: with `v0 = y·y'` and `v1 = x·x'`, the result is
/// `((x + y)(x' + y') - v0 - v1)·i + (v0 - v1)`.
pub open spec fn g2_mul(a: (nat, nat), b: (nat, nat)) -> (nat, nat) {
    let v0 = mont_mul(a.1, b.1);
    let v1 = mont_mul(a.0, b.0);
    (
        field_sub(field_sub(mont_mul(field_add(a.0, a.1), field_add(b.0, b.1)), v0), v1),
        field_sub(v0, v1),
    )
}

/// Product with ξ = i + 3: `(3x + y)·i + (3y - x)`, by additions only.
pub open spec fn g2_mul_xi(a: (nat, nat)) -> (nat, nat) {
    (
        field_add(field_add(field_add(a.0, a.0), a.0), a.1),
        field_sub(field_add(field_add(a.1, a.1), a.1), a.0),
    )
}

/// Dedicated squaring: `(2xy)·i + (y - x)(x + y)`.
pub open spec fn g2_square(a: (nat, nat)) -> (nat, nat) {
    (mont_mul(field_add(a.0, a.0), a.1), mont_mul(field_sub(a.1, a.0), field_add(a.0, a.1)))
}

/// The field product of two residue pairs, by the schoolbook formula with i² = -1.
pub open spec fn g2_product(a: (int, int), b: (int, int)) -> (int, int) {
    ((a.0 * b.1 + a.1 * b.0) % (p_nat() as int), (a.1 * b.1 - a.0 * b.0) % (p_nat() as int))
}

/// The canonical value that stands for a residue.
pub open spec fn from_residue(r: int) -> nat {
    ((r * r_spec()) % (p_nat() as int)) as nat
}

/// The inverse of a canonical element, as its residues are given by the norm:
/// `(-x·i + y) / (x² + y²)`, with the norm's inverse taken as its power p - 2.
pub open spec fn g2_inverse(a: (nat, nat)) -> (nat, nat) {
    let (ax, ay) = g2_residue(a);
    let pp = p_nat() as int;
    let t = pow((ax * ax + ay * ay) % pp, (p_nat() - 2) as nat) % pp;
    (from_residue(((0 - ax) * t) % pp), from_residue((ay * t) % pp))
}

/// The operations keep canonical elements canonical.
pub proof fn lemma_g2_closed(a: (nat, nat), b: (nat, nat), s: nat)
    requires
        g2_canonical(a),
        g2_canonical(b),
        s < p_nat(),
    ensures
        g2_canonical(g2_add(a, b)),
        g2_canonical(g2_sub(a, b)),
        g2_canonical(g2_neg(a)),
        g2_canonical(g2_conjugate(a)),
        g2_canonical(g2_mul(a, b)),
        g2_canonical(g2_mul_xi(a)),
        g2_canonical(g2_square(a)),
        g2_canonical(g2_mul_scalar(a, s)),
{
    lemma_add_residue(a.0, b.0);
    lemma_add_residue(a.1, b.1);
    lemma_sub_residue(a.0, b.0);
    lemma_sub_residue(a.1, b.1);
    lemma_neg_residue(a.0);
    lemma_neg_residue(a.1);
    lemma_g2_mul(a, b);
    lemma_g2_square(a);
    lemma_mont_mul_residue(a.0, s);
    lemma_mont_mul_residue(a.1, s);
    lemma_add_residue(a.0, a.0);
    lemma_add_residue(field_add(a.0, a.0), a.0);
    lemma_add_residue(field_add(field_add(a.0, a.0), a.0), a.1);
    lemma_add_residue(a.1, a.1);
    lemma_add_residue(field_add(a.1, a.1), a.1);
    lemma_sub_residue(field_add(field_add(a.1, a.1), a.1), a.0);
}

/// The three-multiplication product of canonical elements is canonical and is the
/// schoolbook product of the residues.
pub proof fn lemma_g2_mul(a: (nat, nat), b: (nat, nat))
    requires
        g2_canonical(a),
        g2_canonical(b),
    ensures
        g2_canonical(g2_mul(a, b)),
        g2_residue(g2_mul(a, b)) == g2_product(g2_residue(a), g2_residue(b)),
{
    let pp = p_nat() as int;
    let (ax, ay) = g2_residue(a);
    let (bx, by) = g2_residue(b);
    let v0 = mont_mul(a.1, b.1);
    let v1 = mont_mul(a.0, b.0);
    lemma_mont_mul_residue(a.1, b.1);
    lemma_mont_mul_residue(a.0, b.0);
    lemma_add_residue(a.0, a.1);
    lemma_add_residue(b.0, b.1);
    let sa = field_add(a.0, a.1);
    let sb = field_add(b.0, b.1);
    lemma_mont_mul_residue(sa, sb);
    let m = mont_mul(sa, sb);
    lemma_sub_residue(m, v0);
    lemma_sub_residue(field_sub(m, v0), v1);
    lemma_sub_residue(v0, v1);
    lemma_mul_mod_noop(ax + ay, bx + by, pp);
    lemma_sub_mod_noop((ax + ay) * (bx + by), ay * by, pp);
    lemma_sub_mod_noop((ax + ay) * (bx + by) - ay * by, ax * bx, pp);
    lemma_sub_mod_noop(ay * by, ax * bx, pp);
    assert((ax + ay) * (bx + by) - ay * by - ax * bx == ax * by + ay * bx) by (nonlinear_arith);
}

/// Squaring a canonical element gives the same value as multiplying it by itself.
pub proof fn lemma_g2_square(a: (nat, nat))
    requires
        g2_canonical(a),
    ensures
        g2_canonical(g2_square(a)),
        g2_square(a) == g2_mul(a, a),
{
    let pp = p_nat() as int;
    let ax = residue(a.0) as int;
    let ay = residue(a.1) as int;
    let s = g2_square(a);
    let m = g2_mul(a, a);
    lemma_g2_mul(a, a);
    assert(s.0 < p_nat() && residue(s.0) == residue(m.0)) by {
        lemma_add_residue(a.0, a.0);
        lemma_mont_mul_residue(field_add(a.0, a.0), a.1);
        lemma_mul_mod_noop(ax + ax, ay, pp);
        vstd::arithmetic::div_mod::lemma_small_mod(ay as nat, pp as nat);
        assert((ax + ax) * ay == ax * ay + ay * ax) by (nonlinear_arith);
    }
    assert(s.1 < p_nat() && residue(s.1) == residue(m.1)) by {
        lemma_sub_residue(a.1, a.0);
        lemma_add_residue(a.0, a.1);
        lemma_mont_mul_residue(field_sub(a.1, a.0), field_add(a.0, a.1));
        lemma_mul_mod_noop(ay - ax, ax + ay, pp);
        assert((ay - ax) * (ax + ay) == ay * ay - ax * ax) by (nonlinear_arith);
    }
    crate::field::lemma_residue_injective(s.0, m.0);
    crate::field::lemma_residue_injective(s.1, m.1);
}

/// Conjugating a canonical element twice gives it back.
pub proof fn lemma_g2_conjugate_involution(a: (nat, nat))
    requires
        g2_canonical(a),
    ensures
        g2_conjugate(g2_conjugate(a)) == a,
{
    let pp = p_nat() as int;
    lemma_neg_residue(a.0);
    lemma_neg_residue(field_neg(a.0));
    vstd::arithmetic::div_mod::lemma_sub_mod_noop(0, 0 - a.0, pp);
    vstd::arithmetic::div_mod::lemma_small_mod(0, pp as nat);
    vstd::arithmetic::div_mod::lemma_small_mod(a.0, pp as nat);
}

impl Gfp2 {
    /// Both components are canonical.
    pub open spec fn is_canonical(&self) -> bool {
        g2_canonical(self@)
    }

    /// The `i` coefficient.
    pub fn x(&self) -> (r: &Gfp)
        ensures
            *r == self.0[0],
    {
        &self.0[0]
    }

    /// The constant coefficient.
    pub fn y(&self) -> (r: &Gfp)
        ensures
            *r == self.0[1],
    {
        &self.0[1]
    }

    /// Adds `b` in place.
    pub fn add_ref(&mut self, b: &Gfp2)
        ensures
            final(self)@ == g2_add(old(self)@, b@),
            old(self).is_canonical() && b.is_canonical() ==> final(self).is_canonical(),
    {
        proof {
            if self.is_canonical() && b.is_canonical() {
                lemma_g2_closed(self@, b@, 0);
            }
        }
        *self = Gfp2([gfp_add(&self.0[0], &b.0[0]), gfp_add(&self.0[1], &b.0[1])]);
    }

    /// Subtracts `b` in place.
    pub fn sub_ref(&mut self, b: &Gfp2)
        ensures
            final(self)@ == g2_sub(old(self)@, b@),
            old(self).is_canonical() && b.is_canonical() ==> final(self).is_canonical(),
    {
        proof {
            if self.is_canonical() && b.is_canonical() {
                lemma_g2_closed(self@, b@, 0);
            }
        }
        *self = Gfp2([gfp_sub(&self.0[0], &b.0[0]), gfp_sub(&self.0[1], &b.0[1])]);
    }

    /// Negates in place.
    pub fn neg(&mut self)
        ensures
            final(self)@ == g2_neg(old(self)@),
            old(self).is_canonical() ==> final(self).is_canonical(),
    {
        proof {
            if self.is_canonical() {
                lemma_g2_closed(self@, self@, 0);
            }
        }
        *self = Gfp2([gfp_neg(&self.0[0]), gfp_neg(&self.0[1])]);
    }

    /// Replaces the element by its conjugate, negating the `i` coefficient.
    pub fn conjugate(&mut self)
        ensures
            final(self)@ == g2_conjugate(old(self)@),
            old(self).is_canonical() ==> final(self).is_canonical(),
    {
        proof {
            if self.is_canonical() {
                lemma_g2_closed(self@, self@, 0);
            }
        }
        *self = Gfp2([gfp_neg(&self.0[0]), self.0[1]]);
    }

    /// Multiplies by `b` in place.
    pub fn mul_ref(&mut self, b: &Gfp2)
        ensures
            final(self)@ == g2_mul(old(self)@, b@),
            old(self).is_canonical() && b.is_canonical() ==> final(self).is_canonical()
                && g2_residue(final(self)@) == g2_product(g2_residue(old(self)@), g2_residue(b@)),
    {
        proof {
            if self.is_canonical() && b.is_canonical() {
                lemma_g2_mul(self@, b@);
            }
        }
        let x = self.0[0];
        let y = self.0[1];
        let v0 = gfp_mul(&y, &b.0[1]);
        let v1 = gfp_mul(&x, &b.0[0]);
        let t = gfp_mul(&gfp_add(&x, &y), &gfp_add(&b.0[0], &b.0[1]));
        let tx = gfp_sub(&gfp_sub(&t, &v0), &v1);
        let ty = gfp_sub(&v0, &v1);
        *self = Gfp2([tx, ty]);
    }

    /// Multiplies both components by a base-field scalar.
    pub fn mul_scalar(&mut self, b: &Gfp)
        ensures
            final(self)@ == g2_mul_scalar(old(self)@, b@),
            old(self).is_canonical() && b.is_canonical() ==> final(self).is_canonical(),
    {
        proof {
            if self.is_canonical() && b.is_canonical() {
                lemma_g2_closed(self@, self@, b@);
            }
        }
        *self = Gfp2([gfp_mul(&self.0[0], b), gfp_mul(&self.0[1], b)]);
    }

    /// Multiplies by ξ = i + 3.
    pub fn mul_xi(&mut self)
        ensures
            final(self)@ == g2_mul_xi(old(self)@),
            old(self).is_canonical() ==> final(self).is_canonical(),
    {
        proof {
            if self.is_canonical() {
                lemma_g2_closed(self@, self@, 0);
            }
        }
        let x = self.0[0];
        let y = self.0[1];
        let tx = gfp_add(&gfp_add(&gfp_add(&x, &x), &x), &y);
        let ty = gfp_sub(&gfp_add(&gfp_add(&y, &y), &y), &x);
        *self = Gfp2([tx, ty]);
    }

    /// Squares in place with the dedicated formula.
    pub fn square(&mut self)
        ensures
            final(self)@ == g2_square(old(self)@),
            old(self).is_canonical() ==> final(self)@ == g2_mul(old(self)@, old(self)@),
            old(self).is_canonical() ==> final(self).is_canonical(),
    {
        proof {
            if self.is_canonical() {
                lemma_g2_square(self@);
            }
        }
        let x = self.0[0];
        let y = self.0[1];
        let ty = gfp_mul(&gfp_sub(&y, &x), &gfp_add(&x, &y));
        let tx = gfp_mul(&gfp_add(&x, &x), &y);
        *self = Gfp2([tx, ty]);
    }

    /// The multiplicative inverse of a canonical element: the conjugate scaled by
    /// the inverse of the norm `x² + y²`. Zero maps to zero.
    pub fn invert(&mut self)
        requires
            old(self).is_canonical(),
        ensures
            final(self).is_canonical(),
            ({
                let (ax, ay) = g2_residue(old(self)@);
                let pp = p_nat() as int;
                let t = pow((ax * ax + ay * ay) % pp, (p_nat() - 2) as nat) % pp;
                g2_residue(final(self)@) == (((0 - ax) * t) % pp, (ay * t) % pp)
            }),
            final(self)@ == g2_inverse(old(self)@),
    {
        let ghost pp = p_nat() as int;
        let ghost (ax, ay) = g2_residue(self@);
        let x = self.0[0];
        let y = self.0[1];
        let xx = gfp_mul(&x, &x);
        let yy = gfp_mul(&y, &y);
        let mut inv = gfp_add(&xx, &yy);
        proof {
            lemma_mont_mul_residue(x@, x@);
            lemma_mont_mul_residue(y@, y@);
            lemma_add_residue(xx@, yy@);
            lemma_add_mod_noop(ax * ax, ay * ay, pp);
        }
        let ghost n = residue(inv@) as int;
        assert(n == (ax * ax + ay * ay) % pp);
        inv.invert();
        let nx = gfp_neg(&x);
        let ghost t = residue(inv@) as int;
        assert(t == pow((ax * ax + ay * ay) % pp, (p_nat() - 2) as nat) % pp);
        proof {
            lemma_neg_residue(x@);
            lemma_mont_mul_residue(nx@, inv@);
            lemma_mont_mul_residue(y@, inv@);
            vstd::arithmetic::div_mod::lemma_mod_twice((inv@ * crate::constants::rinv_nat()) as int, pp);
            vstd::arithmetic::div_mod::lemma_mod_twice((y@ * crate::constants::rinv_nat()) as int, pp);
            assert(t % pp == t);
            assert(ay % pp == ay);
            lemma_mul_mod_noop(0 - ax, t, pp);
            lemma_mul_mod_noop(ay, t, pp);
            assert(residue(mont_mul(nx@, inv@)) == ((0 - ax) * t) % pp);
            assert(residue(mont_mul(y@, inv@)) == (ay * t) % pp);
            crate::field::lemma_residue_inverse(mont_mul(nx@, inv@));
            crate::field::lemma_residue_inverse(mont_mul(y@, inv@));
        }
        *self = Gfp2([gfp_mul(&nx, &inv), gfp_mul(&y, &inv)]);
    }
}

} // verus!
