//! The cubic extension: elements `x·τ² + y·τ + z` over the quadratic extension,
//! with τ³ = ξ.
use vstd::prelude::*;

use crate::gfp::Gfp;
use crate::gfp2::{
    g2_add, g2_canonical, g2_inverse, lemma_g2_closed, lemma_g2_square, same_g2, g2_mul, g2_mul_scalar, g2_mul_xi, g2_neg, g2_square, g2_sub,
    Gfp2,
};

verus! {

/// An element `x·τ² + y·τ + z` of the cubic extension, stored as `[x, y, z]`.
#[derive(Clone, Copy, Debug, Default, Eq)]
pub struct Gfp6(pub [Gfp2; 3]);

/// Two cubic elements hold the same limbs.
pub open spec fn same_g6(a: Gfp6, b: Gfp6) -> bool {
    same_g2(a.0[0], b.0[0]) && same_g2(a.0[1], b.0[1]) && same_g2(a.0[2], b.0[2])
}

impl PartialEq for Gfp6 {
    fn eq(&self, o: &Gfp6) -> (r: bool) {
        self.0[0] == o.0[0] && self.0[1] == o.0[1] && self.0[2] == o.0[2]
    }
}

impl vstd::std_specs::cmp::PartialEqSpecImpl for Gfp6 {
    open spec fn obeys_eq_spec() -> bool {
        true
    }

    open spec fn eq_spec(&self, o: &Gfp6) -> bool {
        same_g6(*self, *o)
    }
}

/// The view of a cubic element: the views of its three coefficients.
pub type G6 = ((nat, nat), (nat, nat), (nat, nat));

impl View for Gfp6 {
    type V = G6;

    open spec fn view(&self) -> G6 {
        (self.0[0]@, self.0[1]@, self.0[2]@)
    }
}

/// All three coefficients are canonical.
pub open spec fn g6_canonical(a: G6) -> bool {
    g2_canonical(a.0) && g2_canonical(a.1) && g2_canonical(a.2)
}

/// Coefficient-wise sum.
pub open spec fn g6_add(a: G6, b: G6) -> G6 {
    (g2_add(a.0, b.0), g2_add(a.1, b.1), g2_add(a.2, b.2))
}

/// Coefficient-wise difference.
pub open spec fn g6_sub(a: G6, b: G6) -> G6 {
    (g2_sub(a.0, b.0), g2_sub(a.1, b.1), g2_sub(a.2, b.2))
}

/// Coefficient-wise negation.
pub open spec fn g6_neg(a: G6) -> G6 {
    (g2_neg(a.0), g2_neg(a.1), g2_neg(a.2))
}

/// Product with τ: `y·τ² + z·τ + ξ·x`.
pub open spec fn g6_mul_tau(a: G6) -> G6 {
    (a.1, a.2, g2_mul_xi(a.0))
}

/// Every coefficient multiplied by one quadratic element.
pub open spec fn g6_mul_scalar(a: G6, s: (nat, nat)) -> G6 {
    (g2_mul(a.0, s), g2_mul(a.1, s), g2_mul(a.2, s))
}

/// Every coefficient multiplied by one base-field element.
pub open spec fn g6_mul_gfp(a: G6, s: nat) -> G6 {
    (g2_mul_scalar(a.0, s), g2_mul_scalar(a.1, s), g2_mul_scalar(a.2, s))
}

/// Karatsuba product over the quadratic extension, folding τ³ through ξ.
pub open spec fn g6_mul(a: G6, b: G6) -> G6 {
    let v0 = g2_mul(a.2, b.2);
    let v1 = g2_mul(a.1, b.1);
    let v2 = g2_mul(a.0, b.0);
    let tz = g2_add(
        g2_mul_xi(g2_sub(g2_sub(g2_mul(g2_add(a.0, a.1), g2_add(b.0, b.1)), v1), v2)),
        v0,
    );
    let ty = g2_add(
        g2_sub(g2_sub(g2_mul(g2_add(a.1, a.2), g2_add(b.1, b.2)), v0), v1),
        g2_mul_xi(v2),
    );
    let tx = g2_sub(g2_add(g2_sub(g2_mul(g2_add(a.0, a.2), g2_add(b.0, b.2)), v0), v1), v2);
    (tx, ty, tz)
}

/// Dedicated squaring: the Karatsuba product of the element with itself, with
/// each quadratic product of a coefficient by itself taken as a square.
pub open spec fn g6_square(a: G6) -> G6 {
    let v0 = g2_square(a.2);
    let v1 = g2_square(a.1);
    let v2 = g2_square(a.0);
    let cz = g2_add(g2_mul_xi(g2_sub(g2_sub(g2_square(g2_add(a.0, a.1)), v1), v2)), v0);
    let cy = g2_add(g2_sub(g2_sub(g2_square(g2_add(a.1, a.2)), v0), v1), g2_mul_xi(v2));
    let cx = g2_sub(g2_add(g2_sub(g2_square(g2_add(a.0, a.2)), v0), v1), v2);
    (cx, cy, cz)
}

/// Squaring a canonical element gives the same value as multiplying it by itself.
pub proof fn lemma_g6_square(a: G6)
    requires
        g6_canonical(a),
    ensures
        g6_square(a) == g6_mul(a, a),
{
    lemma_g2_square(a.0);
    lemma_g2_square(a.1);
    lemma_g2_square(a.2);
    lemma_g2_closed(a.0, a.1, 0);
    lemma_g2_closed(a.1, a.2, 0);
    lemma_g2_closed(a.0, a.2, 0);
    lemma_g2_square(g2_add(a.0, a.1));
    lemma_g2_square(g2_add(a.1, a.2));
    lemma_g2_square(g2_add(a.0, a.2));
}

/// The inverse through the norm: with `A = z² - ξxy`, `B = ξx² - yz`,
/// `C = y² - xz` and `F = ξCy + Az + ξBx`, the result is `(C, B, A) / F`.
pub open spec fn g6_invert(a: G6) -> G6 {
    let ca = g2_sub(g2_square(a.2), g2_mul_xi(g2_mul(a.0, a.1)));
    let cb = g2_sub(g2_mul_xi(g2_square(a.0)), g2_mul(a.1, a.2));
    let cc = g2_sub(g2_square(a.1), g2_mul(a.0, a.2));
    let f = g2_add(
        g2_add(g2_mul_xi(g2_mul(cc, a.1)), g2_mul(ca, a.2)),
        g2_mul_xi(g2_mul(cb, a.0)),
    );
    let fi = g2_inverse(f);
    (g2_mul(cc, fi), g2_mul(cb, fi), g2_mul(ca, fi))
}

fn add2(a: &Gfp2, b: &Gfp2) -> (r: Gfp2)
    ensures
        r@ == g2_add(a@, b@),
        a.is_canonical() && b.is_canonical() ==> r.is_canonical(),
{
    let mut r = *a;
    r.add_ref(b);
    r
}

fn sub2(a: &Gfp2, b: &Gfp2) -> (r: Gfp2)
    ensures
        r@ == g2_sub(a@, b@),
        a.is_canonical() && b.is_canonical() ==> r.is_canonical(),
{
    let mut r = *a;
    r.sub_ref(b);
    r
}

fn mul2(a: &Gfp2, b: &Gfp2) -> (r: Gfp2)
    ensures
        r@ == g2_mul(a@, b@),
        a.is_canonical() && b.is_canonical() ==> r.is_canonical(),
{
    let mut r = *a;
    r.mul_ref(b);
    r
}

fn xi2(a: &Gfp2) -> (r: Gfp2)
    ensures
        r@ == g2_mul_xi(a@),
        a.is_canonical() ==> r.is_canonical(),
{
    let mut r = *a;
    r.mul_xi();
    r
}

fn square2(a: &Gfp2) -> (r: Gfp2)
    ensures
        r@ == g2_square(a@),
        a.is_canonical() ==> r.is_canonical(),
{
    let mut r = *a;
    r.square();
    r
}

fn neg2(a: &Gfp2) -> (r: Gfp2)
    ensures
        r@ == g2_neg(a@),
        a.is_canonical() ==> r.is_canonical(),
{
    let mut r = *a;
    r.neg();
    r
}

impl Gfp6 {
    /// All three coefficients are canonical.
    pub open spec fn is_canonical(&self) -> bool {
        g6_canonical(self@)
    }

    /// Adds `b` in place.
    pub fn add(&mut self, b: &Gfp6)
        ensures
            final(self)@ == g6_add(old(self)@, b@),
            old(self).is_canonical() && b.is_canonical() ==> final(self).is_canonical(),
    {
        *self = Gfp6(
            [add2(&self.0[0], &b.0[0]), add2(&self.0[1], &b.0[1]), add2(&self.0[2], &b.0[2])],
        );
    }

    /// Subtracts `b` in place.
    pub fn sub(&mut self, b: &Gfp6)
        ensures
            final(self)@ == g6_sub(old(self)@, b@),
            old(self).is_canonical() && b.is_canonical() ==> final(self).is_canonical(),
    {
        *self = Gfp6(
            [sub2(&self.0[0], &b.0[0]), sub2(&self.0[1], &b.0[1]), sub2(&self.0[2], &b.0[2])],
        );
    }

    /// Negates in place.
    pub fn neg(&mut self)
        ensures
            final(self)@ == g6_neg(old(self)@),
            old(self).is_canonical() ==> final(self).is_canonical(),
    {
        *self = Gfp6([neg2(&self.0[0]), neg2(&self.0[1]), neg2(&self.0[2])]);
    }

    /// Multiplies by τ in place.
    pub fn mul_tau(&mut self)
        ensures
            final(self)@ == g6_mul_tau(old(self)@),
            old(self).is_canonical() ==> final(self).is_canonical(),
    {
        *self = Gfp6([self.0[1], self.0[2], xi2(&self.0[0])]);
    }

    /// Multiplies every coefficient by a quadratic element.
    pub fn mul_scalar(&mut self, b: &Gfp2)
        ensures
            final(self)@ == g6_mul_scalar(old(self)@, b@),
            old(self).is_canonical() && b.is_canonical() ==> final(self).is_canonical(),
    {
        *self = Gfp6([mul2(&self.0[0], b), mul2(&self.0[1], b), mul2(&self.0[2], b)]);
    }

    /// Multiplies every coefficient by a base-field element.
    pub fn mul_gfp(&mut self, b: &Gfp)
        ensures
            final(self)@ == g6_mul_gfp(old(self)@, b@),
            old(self).is_canonical() && b.is_canonical() ==> final(self).is_canonical(),
    {
        let mut x = self.0[0];
        let mut y = self.0[1];
        let mut z = self.0[2];
        x.mul_scalar(b);
        y.mul_scalar(b);
        z.mul_scalar(b);
        *self = Gfp6([x, y, z]);
    }

    /// Multiplies by `b` in place.
    pub fn mul(&mut self, b: &Gfp6)
        ensures
            final(self)@ == g6_mul(old(self)@, b@),
            old(self).is_canonical() && b.is_canonical() ==> final(self).is_canonical(),
    {
        let ax = self.0[0];
        let ay = self.0[1];
        let az = self.0[2];
        let v0 = mul2(&az, &b.0[2]);
        let v1 = mul2(&ay, &b.0[1]);
        let v2 = mul2(&ax, &b.0[0]);
        let tz = mul2(&add2(&ax, &ay), &add2(&b.0[0], &b.0[1]));
        let tz = add2(&xi2(&sub2(&sub2(&tz, &v1), &v2)), &v0);
        let ty = mul2(&add2(&ay, &az), &add2(&b.0[1], &b.0[2]));
        let ty = add2(&sub2(&sub2(&ty, &v0), &v1), &xi2(&v2));
        let tx = mul2(&add2(&ax, &az), &add2(&b.0[0], &b.0[2]));
        let tx = sub2(&add2(&sub2(&tx, &v0), &v1), &v2);
        *self = Gfp6([tx, ty, tz]);
    }

    /// Squares in place with the dedicated formula.
    pub fn square(&mut self)
        ensures
            final(self)@ == g6_square(old(self)@),
            old(self).is_canonical() ==> final(self)@ == g6_mul(old(self)@, old(self)@)
                && final(self).is_canonical(),
    {
        proof {
            if self.is_canonical() {
                lemma_g6_square(self@);
                crate::laws::lemma_g6_mul_is_polynomial_product(self@, self@);
            }
        }
        let ax = self.0[0];
        let ay = self.0[1];
        let az = self.0[2];
        let v0 = square2(&az);
        let v1 = square2(&ay);
        let v2 = square2(&ax);
        let cz = square2(&add2(&ax, &ay));
        let cz = add2(&xi2(&sub2(&sub2(&cz, &v1), &v2)), &v0);
        let cy = square2(&add2(&ay, &az));
        let cy = add2(&sub2(&sub2(&cy, &v0), &v1), &xi2(&v2));
        let cx = square2(&add2(&ax, &az));
        let cx = sub2(&add2(&sub2(&cx, &v0), &v1), &v2);
        *self = Gfp6([cx, cy, cz]);
    }

    /// The multiplicative inverse of a canonical element. Zero maps to zero.
    pub fn invert(&mut self)
        requires
            old(self).is_canonical(),
        ensures
            final(self)@ == g6_invert(old(self)@),
            final(self).is_canonical(),
    {
        let ax = self.0[0];
        let ay = self.0[1];
        let az = self.0[2];
        let ca = sub2(&square2(&az), &xi2(&mul2(&ax, &ay)));
        let cb = sub2(&xi2(&square2(&ax)), &mul2(&ay, &az));
        let cc = sub2(&square2(&ay), &mul2(&ax, &az));
        let f = add2(&add2(&xi2(&mul2(&cc, &ay)), &mul2(&ca, &az)), &xi2(&mul2(&cb, &ax)));
        let mut fi = f;
        fi.invert();
        *self = Gfp6([mul2(&cc, &fi), mul2(&cb, &fi), mul2(&ca, &fi)]);
    }
}

} // verus!
