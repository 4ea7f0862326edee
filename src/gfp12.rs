//! The top extension: elements `x·ω + y` over the cubic extension, with ω² = τ.
use vstd::prelude::*;

use crate::gfp6::{
    g6_add, g6_canonical, g6_invert, g6_mul, g6_mul_tau, g6_neg, g6_sub, same_g6, Gfp6, G6,
};

verus! {

/// An element `x·ω + y` of the top extension, stored as `[x, y]`.
#[derive(Clone, Copy, Debug, Default, Eq)]
pub struct Gfp12(pub [Gfp6; 2]);

impl PartialEq for Gfp12 {
    fn eq(&self, o: &Gfp12) -> (r: bool) {
        self.0[0] == o.0[0] && self.0[1] == o.0[1]
    }
}

impl vstd::std_specs::cmp::PartialEqSpecImpl for Gfp12 {
    open spec fn obeys_eq_spec() -> bool {
        true
    }

    open spec fn eq_spec(&self, o: &Gfp12) -> bool {
        same_g6(self.0[0], o.0[0]) && same_g6(self.0[1], o.0[1])
    }
}

impl View for Gfp12 {
    type V = (G6, G6);

    open spec fn view(&self) -> (G6, G6) {
        (self.0[0]@, self.0[1]@)
    }
}

/// Both coefficients are canonical.
pub open spec fn g12_canonical(a: (G6, G6)) -> bool {
    g6_canonical(a.0) && g6_canonical(a.1)
}

/// Coefficient-wise sum.
pub open spec fn g12_add(a: (G6, G6), b: (G6, G6)) -> (G6, G6) {
    (g6_add(a.0, b.0), g6_add(a.1, b.1))
}

/// Coefficient-wise difference.
pub open spec fn g12_sub(a: (G6, G6), b: (G6, G6)) -> (G6, G6) {
    (g6_sub(a.0, b.0), g6_sub(a.1, b.1))
}

/// Coefficient-wise negation.
pub open spec fn g12_neg(a: (G6, G6)) -> (G6, G6) {
    (g6_neg(a.0), g6_neg(a.1))
}

/// The conjugate `-x·ω + y`.
pub open spec fn g12_conjugate(a: (G6, G6)) -> (G6, G6) {
    (g6_neg(a.0), a.1)
}

/// Both coefficients multiplied by one cubic element.
pub open spec fn g12_mul_scalar(a: (G6, G6), s: G6) -> (G6, G6) {
    (g6_mul(a.0, s), g6_mul(a.1, s))
}

/// Product with ω² = τ: `(x·y' + x'·y)·ω + (y·y' + τ·x·x')`.
pub open spec fn g12_mul(a: (G6, G6), b: (G6, G6)) -> (G6, G6) {
    (g6_add(g6_mul(a.0, b.1), g6_mul(b.0, a.1)), g6_add(g6_mul(a.1, b.1), g6_mul_tau(g6_mul(a.0, b.0))))
}

/// Dedicated squaring: with `v0 = x·y`, the result is
/// `2·v0·ω + ((x + y)(y + τ·x) - v0 - τ·v0)`.
pub open spec fn g12_square(a: (G6, G6)) -> (G6, G6) {
    let v0 = g6_mul(a.0, a.1);
    let t = g6_add(a.1, g6_mul_tau(a.0));
    (g6_add(v0, v0), g6_sub(g6_sub(g6_mul(g6_add(a.0, a.1), t), v0), g6_mul_tau(v0)))
}

/// The inverse through the norm `y² - τ·x²`: the conjugate divided by it.
pub open spec fn g12_invert(a: (G6, G6)) -> (G6, G6) {
    let t = g6_invert(g6_sub(g6_mul(a.1, a.1), g6_mul_tau(g6_mul(a.0, a.0))));
    (g6_mul(g6_neg(a.0), t), g6_mul(a.1, t))
}

impl Gfp12 {
    /// Both coefficients are canonical.
    pub open spec fn is_canonical(&self) -> bool {
        g12_canonical(self@)
    }

    /// Adds `b` in place.
    pub fn add(&mut self, b: &Gfp12)
        ensures
            final(self)@ == g12_add(old(self)@, b@),
            old(self).is_canonical() && b.is_canonical() ==> final(self).is_canonical(),
    {
        let mut x = self.0[0];
        let mut y = self.0[1];
        x.add(&b.0[0]);
        y.add(&b.0[1]);
        *self = Gfp12([x, y]);
    }

    /// Subtracts `b` in place.
    pub fn sub(&mut self, b: &Gfp12)
        ensures
            final(self)@ == g12_sub(old(self)@, b@),
            old(self).is_canonical() && b.is_canonical() ==> final(self).is_canonical(),
    {
        let mut x = self.0[0];
        let mut y = self.0[1];
        x.sub(&b.0[0]);
        y.sub(&b.0[1]);
        *self = Gfp12([x, y]);
    }

    /// Negates in place.
    pub fn neg(&mut self)
        ensures
            final(self)@ == g12_neg(old(self)@),
            old(self).is_canonical() ==> final(self).is_canonical(),
    {
        let mut x = self.0[0];
        let mut y = self.0[1];
        x.neg();
        y.neg();
        *self = Gfp12([x, y]);
    }

    /// Replaces the element by its conjugate, negating the ω coefficient.
    pub fn conjugate(&mut self)
        ensures
            final(self)@ == g12_conjugate(old(self)@),
            old(self).is_canonical() ==> final(self).is_canonical(),
    {
        let mut x = self.0[0];
        x.neg();
        *self = Gfp12([x, self.0[1]]);
    }

    /// Multiplies both coefficients by a cubic element.
    pub fn mul_scalar(&mut self, b: &Gfp6)
        ensures
            final(self)@ == g12_mul_scalar(old(self)@, b@),
            old(self).is_canonical() && b.is_canonical() ==> final(self).is_canonical(),
    {
        let mut x = self.0[0];
        let mut y = self.0[1];
        x.mul(b);
        y.mul(b);
        *self = Gfp12([x, y]);
    }

    /// Multiplies by `b` in place.
    pub fn mul(&mut self, b: &Gfp12)
        ensures
            final(self)@ == g12_mul(old(self)@, b@),
            old(self).is_canonical() && b.is_canonical() ==> final(self).is_canonical(),
    {
        let mut tx = self.0[0];
        tx.mul(&b.0[1]);
        let mut t = b.0[0];
        t.mul(&self.0[1]);
        tx.add(&t);
        let mut ty = self.0[1];
        ty.mul(&b.0[1]);
        let mut t = self.0[0];
        t.mul(&b.0[0]);
        t.mul_tau();
        ty.add(&t);
        *self = Gfp12([tx, ty]);
    }

    /// Squares in place with the dedicated formula.
    pub fn square(&mut self)
        ensures
            final(self)@ == g12_square(old(self)@),
            old(self).is_canonical() ==> final(self)@ == g12_mul(old(self)@, old(self)@)
                && final(self).is_canonical(),
    {
        proof {
            if self.is_canonical() {
                crate::laws::lemma_g12_square(self@);
            }
        }
        let x = self.0[0];
        let y = self.0[1];
        let mut v0 = x;
        v0.mul(&y);
        let mut t = x;
        t.mul_tau();
        let mut ty = y;
        ty.add(&t);
        let mut s = x;
        s.add(&y);
        s.mul(&ty);
        s.sub(&v0);
        let mut tv = v0;
        tv.mul_tau();
        s.sub(&tv);
        let mut tx = v0;
        tx.add(&v0);
        *self = Gfp12([tx, s]);
    }

    /// The multiplicative inverse of a canonical element. Zero maps to zero.
    pub fn invert(&mut self)
        requires
            old(self).is_canonical(),
        ensures
            final(self)@ == g12_invert(old(self)@),
            final(self).is_canonical(),
    {
        let mut t1 = self.0[0];
        t1.square();
        t1.mul_tau();
        let mut t2 = self.0[1];
        t2.square();
        t2.sub(&t1);
        t2.invert();
        let mut x = self.0[0];
        x.neg();
        x.mul(&t2);
        let mut y = self.0[1];
        y.mul(&t2);
        *self = Gfp12([x, y]);
    }
}

} // verus!
