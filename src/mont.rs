//! Montgomery arithmetic for a small modulus with radix 2^32, and the extended
//! Euclidean algorithm that finds its constants.
use vstd::prelude::*;

use vstd::arithmetic::div_mod::{lemma_fundamental_div_mod, lemma_fundamental_div_mod_converse};

verus! {

/// Extended Euclid as a mathematical function: `(g, x, y)` with `a·x + b·y = g`.
pub open spec fn egcd_spec(a: int, b: int) -> (int, int, int)
    decreases a,
{
    if a <= 0 {
        (b, 0, 1)
    } else {
        let (g, x, y) = egcd_spec(b % a, a);
        (g, y - (b / a) * x, x)
    }
}

/// Absolute value.
pub open spec fn abs(x: int) -> int {
    if x < 0 {
        -x
    } else {
        x
    }
}

/// What extended Euclid returns for `0 <= a < b`: a positive common divisor
/// that is a combination of `a` and `b` (hence their greatest common divisor),
/// with coefficients bounded by `b` and `a` over it.
pub proof fn lemma_egcd(a: int, b: int)
    requires
        0 <= a < b,
    ensures
        ({
            let (g, x, y) = egcd_spec(a, b);
            &&& g >= 1
            &&& a % g == 0
            &&& b % g == 0
            &&& a * x + b * y == g
            &&& a == 0 ==> x == 0 && y == 1 && g == b
            &&& a >= 1 ==> abs(x) * g <= b && abs(y) * g <= a
        }),
    decreases a,
{
    if a == 0 {
        lemma_fundamental_div_mod_converse(b, b, 1, 0);
        lemma_fundamental_div_mod_converse(0, b, 0, 0);
    } else {
        let r = b % a;
        let q = b / a;
        lemma_fundamental_div_mod(b, a);
        lemma_egcd(r, a);
        let (g, x1, y1) = egcd_spec(r, a);
        let x = y1 - q * x1;
        let y = x1;
        assert(egcd_spec(a, b) == (g, x, y));
        lemma_fundamental_div_mod(r, g);
        lemma_fundamental_div_mod(a, g);
        let kr = r / g;
        let ka = a / g;
        assert(b == g * (q * ka + kr)) by (nonlinear_arith)
            requires
                b == a * q + r,
                r == g * kr + r % g,
                a == g * ka + a % g,
                r % g == 0,
                a % g == 0,
        ;
        lemma_fundamental_div_mod_converse(b, g, q * ka + kr, 0);
        assert(a * x + b * y == g) by (nonlinear_arith)
            requires
                r * x1 + a * y1 == g,
                b == a * q + r,
                x == y1 - q * x1,
                y == x1,
        ;
        if r == 0 {
            assert(x1 == 0 && y1 == 1 && g == a);
            assert(abs(y) == 0);
            assert(abs(y) * g <= a) by (nonlinear_arith)
                requires
                    abs(y) == 0,
                    a >= 1,
            ;
            assert(abs(x) * g <= b) by (nonlinear_arith)
                requires
                    x == 1,
                    g == a,
                    a < b,
            ;
        } else {
            assert(abs(x) * g <= b) by (nonlinear_arith)
                requires
                    abs(y1) * g <= r,
                    abs(x1) * g <= a,
                    x == y1 - q * x1,
                    b == a * q + r,
                    q >= 0,
                    g >= 1,
                    abs(x) == (if x < 0 { -x } else { x }),
                    abs(y1) == (if y1 < 0 { -y1 } else { y1 }),
                    abs(x1) == (if x1 < 0 { -x1 } else { x1 }),
            ;
            assert(abs(y) * g <= a);
        }
    }
}

/// Extended Euclidean algorithm on `0 <= a < b`.
pub fn egcd(a: i64, b: i64) -> (r: (i64, i64, i64))
    requires
        0 <= a < b,
    ensures
        (r.0 as int, r.1 as int, r.2 as int) == egcd_spec(a as int, b as int),
        r.0 >= 1,
        a % r.0 == 0,
        b % r.0 == 0,
        a * r.1 + b * r.2 == r.0,
    decreases a,
{
    proof {
        lemma_egcd(a as int, b as int);
    }
    if a == 0 {
        (b, 0, 1)
    } else {
        let (g, x, y) = egcd(b % a, a);
        proof {
            lemma_egcd((b % a) as int, a as int);
            lemma_fundamental_div_mod(b as int, a as int);
            let q = b / a;
            if b % a != 0 {
                assert(abs(q * x) <= b) by (nonlinear_arith)
                    requires
                        abs(x as int) * g <= a,
                        g >= 1,
                        q * a <= b,
                        q >= 0,
                        abs(x as int) == (if x < 0 { -(x as int) } else { x as int }),
                        abs(q * x) == (if q * x < 0 { -(q * x) } else { q * x }),
                ;
            } else {
                assert(x == 0);
            }
            let (g2, x2, y2) = egcd_spec(a as int, b as int);
            assert(x2 == y - q * x);
            assert(abs(x2) <= b) by (nonlinear_arith)
                requires
                    abs(x2) * g2 <= b,
                    g2 >= 1,
                    abs(x2) >= 0,
            ;
        }
        (g, y - (b / a) * x, x)
    }
}

/// The radix 2^32 of this arithmetic.
pub const MONT_R: u64 = 0x1_0000_0000;

/// Constants of Montgomery arithmetic modulo `n` with radix `r`.
pub struct Mont {
    pub rp1: u64,
    pub np1: u64,
    pub r: u64,
    pub n: u64,
    pub bits: usize,
}

/// `n` shares no divisor above one with 2^32.
pub open spec fn coprime_to_radix(n: int) -> bool {
    forall|d: int| 1 < d ==> !(n % d == 0 && #[trigger] (0x1_0000_0000int % d) == 0)
}

impl Mont {
    /// Constants for modulus `n`, radix 2^32, before `precompute`.
    pub fn new(n: u64) -> (m: Mont)
        ensures
            m.r == MONT_R,
            m.n == n,
            m.rp1 == 0,
            m.np1 == 0,
            m.bits == 32,
    {
        Mont { r: MONT_R, n, rp1: 0, np1: 0, bits: 32 }
    }

    /// Fills in the magnitudes of the Bézout coefficients of `n` and `r`:
    /// `np1` for `n` and `rp1` for `r`.
    pub fn precompute(&mut self)
        requires
            old(self).r == MONT_R,
            old(self).n < MONT_R,
            coprime_to_radix(old(self).n as int),
        ensures
            ({
                let (g, x, y) = egcd_spec(old(self).n as int, MONT_R as int);
                &&& g == 1
                &&& final(self).np1 == abs(x)
                &&& final(self).rp1 == abs(y)
            }),
            final(self).n == old(self).n,
            final(self).r == old(self).r,
            final(self).bits == old(self).bits,
    {
        let r: u64 = self.r;
        let n: u64 = self.n;
        let (gcd, np, rp) = egcd(n as i64, r as i64);
        proof {
            lemma_egcd(n as int, r as int);
            if gcd > 1 {
                assert(!((n as int) % (gcd as int) == 0 && (0x1_0000_0000int % (gcd as int)) == 0));
            }
            if n > 0 {
                assert(abs(np as int) <= r && abs(rp as int) <= n) by (nonlinear_arith)
                    requires
                        abs(np as int) * gcd <= r,
                        abs(rp as int) * gcd <= n,
                        gcd >= 1,
                ;
            }
        }
        let rp1_temp: u64 = if rp < 0 {
            (-rp) as u64
        } else {
            rp as u64
        };
        self.rp1 = rp1_temp;
        let np1_temp: u64 = if np < 0 {
            (-np) as u64
        } else {
            np as u64
        };
        self.np1 = np1_temp;
    }
}

/// Montgomery reduction: `(t + m·n) / 2^32` with `m = t·np1 mod 2^32`.
pub fn reduce(np1: u64, n: u64, t: u64) -> (r: u128)
    ensures
        r == (t + ((t * np1) % 0x1_0000_0000) * n) / 0x1_0000_0000,
{
    proof {
        assert(t * np1 <= 0xFFFF_FFFF_FFFF_FFFF * 0xFFFF_FFFF_FFFF_FFFF) by (nonlinear_arith)
            requires
                t <= 0xFFFF_FFFF_FFFF_FFFF,
                np1 <= 0xFFFF_FFFF_FFFF_FFFF,
        ;
    }
    let m: u128 = ((t as u128) * (np1 as u128)) % 0x1_0000_0000;
    proof {
        assert(m * n <= 0xFFFF_FFFF * 0xFFFF_FFFF_FFFF_FFFF) by (nonlinear_arith)
            requires
                m < 0x1_0000_0000,
                n <= 0xFFFF_FFFF_FFFF_FFFF,
        ;
    }
    ((t as u128) + m * (n as u128)) / 0x1_0000_0000
}

/// Lifts `x` into Montgomery form: `x·r mod n`.
pub fn to_mont(r: u64, n: u64, x: u64) -> (res: u64)
    requires
        n > 0,
    ensures
        res == (x * r) % (n as int),
{
    proof {
        assert(x * r <= 0xFFFF_FFFF_FFFF_FFFF * 0xFFFF_FFFF_FFFF_FFFF) by (nonlinear_arith)
            requires
                x <= 0xFFFF_FFFF_FFFF_FFFF,
                r <= 0xFFFF_FFFF_FFFF_FFFF,
        ;
    }
    (((x as u128) * (r as u128)) % (n as u128)) as u64
}

/// Montgomery product without the final subtraction:
/// `(x·y + (x·y·np1)·n) / 2^32`, the factor `x·y·np1` taken whole.
pub fn multi(np1: u64, n: u64, x: u64, y: u64) -> (res: u128)
    requires
        x * y + x * y * np1 * n <= u128::MAX,
    ensures
        res == (x * y + x * y * np1 * n) / 0x1_0000_0000,
{
    proof {
        assert(x * y <= x * y * np1 * n || np1 == 0 || n == 0) by (nonlinear_arith)
            requires
                np1 >= 0,
                n >= 0,
                x * y >= 0,
        ;
    }
    let xy: u128 = (x as u128) * (y as u128);
    proof {
        assert(xy * np1 <= x * y * np1 * n || n == 0) by (nonlinear_arith)
            requires
                xy == x * y,
                n >= 0,
                np1 >= 0,
                xy >= 0,
        ;
    }
    if np1 == 0 || n == 0 {
        assert(x * y * np1 * n == 0) by (nonlinear_arith)
            requires
                np1 == 0 || n == 0,
        ;
        return xy / 0x1_0000_0000;
    }
    let m: u128 = xy * (np1 as u128);
    let res: u128 = xy + m * (n as u128);
    res / 0x1_0000_0000
}

} // verus!
