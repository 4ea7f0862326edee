//! Elements of the base field in Montgomery form, their scalar kernels and the
//! batched primitives that apply a kernel slot by slot over slices.
use vstd::prelude::*;

use vstd::arithmetic::div_mod::{lemma_fundamental_div_mod_converse, lemma_small_mod};

use crate::constants::{lemma_constants, p_nat, NP, MODULUS, R2, R3, RN1, RP, P_MINUS2, P_PLUS1_OVER4};
use crate::field::{
    field_add, field_neg, field_sub, lemma_mont_mul_residue, lemma_mul_pows, mont_mul, redc,
    reduce_once, residue,
};
use vstd::arithmetic::power::{lemma_pow_adds, lemma_pow_multiplies, pow};
use crate::limbs::{add4, high_half, low_half, mul_wide, r_spec, sub4, val4, val8, w64};

verus! {

/// A base-field element: four little-endian 64-bit limbs holding `x * 2^256 mod p`.
#[derive(Clone, Copy, Debug, Default, Eq)]
pub struct Gfp(pub [u64; 4]);

impl View for Gfp {
    type V = nat;

    open spec fn view(&self) -> nat {
        val4(self.0)
    }
}

/// Two elements hold the same four limbs.
pub open spec fn same_limbs(a: Gfp, b: Gfp) -> bool {
    a.0[0] == b.0[0] && a.0[1] == b.0[1] && a.0[2] == b.0[2] && a.0[3] == b.0[3]
}

impl PartialEq for Gfp {
    fn eq(&self, o: &Gfp) -> (r: bool) {
        self.0[0] == o.0[0] && self.0[1] == o.0[1] && self.0[2] == o.0[2] && self.0[3] == o.0[3]
    }
}

impl vstd::std_specs::cmp::PartialEqSpecImpl for Gfp {
    open spec fn obeys_eq_spec() -> bool {
        true
    }

    open spec fn eq_spec(&self, o: &Gfp) -> bool {
        same_limbs(*self, *o)
    }
}

impl Gfp {
    /// The stored value is a canonical residue, below p.
    pub open spec fn is_canonical(&self) -> bool {
        self@ < p_nat()
    }

    /// The Montgomery form of zero.
    pub fn zero() -> (r: Gfp)
        ensures
            r@ == 0,
    {
        Gfp([0, 0, 0, 0])
    }

    /// The Montgomery form of one, `2^256 mod p`.
    pub fn one() -> (r: Gfp)
        ensures
            r@ == r_spec() % p_nat(),
    {
        proof {
            lemma_constants();
        }
        Gfp(RP)
    }
}

/// Selects between a 257-bit value and that value less p: the value less p,
/// kept to 256 bits, unless there is no carry and the value is already below p.
fn reduce_carry(lo: &[u64; 4], carry: u64) -> (r: [u64; 4])
    requires
        carry <= 1,
    ensures
        val4(r) == reduce_once((val4(*lo) + r_spec() * carry) as nat),
{
    proof {
        lemma_constants();
    }
    let (d, borrow) = sub4(lo, &MODULUS, 0);
    if carry == 0 && borrow == 1 {
        *lo
    } else {
        proof {
            let v = val4(*lo) + r_spec() * carry;
            crate::limbs::lemma_val4_bound(d);
            lemma_fundamental_div_mod_converse(
                v - p_nat(),
                r_spec() as int,
                carry - borrow,
                val4(d) as int,
            );
        }
        d
    }
}

/// Montgomery product of two elements, as the batched kernels compute it per slot.
pub fn gfp_mul(a: &Gfp, b: &Gfp) -> (r: Gfp)
    ensures
        r@ == mont_mul(a@, b@),
{
    proof {
        lemma_constants();
    }
    let t = mul_wide(&a.0, &b.0);
    let t_low = low_half(&t);
    let mm = mul_wide(&t_low, &NP);
    let m = low_half(&mm);
    let mp = mul_wide(&m, &MODULUS);
    let (lo, c0) = add4(&t_low, &low_half(&mp), 0);
    let (hi, c1) = add4(&high_half(&t), &high_half(&mp), c0);
    proof {
        let tv = val8(t) as int;
        let sv = tv + val8(mp);
        let rr = r_spec() as int;
        vstd::arithmetic::div_mod::lemma_fundamental_div_mod(tv, rr);
        vstd::arithmetic::div_mod::lemma_fundamental_div_mod(val8(mp) as int, rr);
        assert(sv == val4(lo) + rr * (val4(hi) + rr * c1));
        crate::limbs::lemma_val4_bound(lo);
        lemma_fundamental_div_mod_converse(sv, rr, val4(hi) + rr * c1, val4(lo) as int);
        assert(redc(a@ * b@) == val4(hi) + rr * c1);
    }
    Gfp(reduce_carry(&hi, c1))
}

/// Modular sum of two elements.
pub fn gfp_add(a: &Gfp, b: &Gfp) -> (r: Gfp)
    ensures
        r@ == field_add(a@, b@),
{
    let (s, c) = add4(&a.0, &b.0, 0);
    Gfp(reduce_carry(&s, c))
}

/// `p - b`, kept to 256 bits.
fn p_minus(b: &[u64; 4]) -> (r: [u64; 4])
    ensures
        val4(r) == (p_nat() - val4(*b)) % (r_spec() as int),
{
    proof {
        lemma_constants();
    }
    let (d, borrow) = sub4(&MODULUS, b, 0);
    proof {
        crate::limbs::lemma_val4_bound(d);
        lemma_fundamental_div_mod_converse(
            p_nat() - val4(*b),
            r_spec() as int,
            -borrow,
            val4(d) as int,
        );
    }
    d
}

/// Modular difference of two elements.
pub fn gfp_sub(a: &Gfp, b: &Gfp) -> (r: Gfp)
    ensures
        r@ == field_sub(a@, b@),
{
    let d = p_minus(&b.0);
    let (s, c) = add4(&a.0, &d, 0);
    Gfp(reduce_carry(&s, c))
}

/// Modular negation of an element.
pub fn gfp_neg(a: &Gfp) -> (r: Gfp)
    ensures
        r@ == field_neg(a@),
{
    let d = p_minus(&a.0);
    Gfp(reduce_carry(&d, 0))
}

/// One conditional subtraction of p.
pub fn gfp_normalize(a: &Gfp) -> (r: Gfp)
    ensures
        r@ == reduce_once(a@),
{
    Gfp(reduce_carry(&a.0, 0))
}

/// Multiplies each slot of `dst` by the same slot of `src`, in Montgomery form.
pub fn mul_mov(dst: &mut [Gfp], src: &[Gfp])
    requires
        old(dst)@.len() == src@.len(),
    ensures
        final(dst)@.len() == old(dst)@.len(),
        forall|i: int|
            0 <= i < old(dst)@.len() ==> (#[trigger] final(dst)@[i])@ == mont_mul(old(dst)@[i]@, src@[i]@),
{
    let n = dst.len();
    let mut i: usize = 0;
    while i < n
        invariant
            n == dst@.len(),
            n == old(dst)@.len(),
            n == src@.len(),
            i <= n,
            forall|k: int| 0 <= k < i ==> (#[trigger] dst@[k])@ == mont_mul(old(dst)@[k]@, src@[k]@),
            forall|k: int| i <= k < n ==> #[trigger] dst@[k] == old(dst)@[k],
        decreases n - i,
    {
        let r = gfp_mul(&dst[i], &src[i]);
        dst[i] = r;
        i += 1;
    }
}

/// Squares each slot of `dst`, in Montgomery form.
pub fn square(dst: &mut [Gfp])
    ensures
        final(dst)@.len() == old(dst)@.len(),
        forall|i: int|
            0 <= i < old(dst)@.len() ==> (#[trigger] final(dst)@[i])@ == mont_mul(old(dst)@[i]@, old(dst)@[i]@),
{
    let n = dst.len();
    let mut i: usize = 0;
    while i < n
        invariant
            n == dst@.len(),
            n == old(dst)@.len(),
            i <= n,
            forall|k: int| 0 <= k < i ==> (#[trigger] dst@[k])@ == mont_mul(old(dst)@[k]@, old(dst)@[k]@),
            forall|k: int| i <= k < n ==> #[trigger] dst@[k] == old(dst)@[k],
        decreases n - i,
    {
        let r = gfp_mul(&dst[i], &dst[i]);
        dst[i] = r;
        i += 1;
    }
}

/// Multiplies each slot of `dst` by one scalar, in Montgomery form.
pub fn mul_mov_scalar(dst: &mut [Gfp], src: &Gfp)
    ensures
        final(dst)@.len() == old(dst)@.len(),
        forall|i: int|
            0 <= i < old(dst)@.len() ==> (#[trigger] final(dst)@[i])@ == mont_mul(old(dst)@[i]@, src@),
{
    let n = dst.len();
    let mut i: usize = 0;
    while i < n
        invariant
            n == dst@.len(),
            n == old(dst)@.len(),
            i <= n,
            forall|k: int| 0 <= k < i ==> (#[trigger] dst@[k])@ == mont_mul(old(dst)@[k]@, src@),
            forall|k: int| i <= k < n ==> #[trigger] dst@[k] == old(dst)@[k],
        decreases n - i,
    {
        let r = gfp_mul(&dst[i], src);
        dst[i] = r;
        i += 1;
    }
}

/// Adds the same slot of `src` to each slot of `dst`.
pub fn add_mov(dst: &mut [Gfp], src: &[Gfp])
    requires
        old(dst)@.len() == src@.len(),
    ensures
        final(dst)@.len() == old(dst)@.len(),
        forall|i: int|
            0 <= i < old(dst)@.len() ==> (#[trigger] final(dst)@[i])@ == field_add(old(dst)@[i]@, src@[i]@),
{
    let n = dst.len();
    let mut i: usize = 0;
    while i < n
        invariant
            n == dst@.len(),
            n == old(dst)@.len(),
            n == src@.len(),
            i <= n,
            forall|k: int| 0 <= k < i ==> (#[trigger] dst@[k])@ == field_add(old(dst)@[k]@, src@[k]@),
            forall|k: int| i <= k < n ==> #[trigger] dst@[k] == old(dst)@[k],
        decreases n - i,
    {
        let r = gfp_add(&dst[i], &src[i]);
        dst[i] = r;
        i += 1;
    }
}

/// Doubles each slot of `dst`.
pub fn double(dst: &mut [Gfp])
    ensures
        final(dst)@.len() == old(dst)@.len(),
        forall|i: int|
            0 <= i < old(dst)@.len() ==> (#[trigger] final(dst)@[i])@ == field_add(old(dst)@[i]@, old(dst)@[i]@),
{
    let n = dst.len();
    let mut i: usize = 0;
    while i < n
        invariant
            n == dst@.len(),
            n == old(dst)@.len(),
            i <= n,
            forall|k: int| 0 <= k < i ==> (#[trigger] dst@[k])@ == field_add(old(dst)@[k]@, old(dst)@[k]@),
            forall|k: int| i <= k < n ==> #[trigger] dst@[k] == old(dst)@[k],
        decreases n - i,
    {
        let r = gfp_add(&dst[i], &dst[i]);
        dst[i] = r;
        i += 1;
    }
}

/// Subtracts the same slot of `src` from each slot of `dst`.
pub fn sub_mov(dst: &mut [Gfp], src: &[Gfp])
    requires
        old(dst)@.len() == src@.len(),
    ensures
        final(dst)@.len() == old(dst)@.len(),
        forall|i: int|
            0 <= i < old(dst)@.len() ==> (#[trigger] final(dst)@[i])@ == field_sub(old(dst)@[i]@, src@[i]@),
{
    let n = dst.len();
    let mut i: usize = 0;
    while i < n
        invariant
            n == dst@.len(),
            n == old(dst)@.len(),
            n == src@.len(),
            i <= n,
            forall|k: int| 0 <= k < i ==> (#[trigger] dst@[k])@ == field_sub(old(dst)@[k]@, src@[k]@),
            forall|k: int| i <= k < n ==> #[trigger] dst@[k] == old(dst)@[k],
        decreases n - i,
    {
        let r = gfp_sub(&dst[i], &src[i]);
        dst[i] = r;
        i += 1;
    }
}

/// Negates each slot of `dst`.
pub fn neg(dst: &mut [Gfp])
    ensures
        final(dst)@.len() == old(dst)@.len(),
        forall|i: int|
            0 <= i < old(dst)@.len() ==> (#[trigger] final(dst)@[i])@ == field_neg(old(dst)@[i]@),
{
    let n = dst.len();
    let mut i: usize = 0;
    while i < n
        invariant
            n == dst@.len(),
            n == old(dst)@.len(),
            i <= n,
            forall|k: int| 0 <= k < i ==> (#[trigger] dst@[k])@ == field_neg(old(dst)@[k]@),
            forall|k: int| i <= k < n ==> #[trigger] dst@[k] == old(dst)@[k],
        decreases n - i,
    {
        let r = gfp_neg(&dst[i]);
        dst[i] = r;
        i += 1;
    }
}

/// Brings each slot of `dst` from below 2p to below p, keeping its residue.
pub fn normalize(dst: &mut [Gfp])
    ensures
        final(dst)@.len() == old(dst)@.len(),
        forall|i: int|
            0 <= i < old(dst)@.len() ==> (#[trigger] final(dst)@[i])@ == reduce_once(old(dst)@[i]@),
{
    let n = dst.len();
    let mut i: usize = 0;
    while i < n
        invariant
            n == dst@.len(),
            n == old(dst)@.len(),
            i <= n,
            forall|k: int| 0 <= k < i ==> (#[trigger] dst@[k])@ == reduce_once(old(dst)@[k]@),
            forall|k: int| i <= k < n ==> #[trigger] dst@[k] == old(dst)@[k],
        decreases n - i,
    {
        let r = gfp_normalize(&dst[i]);
        dst[i] = r;
        i += 1;
    }
}

/// Writes the Montgomery product of the slots of `a` and `b` to `c`.
pub fn mul(a: &[Gfp], b: &[Gfp], c: &mut [Gfp])
    requires
        a@.len() == b@.len(),
        b@.len() == old(c)@.len(),
    ensures
        final(c)@.len() == a@.len(),
        forall|i: int|
            0 <= i < a@.len() ==> (#[trigger] final(c)@[i])@ == mont_mul(a@[i]@, b@[i]@),
{
    let n = a.len();
    let mut i: usize = 0;
    while i < n
        invariant
            n == a@.len(),
            n == b@.len(),
            n == c@.len(),
            i <= n,
            forall|k: int| 0 <= k < i ==> (#[trigger] c@[k])@ == mont_mul(a@[k]@, b@[k]@),
        decreases n - i,
    {
        let r = gfp_mul(&a[i], &b[i]);
        c[i] = r;
        i += 1;
    }
}

/// Writes the modular sum of the slots of `a` and `b` to `c`.
pub fn add(a: &[Gfp], b: &[Gfp], c: &mut [Gfp])
    requires
        a@.len() == b@.len(),
        b@.len() == old(c)@.len(),
    ensures
        final(c)@.len() == a@.len(),
        forall|i: int|
            0 <= i < a@.len() ==> (#[trigger] final(c)@[i])@ == field_add(a@[i]@, b@[i]@),
{
    let n = a.len();
    let mut i: usize = 0;
    while i < n
        invariant
            n == a@.len(),
            n == b@.len(),
            n == c@.len(),
            i <= n,
            forall|k: int| 0 <= k < i ==> (#[trigger] c@[k])@ == field_add(a@[k]@, b@[k]@),
        decreases n - i,
    {
        let r = gfp_add(&a[i], &b[i]);
        c[i] = r;
        i += 1;
    }
}

/// Writes the modular difference of the slots of `a` and `b` to `c`.
pub fn sub(a: &[Gfp], b: &[Gfp], c: &mut [Gfp])
    requires
        a@.len() == b@.len(),
        b@.len() == old(c)@.len(),
    ensures
        final(c)@.len() == a@.len(),
        forall|i: int|
            0 <= i < a@.len() ==> (#[trigger] final(c)@[i])@ == field_sub(a@[i]@, b@[i]@),
{
    let n = a.len();
    let mut i: usize = 0;
    while i < n
        invariant
            n == a@.len(),
            n == b@.len(),
            n == c@.len(),
            i <= n,
            forall|k: int| 0 <= k < i ==> (#[trigger] c@[k])@ == field_sub(a@[k]@, b@[k]@),
        decreases n - i,
    {
        let r = gfp_sub(&a[i], &b[i]);
        c[i] = r;
        i += 1;
    }
}

/// Lifts each slot from a plain value into Montgomery form: a product with 2^512 mod p.
pub fn mont_encode(dst: &mut [Gfp])
    ensures
        final(dst)@.len() == old(dst)@.len(),
        forall|i: int|
            0 <= i < old(dst)@.len() ==> (#[trigger] final(dst)@[i])@ == mont_mul(old(dst)@[i]@, val4(R2)),
{
    mul_mov_scalar(dst, &Gfp(R2));
}

/// Takes each slot out of Montgomery form: a product with one plain unit.
pub fn mont_decode(dst: &mut [Gfp])
    ensures
        final(dst)@.len() == old(dst)@.len(),
        forall|i: int| 0 <= i < old(dst)@.len() ==> (#[trigger] final(dst)@[i])@ == mont_mul(old(dst)@[i]@, 1),
{
    mul_mov_scalar(dst, &Gfp([1, 0, 0, 0]));
}

/// Runs the ladder over the 64 bits of one exponent word, low bit first: the
/// accumulator takes `power^w`, and `power` is squared 64 times.
fn exp_word(sum: &mut Gfp, power: &mut Gfp, w: u64)
    requires
        old(sum).is_canonical(),
        old(power).is_canonical(),
    ensures
        final(sum).is_canonical(),
        final(power).is_canonical(),
        residue(final(sum)@) == (residue(old(sum)@) * pow(residue(old(power)@) as int, w as nat))
            % (p_nat() as int),
        residue(final(power)@) == pow(residue(old(power)@) as int, pow(2, 64) as nat)
            % (p_nat() as int),
{
    let ghost s0 = residue(sum@) as int;
    let ghost p0 = residue(power@) as int;
    let ghost pp = p_nat() as int;
    let mut rem: u64 = w;
    let mut j: usize = 0;
    let ghost mut done: nat = 0;
    proof {
        vstd::arithmetic::power::lemma_pow0(p0);
        vstd::arithmetic::power::lemma_pow1(p0);
        vstd::arithmetic::power::lemma_pow0(2);
        lemma_small_mod(s0 as nat, pp as nat);
        lemma_small_mod(p0 as nat, pp as nat);
    }
    while j < 64
        invariant
            j <= 64,
            sum.is_canonical(),
            power.is_canonical(),
            pow(2, j as nat) > 0,
            w == rem * pow(2, j as nat) + done,
            residue(sum@) == (s0 * pow(p0, done)) % pp,
            residue(power@) == pow(p0, pow(2, j as nat) as nat) % pp,
            pp == p_nat(),
        decreases 64 - j,
    {
        proof {
            lemma_pow_adds(2, j as nat, 1);
            vstd::arithmetic::power::lemma_pow1(2);
        }
        let ghost e = pow(2, j as nat) as nat;
        if rem % 2 == 1 {
            proof {
                lemma_mont_mul_residue(sum@, power@);
                lemma_mul_pows(s0, p0, done, e);
            }
            *sum = gfp_mul(sum, power);
            proof {
                done = done + e;
            }
        }
        proof {
            lemma_mont_mul_residue(power@, power@);
            lemma_mul_pows(1, p0, e, e);
            assert(pow(2, (j + 1) as nat) == e + e);
            assert(w == (rem / 2) * pow(2, (j + 1) as nat) + done) by (nonlinear_arith)
                requires
                    w == rem * e + (done - (if rem % 2 == 1 { e } else { 0 })),
                    pow(2, (j + 1) as nat) == e + e,
                    rem == 2 * (rem / 2) + rem % 2,
            ;
        }
        *power = gfp_mul(power, power);
        rem = rem / 2;
        j = j + 1;
    }
    proof {
        vstd::arithmetic::power2::lemma2_to64();
        vstd::arithmetic::power2::lemma_pow2(64);
        assert(rem == 0) by (nonlinear_arith)
            requires
                w == rem * pow(2, 64) + done,
                w < 0x1_0000_0000_0000_0000,
                pow(2, 64) == 0x1_0000_0000_0000_0000,
                done >= 0,
        ;
    }
}

/// Value of the lowest `k` limbs of an exponent.
pub open spec fn limbs_prefix(bits: [u64; 4], k: nat) -> nat
    decreases k,
{
    if k == 0 {
        0
    } else {
        (limbs_prefix(bits, (k - 1) as nat) + bits[k - 1] * pow(w64() as int, (k - 1) as nat)) as nat
    }
}

proof fn lemma_limbs_prefix_full(bits: [u64; 4])
    ensures
        limbs_prefix(bits, 4) == val4(bits),
{
    reveal_with_fuel(pow, 4);
    reveal_with_fuel(limbs_prefix, 5);
    let w = w64() as int;
    assert(pow(w, 0) == 1);
    assert(pow(w, 1) == w);
    assert(pow(w, 2) == w * w);
    assert(pow(w, 3) == w * w * w);
    assert(limbs_prefix(bits, 1) == bits[0]);
    assert(limbs_prefix(bits, 2) == bits[0] + bits[1] * w);
    assert(limbs_prefix(bits, 3) == bits[0] + bits[1] * w + bits[2] * (w * w));
    assert(limbs_prefix(bits, 4) == bits[0] + bits[1] * w + bits[2] * (w * w) + bits[3] * (w * w
        * w));
    assert(bits[0] + bits[1] * w + bits[2] * (w * w) + bits[3] * (w * w * w) == val4(bits))
        by (nonlinear_arith)
        requires
            w == w64(),
    ;
}

/// The final scaling of the ladder cancels the accumulator's starting value.
proof fn lemma_ladder_scale(x: int)
    ensures
        (((residue(val4(RN1)) * x) % (p_nat() as int)) * residue(val4(R3))) % (p_nat() as int)
            == x % (p_nat() as int),
{
    lemma_constants();
    let pp = p_nat() as int;
    let c0 = residue(val4(RN1)) as int;
    let c3 = residue(val4(R3)) as int;
    assert((c0 * c3) % pp == 1) by (nonlinear_arith)
        requires
            c0 == residue(val4(RN1)),
            c3 == residue(val4(R3)),
            val4(RN1) == crate::constants::rinv_nat(),
            val4(R3) == (r_spec() * r_spec() * r_spec()) % p_nat(),
            pp == p_nat(),
    ;
    vstd::arithmetic::div_mod::lemma_mul_mod_noop_left(c0 * x, c3, pp);
    vstd::arithmetic::div_mod::lemma_fundamental_div_mod(c0 * c3, pp);
    let q = (c0 * c3) / pp;
    assert(c0 * x * c3 == x + pp * (x * q)) by (nonlinear_arith)
        requires
            c0 * c3 == pp * q + 1,
    ;
    vstd::arithmetic::div_mod::lemma_mod_multiples_vanish(x * q, x, pp);
}

impl Gfp {
    /// Raises the element to a 256-bit power, in Montgomery form.
    pub fn exp(&mut self, bits: &[u64; 4])
        requires
            old(self).is_canonical(),
        ensures
            final(self).is_canonical(),
            residue(final(self)@) == pow(residue(old(self)@) as int, val4(*bits)) % (p_nat() as int),
    {
        proof {
            lemma_constants();
        }
        let ghost a0 = residue(self@) as int;
        let ghost pp = p_nat() as int;
        let ghost c0 = residue(val4(RN1)) as int;
        let mut sum = Gfp(RN1);
        let mut power = *self;
        let mut k: usize = 0;
        proof {
            vstd::arithmetic::power::lemma_pow0(a0);
            vstd::arithmetic::power::lemma_pow0(w64() as int);
            vstd::arithmetic::power::lemma_pow1(a0);
            lemma_small_mod(a0 as nat, pp as nat);
            lemma_small_mod(c0 as nat, pp as nat);
        }
        while k < 4
            invariant
                k <= 4,
                sum.is_canonical(),
                power.is_canonical(),
                pp == p_nat(),
                pow(w64() as int, k as nat) >= 0,
                residue(sum@) == (c0 * pow(a0, limbs_prefix(*bits, k as nat))) % pp,
                residue(power@) == pow(a0, pow(w64() as int, k as nat) as nat) % pp,
            decreases 4 - k,
        {
            let ghost s_before = sum;
            let ghost p_before = power;
            let ghost wk = pow(w64() as int, k as nat) as nat;
            let ghost pre = limbs_prefix(*bits, k as nat);
            exp_word(&mut sum, &mut power, bits[k]);
            proof {
                let bk = bits[k as int] as nat;
                vstd::arithmetic::power::lemma_pow_mod_noop(pow(a0, wk), bk, pp);
                vstd::arithmetic::div_mod::lemma_mul_mod_noop_right(
                    residue(s_before@) as int,
                    pow(pow(a0, wk) % pp, bk),
                    pp,
                );
                lemma_pow_multiplies(a0, wk, bk);
                lemma_mul_pows(c0, a0, pre, wk * bk);
                assert(limbs_prefix(*bits, (k + 1) as nat) == pre + bk * wk);
                assert(pre + wk * bk == pre + bk * wk) by (nonlinear_arith);
                vstd::arithmetic::power::lemma_pow_mod_noop(pow(a0, wk), pow(2, 64) as nat, pp);
                vstd::arithmetic::power2::lemma2_to64();
                vstd::arithmetic::power2::lemma_pow2(64);
                lemma_pow_multiplies(a0, wk, pow(2, 64) as nat);
                lemma_pow_adds(w64() as int, k as nat, 1);
                vstd::arithmetic::power::lemma_pow1(w64() as int);
                assert(wk * (pow(2, 64) as nat) == pow(w64() as int, (k + 1) as nat));
            }
            k = k + 1;
        }
        proof {
            lemma_limbs_prefix_full(*bits);
            lemma_mont_mul_residue(sum@, val4(R3));
            lemma_ladder_scale(pow(a0, val4(*bits)));
        }
        let r = gfp_mul(&sum, &Gfp(R3));
        self.0 = r.0;
    }

    /// The multiplicative inverse by Fermat's little theorem: the power p - 2.
    /// Zero maps to zero.
    pub fn invert(&mut self)
        requires
            old(self).is_canonical(),
        ensures
            final(self).is_canonical(),
            residue(final(self)@) == pow(residue(old(self)@) as int, (p_nat() - 2) as nat) % (
            p_nat() as int),
    {
        proof {
            lemma_constants();
        }
        self.exp(&P_MINUS2)
    }

    /// The power (p + 1) / 4, which is a square root whenever one exists.
    pub fn sqrt(&mut self)
        requires
            old(self).is_canonical(),
        ensures
            final(self).is_canonical(),
            residue(final(self)@) == pow(residue(old(self)@) as int, ((p_nat() + 1) / 4) as nat)
                % (p_nat() as int),
    {
        proof {
            lemma_constants();
        }
        self.exp(&P_PLUS1_OVER4)
    }

    /// The plain (not Montgomery-encoded) value of a signed integer modulo p.
    pub fn new_from_int64(x: i64) -> (r: Gfp)
        ensures
            r@ == (x as int) % (p_nat() as int),
            r.is_canonical(),
    {
        proof {
            lemma_constants();
        }
        if x >= 0 {
            let r = Gfp([x as u64, 0, 0, 0]);
            proof {
                lemma_small_mod(x as nat, p_nat());
            }
            r
        } else {
            let m: u64 = (0i128 - x as i128) as u64;
            let r = gfp_neg(&Gfp([m, 0, 0, 0]));
            proof {
                assert(val4([m, 0, 0, 0]) == m);
                lemma_fundamental_div_mod_converse(p_nat() - m, r_spec() as int, 0, p_nat() - m);
                assert(r@ == p_nat() - m);
                lemma_fundamental_div_mod_converse(x as int, p_nat() as int, -1, p_nat() - m);
            }
            r
        }
    }

    /// Copies the value of another element into this one.
    pub fn set(&mut self, a: &Gfp)
        ensures
            *final(self) == *a,
    {
        self.0 = a.0;
    }
}

impl core::ops::Add for Gfp {
    type Output = Gfp;

    fn add(self, a: Gfp) -> (r: Gfp)
        ensures
            r@ == field_add(self@, a@),
    {
        gfp_add(&self, &a)
    }
}

impl core::ops::Mul for Gfp {
    type Output = Gfp;

    fn mul(self, a: Gfp) -> (r: Gfp)
        ensures
            r@ == mont_mul(self@, a@),
    {
        gfp_mul(&self, &a)
    }
}

impl core::ops::Neg for Gfp {
    type Output = Gfp;

    fn neg(self) -> (r: Gfp)
        ensures
            r@ == field_neg(self@),
    {
        gfp_neg(&self)
    }
}

impl core::ops::Sub for Gfp {
    type Output = Gfp;

    fn sub(self, a: Gfp) -> (r: Gfp)
        ensures
            r@ == field_sub(self@, a@),
    {
        gfp_sub(&self, &a)
    }
}

impl core::ops::AddAssign for Gfp {
    fn add_assign(&mut self, other: Gfp)
        ensures
            final(self)@ == field_add(old(self)@, other@),
    {
        let r = gfp_add(self, &other);
        self.0 = r.0;
    }
}

impl core::ops::SubAssign for Gfp {
    fn sub_assign(&mut self, other: Gfp)
        ensures
            final(self)@ == field_sub(old(self)@, other@),
    {
        let r = gfp_sub(self, &other);
        self.0 = r.0;
    }
}

impl vstd::std_specs::ops::AddSpecImpl for Gfp {
    open spec fn obeys_add_spec() -> bool {
        false
    }

    open spec fn add_req(self, rhs: Gfp) -> bool {
        true
    }

    open spec fn add_spec(self, rhs: Gfp) -> Gfp {
        self
    }
}

impl vstd::std_specs::ops::SubSpecImpl for Gfp {
    open spec fn obeys_sub_spec() -> bool {
        false
    }

    open spec fn sub_req(self, rhs: Gfp) -> bool {
        true
    }

    open spec fn sub_spec(self, rhs: Gfp) -> Gfp {
        self
    }
}

impl vstd::std_specs::ops::MulSpecImpl for Gfp {
    open spec fn obeys_mul_spec() -> bool {
        false
    }

    open spec fn mul_req(self, rhs: Gfp) -> bool {
        true
    }

    open spec fn mul_spec(self, rhs: Gfp) -> Gfp {
        self
    }
}

impl vstd::std_specs::ops::NegSpecImpl for Gfp {
    open spec fn obeys_neg_spec() -> bool {
        false
    }

    open spec fn neg_req(self) -> bool {
        true
    }

    open spec fn neg_spec(self) -> Gfp {
        self
    }
}

} // verus!
