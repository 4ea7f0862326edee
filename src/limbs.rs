//! Fixed-width multi-limb integer arithmetic on little-endian 64-bit limbs.
use vstd::prelude::*;

verus! {

/// The limb radix, 2^64.
#[verifier::inline]
pub open spec fn w64() -> nat {
    0x1_0000_0000_0000_0000
}

/// 2^256, the Montgomery radix.
#[verifier::inline]
pub open spec fn r_spec() -> nat {
    0x1_0000_0000_0000_0000_0000_0000_0000_0000 * 0x1_0000_0000_0000_0000_0000_0000_0000_0000
}

/// Value of four little-endian 64-bit limbs.
pub open spec fn val4(a: [u64; 4]) -> nat {
    (a[0] as nat) + w64() * ((a[1] as nat) + w64() * ((a[2] as nat) + w64() * (a[3] as nat)))
}

/// Value of eight little-endian 64-bit limbs.
pub open spec fn val8(a: [u64; 8]) -> nat {
    val4([a[0], a[1], a[2], a[3]]) + r_spec() * val4([a[4], a[5], a[6], a[7]])
}

pub proof fn lemma_val4_bound(a: [u64; 4])
    ensures
        val4(a) < r_spec(),
{
}

/// `a + b + carry` as a low limb and a carry limb.
pub fn adc(a: u64, b: u64, carry: u64) -> (r: (u64, u64))
    ensures
        r.0 + r.1 * 0x1_0000_0000_0000_0000 == a + b + carry,
        carry <= 1 ==> r.1 <= 1,
{
    let t: u128 = (a as u128) + (b as u128) + (carry as u128);
    let lo: u64 = (t & 0xFFFF_FFFF_FFFF_FFFFu128) as u64;
    let hi: u64 = (t >> 64u32) as u64;
    assert(t & 0xFFFF_FFFF_FFFF_FFFFu128 == t % 0x1_0000_0000_0000_0000u128) by (bit_vector);
    assert(t >> 64u32 == t / 0x1_0000_0000_0000_0000u128) by (bit_vector);
    (lo, hi)
}

/// `a - b - borrow` as a low limb and an outgoing borrow of 0 or 1.
pub fn sbb(a: u64, b: u64, borrow: u64) -> (r: (u64, u64))
    requires
        borrow <= 1,
    ensures
        r.0 - r.1 * 0x1_0000_0000_0000_0000 == a - b - borrow,
        r.1 <= 1,
{
    let t: u128 = (a as u128) + 0x1_0000_0000_0000_0000u128 - (b as u128) - (borrow as u128);
    let lo: u64 = (t & 0xFFFF_FFFF_FFFF_FFFFu128) as u64;
    let hi: u64 = (t >> 64u32) as u64;
    assert(t & 0xFFFF_FFFF_FFFF_FFFFu128 == t % 0x1_0000_0000_0000_0000u128) by (bit_vector);
    assert(t >> 64u32 == t / 0x1_0000_0000_0000_0000u128) by (bit_vector);
    (lo, 1 - hi)
}

/// `acc + a * b + carry` as a low limb and a high limb.
pub fn mac(acc: u64, a: u64, b: u64, carry: u64) -> (r: (u64, u64))
    ensures
        r.0 + r.1 * 0x1_0000_0000_0000_0000 == acc + a * b + carry,
{
    proof {
        assert((a as int) * (b as int) <= 0xFFFF_FFFF_FFFF_FFFF * 0xFFFF_FFFF_FFFF_FFFF)
            by (nonlinear_arith)
            requires
                a <= 0xFFFF_FFFF_FFFF_FFFF,
                b <= 0xFFFF_FFFF_FFFF_FFFF,
        ;
    }
    let t: u128 = (acc as u128) + (a as u128) * (b as u128) + (carry as u128);
    let lo: u64 = (t & 0xFFFF_FFFF_FFFF_FFFFu128) as u64;
    let hi: u64 = (t >> 64u32) as u64;
    assert(t & 0xFFFF_FFFF_FFFF_FFFFu128 == t % 0x1_0000_0000_0000_0000u128) by (bit_vector);
    assert(t >> 64u32 == t / 0x1_0000_0000_0000_0000u128) by (bit_vector);
    (lo, hi)
}

/// Sum of two 256-bit values and an incoming carry, with the outgoing carry.
pub fn add4(a: &[u64; 4], b: &[u64; 4], carry: u64) -> (r: ([u64; 4], u64))
    requires
        carry <= 1,
    ensures
        val4(r.0) + r_spec() * r.1 == val4(*a) + val4(*b) + carry,
        r.1 <= 1,
{
    let (r0, c0) = adc(a[0], b[0], carry);
    let (r1, c1) = adc(a[1], b[1], c0);
    let (r2, c2) = adc(a[2], b[2], c1);
    let (r3, c3) = adc(a[3], b[3], c2);
    let r = [r0, r1, r2, r3];
    proof {
        let av = val4(*a);
        let bv = val4(*b);
        assert(r0 + w64() * (r1 + w64() * (r2 + w64() * r3)) + r_spec() * c3 == av + bv + carry)
            by (nonlinear_arith)
            requires
                r0 + w64() * c0 == a[0] + b[0] + carry,
                r1 + w64() * c1 == a[1] + b[1] + c0,
                r2 + w64() * c2 == a[2] + b[2] + c1,
                r3 + w64() * c3 == a[3] + b[3] + c2,
                av == a[0] + w64() * (a[1] + w64() * (a[2] + w64() * a[3])),
                bv == b[0] + w64() * (b[1] + w64() * (b[2] + w64() * b[3])),
        ;
    }
    (r, c3)
}

/// Difference of two 256-bit values less an incoming borrow, with the outgoing borrow.
pub fn sub4(a: &[u64; 4], b: &[u64; 4], borrow: u64) -> (r: ([u64; 4], u64))
    requires
        borrow <= 1,
    ensures
        val4(r.0) - r_spec() * r.1 == val4(*a) - val4(*b) - borrow,
        r.1 <= 1,
{
    let (r0, c0) = sbb(a[0], b[0], borrow);
    let (r1, c1) = sbb(a[1], b[1], c0);
    let (r2, c2) = sbb(a[2], b[2], c1);
    let (r3, c3) = sbb(a[3], b[3], c2);
    let r = [r0, r1, r2, r3];
    assert(r0 == a[0] - b[0] - borrow + w64() * c0);
    assert(r1 == a[1] - b[1] - c0 + w64() * c1);
    assert(r2 == a[2] - b[2] - c1 + w64() * c2);
    assert(r3 == a[3] - b[3] - c2 + w64() * c3);
    let ghost ar = a[0] + w64() * (a[1] + w64() * (a[2] + w64() * a[3]));
    let ghost br = b[0] + w64() * (b[1] + w64() * (b[2] + w64() * b[3]));
    assert(r0 + w64() * (r1 + w64() * (r2 + w64() * r3)) - r_spec() * c3 == ar - br - borrow)
        by (nonlinear_arith)
        requires
            r0 == a[0] - b[0] - borrow + w64() * c0,
            r1 == a[1] - b[1] - c0 + w64() * c1,
            r2 == a[2] - b[2] - c1 + w64() * c2,
            r3 == a[3] - b[3] - c2 + w64() * c3,
            ar == a[0] + w64() * (a[1] + w64() * (a[2] + w64() * a[3])),
            br == b[0] + w64() * (b[1] + w64() * (b[2] + w64() * b[3])),
    ;
    (r, c3)
}

/// One row of a schoolbook product: `w + a * bj`, as its lowest limb and the
/// four limbs above it.
pub fn mul_row(w: &[u64; 4], a: &[u64; 4], bj: u64) -> (r: (u64, [u64; 4]))
    ensures
        r.0 + w64() * val4(r.1) == val4(*w) + val4(*a) * bj,
{
    let (r0, c0) = mac(w[0], a[0], bj, 0);
    let (r1, c1) = mac(w[1], a[1], bj, c0);
    let (r2, c2) = mac(w[2], a[2], bj, c1);
    let (r3, c3) = mac(w[3], a[3], bj, c2);
    let hi = [r1, r2, r3, c3];
    proof {
        let av = val4(*a);
        let wv = val4(*w);
        assert(r0 + w64() * (r1 + w64() * (r2 + w64() * (r3 + w64() * c3))) == wv + av * bj)
            by (nonlinear_arith)
            requires
                r0 + w64() * c0 == w[0] + a[0] * bj,
                r1 + w64() * c1 == w[1] + a[1] * bj + c0,
                r2 + w64() * c2 == w[2] + a[2] * bj + c1,
                r3 + w64() * c3 == w[3] + a[3] * bj + c2,
                av == a[0] + w64() * (a[1] + w64() * (a[2] + w64() * a[3])),
                wv == w[0] + w64() * (w[1] + w64() * (w[2] + w64() * w[3])),
        ;
    }
    (r0, hi)
}

/// Full 512-bit product of two 256-bit values.
pub fn mul_wide(a: &[u64; 4], b: &[u64; 4]) -> (r: [u64; 8])
    ensures
        val8(r) == val4(*a) * val4(*b),
{
    let z: [u64; 4] = [0, 0, 0, 0];
    let (o0, w1) = mul_row(&z, a, b[0]);
    let (o1, w2) = mul_row(&w1, a, b[1]);
    let (o2, w3) = mul_row(&w2, a, b[2]);
    let (o3, w4) = mul_row(&w3, a, b[3]);
    let r = [o0, o1, o2, o3, w4[0], w4[1], w4[2], w4[3]];
    proof {
        let av = val4(*a);
        let v1 = val4(w1);
        let v2 = val4(w2);
        let v3 = val4(w3);
        let v4 = val4(w4);
        assert(val4(z) == 0);
        assert(val4([w4[0], w4[1], w4[2], w4[3]]) == v4);
        assert(val8(r) == val4([o0, o1, o2, o3]) + r_spec() * v4);
        assert(val8(r) == o0 + w64() * (o1 + w64() * (o2 + w64() * (o3 + w64() * v4))))
            by (nonlinear_arith)
            requires
                val8(r) == val4([o0, o1, o2, o3]) + r_spec() * v4,
                val4([o0, o1, o2, o3]) == o0 + w64() * (o1 + w64() * (o2 + w64() * o3)),
        ;
        assert(o0 + w64() * (o1 + w64() * (o2 + w64() * (o3 + w64() * v4))) == av * val4(*b))
            by (nonlinear_arith)
            requires
                o0 + w64() * v1 == av * b[0],
                o1 + w64() * v2 == v1 + av * b[1],
                o2 + w64() * v3 == v2 + av * b[2],
                o3 + w64() * v4 == v3 + av * b[3],
                val4(*b) == b[0] + w64() * (b[1] + w64() * (b[2] + w64() * b[3])),
        ;
    }
    r
}

/// The low four limbs of eight: the value modulo 2^256.
pub fn low_half(a: &[u64; 8]) -> (r: [u64; 4])
    ensures
        val4(r) == val8(*a) % r_spec(),
{
    let r = [a[0], a[1], a[2], a[3]];
    proof {
        lemma_val4_bound(r);
        vstd::arithmetic::div_mod::lemma_fundamental_div_mod_converse(
            val8(*a) as int,
            r_spec() as int,
            val4([a[4], a[5], a[6], a[7]]) as int,
            val4(r) as int,
        );
    }
    r
}

/// The high four limbs of eight: the value divided by 2^256.
pub fn high_half(a: &[u64; 8]) -> (r: [u64; 4])
    ensures
        val4(r) == val8(*a) / r_spec(),
{
    let r = [a[4], a[5], a[6], a[7]];
    proof {
        lemma_val4_bound([a[0], a[1], a[2], a[3]]);
        vstd::arithmetic::div_mod::lemma_fundamental_div_mod_converse(
            val8(*a) as int,
            r_spec() as int,
            val4(r) as int,
            val4([a[0], a[1], a[2], a[3]]) as int,
        );
    }
    r
}

} // verus!
