//! Parameters of the base field: the prime, the Montgomery constants and the
//! exponents used by inversion and square roots, all as little-endian limbs.
use vstd::prelude::*;

use crate::limbs::{r_spec, val4, w64};

verus! {

/// The prime modulus p.
pub const MODULUS: [u64; 4] = [
    0x185cac6c5e089667,
    0xee5b88d120b5b59e,
    0xaa6fecb86184dc21,
    0x8fb501e34aa387f9,
];

/// -p^-1 mod 2^256, the Montgomery reduction factor.
pub const NP: [u64; 4] = [
    0x2387f9007f17daa9,
    0x734b3343ab8513c8,
    0x2524282f48054c12,
    0x38997ae661c3ef3c,
];

/// 2^-256 mod p.
pub const RN1: [u64; 4] = [
    0xcbb781e36236117d,
    0x0cc65f3bcec8c91b,
    0x2eab68888ea1f515,
    0x1fc5c0956f92f825,
];

/// 2^512 mod p: multiplying by it lifts a plain value into Montgomery form.
pub const R2: [u64; 4] = [
    0x9c21c3ff7e444f56,
    0x409ed151b2efb0c2,
    0x0c6dc37b80fb1651,
    0x7c36e0e62c2380b7,
];

/// 2^768 mod p.
pub const R3: [u64; 4] = [
    0x2af2dfb9324a5bb8,
    0x388f899054f538a4,
    0xdf2ff66396b107a7,
    0x24ebbbb3a2529292,
];

/// 2^256 mod p: the Montgomery form of one.
pub const RP: [u64; 4] = [
    0xe7a35393a1f76999,
    0x11a4772edf4a4a61,
    0x559013479e7b23de,
    0x704afe1cb55c7806,
];

/// p - 2, the inversion exponent.
pub const P_MINUS2: [u64; 4] = [
    0x185cac6c5e089665,
    0xee5b88d120b5b59e,
    0xaa6fecb86184dc21,
    0x8fb501e34aa387f9,
];

/// (p + 1) / 4, the square-root exponent.
pub const P_PLUS1_OVER4: [u64; 4] = [
    0x86172b1b1782259a,
    0x7b96e234482d6d67,
    0x6a9bfb2e18613708,
    0x23ed4078d2a8e1fe,
];

/// The prime modulus p as a number.
#[verifier::inline]
pub open spec fn p_nat() -> nat {
    0x185cac6c5e089667 + w64() * (0xee5b88d120b5b59e + w64() * (0xaa6fecb86184dc21 + w64()
        * 0x8fb501e34aa387f9))
}

/// -p^-1 mod 2^256 as a number.
#[verifier::inline]
pub open spec fn np_nat() -> nat {
    0x2387f9007f17daa9 + w64() * (0x734b3343ab8513c8 + w64() * (0x2524282f48054c12 + w64()
        * 0x38997ae661c3ef3c))
}

/// 2^-256 mod p as a number.
#[verifier::inline]
pub open spec fn rinv_nat() -> nat {
    0xcbb781e36236117d + w64() * (0x0cc65f3bcec8c91b + w64() * (0x2eab68888ea1f515 + w64()
        * 0x1fc5c0956f92f825))
}

/// The limb arrays hold the numbers named above, and those numbers have the
/// relations that Montgomery arithmetic relies on.
pub proof fn lemma_constants()
    ensures
        val4(MODULUS) == p_nat(),
        val4(NP) == np_nat(),
        val4(RN1) == rinv_nat(),
        val4(R2) == (r_spec() * r_spec()) % p_nat(),
        val4(R3) == (r_spec() * r_spec() * r_spec()) % p_nat(),
        val4(RP) == r_spec() % p_nat(),
        val4(P_MINUS2) == p_nat() - 2,
        val4(P_PLUS1_OVER4) == (p_nat() + 1) / 4,
        (np_nat() * p_nat() + 1) % r_spec() == 0,
        (r_spec() * rinv_nat()) % p_nat() == 1,
        rinv_nat() < p_nat(),
        p_nat() < r_spec(),
        p_nat() % 4 == 3,
{
    assert(val4(MODULUS) == p_nat()) by (nonlinear_arith);
    assert(val4(NP) == np_nat()) by (nonlinear_arith);
    assert(val4(RN1) == rinv_nat()) by (nonlinear_arith);
    assert(val4(R2) == (r_spec() * r_spec()) % p_nat()) by (nonlinear_arith);
    assert(val4(R3) == (r_spec() * r_spec() * r_spec()) % p_nat()) by (nonlinear_arith);
    assert(val4(RP) == r_spec() % p_nat()) by (nonlinear_arith);
    assert(val4(P_MINUS2) == p_nat() - 2) by (nonlinear_arith);
    assert(val4(P_PLUS1_OVER4) == (p_nat() + 1) / 4) by (nonlinear_arith);
    assert((np_nat() * p_nat() + 1) % r_spec() == 0) by (nonlinear_arith);
    assert((r_spec() * rinv_nat()) % p_nat() == 1) by (nonlinear_arith);
}

} // verus!
