//! Elements of the BN254 scalar field, held as canonical representatives in
//! `[0, r)` over four 64-bit limbs, with the modular addition the diffusion
//! layer is built from.

use vstd::arithmetic::div_mod::{lemma_small_mod, lemma_sub_mod_noop};
use vstd::prelude::*;

verus! {

const MODULUS_LIMB_0: u64 = 0x43e1f593f0000001;

const MODULUS_LIMB_1: u64 = 0x2833e84879b97091;

const MODULUS_LIMB_2: u64 = 0xb85045b68181585d;

const MODULUS_LIMB_3: u64 = 0x30644e72e131a029;

/// The order of the BN254 scalar field.
pub open spec fn bn254_modulus() -> int {
    21888242871839275222246405745257275088548364400416034343698204186575808495617int
}

/// The integer that four little-endian 64-bit limbs stand for.
pub open spec fn limbs_value(l0: u64, l1: u64, l2: u64, l3: u64) -> int {
    l0 as int + l1 as int * 0x10000000000000000int + l2 as int
        * 0x100000000000000000000000000000000int + l3 as int
        * 0x1000000000000000000000000000000000000000000000000int
}

/// An element of the BN254 scalar field: the canonical representative of a
/// residue class, in little-endian 64-bit limbs.
#[derive(Clone, Copy, Debug, PartialEq, Eq, Structural)]
pub struct Bn254Fr {
    l0: u64,
    l1: u64,
    l2: u64,
    l3: u64,
}

impl Bn254Fr {
    /// The canonical integer in `[0, r)` that this element stands for.
    pub closed spec fn value(self) -> int {
        limbs_value(self.l0, self.l1, self.l2, self.l3)
    }

    /// The representative is canonical: strictly below the field order.
    pub closed spec fn inv(self) -> bool {
        0 <= self.value() < bn254_modulus()
    }

    /// The field element standing for a small integer.
    pub fn from_u64(v: u64) -> (r: Bn254Fr)
        ensures
            r.inv(),
            r.value() == v,
    {
        Bn254Fr { l0: v, l1: 0, l2: 0, l3: 0 }
    }

    /// The field element with the given little-endian limbs, if they stand
    /// for a canonical representative, i.e. an integer below the field order.
    pub fn from_limbs(l0: u64, l1: u64, l2: u64, l3: u64) -> (r: Option<Bn254Fr>)
        ensures
            r is Some <==> limbs_value(l0, l1, l2, l3) < bn254_modulus(),
            r matches Some(x) ==> x.inv() && x.value() == limbs_value(l0, l1, l2, l3),
    {
        if geq_modulus(l0, l1, l2, l3) {
            None
        } else {
            Some(Bn254Fr { l0, l1, l2, l3 })
        }
    }

    /// Addition in the field: the sum of the representatives, reduced mod the
    /// field order.
    pub fn add(&self, other: &Bn254Fr) -> (r: Bn254Fr)
        requires
            self.inv(),
            other.inv(),
        ensures
            r.inv(),
            r.value() == (self.value() + other.value()) % bn254_modulus(),
    {
        let (s0, c0) = adc(self.l0, other.l0, 0);
        let (s1, c1) = adc(self.l1, other.l1, c0);
        let (s2, c2) = adc(self.l2, other.l2, c1);
        let (s3, c3) = adc(self.l3, other.l3, c2);
        proof {
            assert(self.value() + other.value() == limbs_value(s0, s1, s2, s3) + c3 as int
                * 0x10000000000000000000000000000000000000000000000000000000000000000int);
            assert(c3 == 0);
        }
        let sum = Bn254Fr { l0: s0, l1: s1, l2: s2, l3: s3 };
        if geq_modulus(s0, s1, s2, s3) {
            let (d0, b0) = sbb(s0, MODULUS_LIMB_0, 0);
            let (d1, b1) = sbb(s1, MODULUS_LIMB_1, b0);
            let (d2, b2) = sbb(s2, MODULUS_LIMB_2, b1);
            let (d3, b3) = sbb(s3, MODULUS_LIMB_3, b2);
            proof {
                assert(limbs_value(s0, s1, s2, s3) - bn254_modulus() == limbs_value(d0, d1, d2, d3)
                    - b3 as int
                        * 0x10000000000000000000000000000000000000000000000000000000000000000int);
                assert(b3 == 0);
                lemma_sub_mod_noop(
                    self.value() + other.value(),
                    bn254_modulus(),
                    bn254_modulus(),
                );
                assert((self.value() + other.value() - bn254_modulus()) % bn254_modulus() == (self.value() + other.value()) % bn254_modulus());
                lemma_small_mod(
                    (self.value() + other.value() - bn254_modulus()) as nat,
                    bn254_modulus() as nat,
                );
            }
            Bn254Fr { l0: d0, l1: d1, l2: d2, l3: d3 }
        } else {
            proof {
                lemma_small_mod((self.value() + other.value()) as nat, bn254_modulus() as nat);
            }
            sum
        }
    }
}

/// A 64-bit add with carry in and carry out: the carry weighs one limb.
fn adc(a: u64, b: u64, c: u64) -> (r: (u64, u64))
    requires
        c <= 1,
    ensures
        r.1 <= 1,
        a + b + c == r.0 + r.1 as int * 0x10000000000000000int,
{
    let t: u128 = a as u128 + b as u128 + c as u128;
    let lo = t as u64;
    let hi = (t >> 64) as u64;
    proof {
        assert(t == (t as u64) as u128 + ((t >> 64) as u64) as u128 * 0x10000000000000000 && (t >> 64) <= 1)
            by (bit_vector)
            requires
                t < 0x20000000000000000,
        ;
    }
    (lo, hi)
}

/// A 64-bit subtract with borrow in and borrow out: the borrow weighs one limb.
fn sbb(a: u64, b: u64, c: u64) -> (r: (u64, u64))
    requires
        c <= 1,
    ensures
        r.1 <= 1,
        a - b - c == r.0 - r.1 as int * 0x10000000000000000int,
{
    let t: u128 = 0x10000000000000000u128 + a as u128 - b as u128 - c as u128;
    let d = t as u64;
    let borrow: u64 = if (t >> 64) == 0 {
        1
    } else {
        0
    };
    proof {
        assert(t == (t as u64) as u128 + (t >> 64) * 0x10000000000000000 && (t >> 64) <= 1)
            by (bit_vector)
            requires
                t < 0x20000000000000000,
        ;
    }
    (d, borrow)
}

/// Whether four limbs stand for at least the field order, by comparing from
/// the most significant limb down.
fn geq_modulus(a0: u64, a1: u64, a2: u64, a3: u64) -> (r: bool)
    ensures
        r == (limbs_value(a0, a1, a2, a3) >= bn254_modulus()),
{
    if a3 != MODULUS_LIMB_3 {
        a3 > MODULUS_LIMB_3
    } else if a2 != MODULUS_LIMB_2 {
        a2 > MODULUS_LIMB_2
    } else if a1 != MODULUS_LIMB_1 {
        a1 > MODULUS_LIMB_1
    } else {
        a0 >= MODULUS_LIMB_0
    }
}

} // verus!
