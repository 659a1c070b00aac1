//! Elements of the base field of the circuit, held as four 64-bit limbs.
//!
//! The arithmetic itself is done by `snarkvm_fields`; this module fixes the
//! representation, states what each operation returns as a number modulo the
//! field's characteristic, and proves the conversions from and to limbs.

use snarkvm_curves::edwards_bls12::Fq;
use snarkvm_fields::PrimeField;
use snarkvm_utilities::biginteger::BigInteger256;
use vstd::prelude::*;

verus! {

/// The characteristic of the base field: the order of the scalar field of
/// BLS12-377, a prime of 253 bits.
pub open spec fn modulus() -> nat {
    8444461749428370424248824938781546531375899335154063827935233455917409239041nat
}

/// The number that four limbs stand for, least significant limb first.
pub open spec fn limbs_value(l0: u64, l1: u64, l2: u64, l3: u64) -> nat {
    (l0 + l1 * 0x1_0000_0000_0000_0000int + l2 * 0x1_0000_0000_0000_0000_0000_0000_0000_0000int + l3
        * 0x1_0000_0000_0000_0000_0000_0000_0000_0000_0000_0000_0000_0000int) as nat
}

/// Least significant limb of the characteristic.
pub const MODULUS_0: u64 = 725501752471715841u64;

/// Second limb of the characteristic.
pub const MODULUS_1: u64 = 6461107452199829505u64;

/// Third limb of the characteristic.
pub const MODULUS_2: u64 = 6968279316240510977u64;

/// Most significant limb of the characteristic.
pub const MODULUS_3: u64 = 1345280370688173398u64;

/// The four limb constants are the characteristic.
pub proof fn lemma_modulus_limbs()
    ensures
        limbs_value(MODULUS_0, MODULUS_1, MODULUS_2, MODULUS_3) == modulus(),
{
}

/// Different limbs stand for different numbers.
pub proof fn lemma_limbs_value_injective(a0: u64, a1: u64, a2: u64, a3: u64, b0: u64, b1: u64, b2: u64, b3: u64)
    requires
        limbs_value(a0, a1, a2, a3) == limbs_value(b0, b1, b2, b3),
    ensures
        a0 == b0,
        a1 == b1,
        a2 == b2,
        a3 == b3,
{
}

/// An element of the base field in canonical form: the number below the
/// characteristic that represents it.
#[derive(Clone, Copy, Debug, PartialEq, Eq, Structural)]
pub struct FieldElement {
    l0: u64,
    l1: u64,
    l2: u64,
    l3: u64,
}

impl View for FieldElement {
    type V = nat;

    closed spec fn view(&self) -> nat {
        limbs_value(self.l0, self.l1, self.l2, self.l3)
    }
}

impl FieldElement {
    /// Every element is held in canonical form: its value is below the
    /// characteristic.
    #[verifier::type_invariant]
    pub open spec fn canonical(self) -> bool {
        self@ < modulus()
    }

    /// Two elements with the same value are the same element.
    pub proof fn lemma_view_injective(a: FieldElement, b: FieldElement)
        ensures
            (a@ == b@) <==> (a == b),
    {
        if a@ == b@ {
            lemma_limbs_value_injective(a.l0, a.l1, a.l2, a.l3, b.l0, b.l1, b.l2, b.l3);
        }
    }

    /// The additive identity.
    pub fn zero() -> (r: FieldElement)
        ensures
            r@ == 0,
    {
        FieldElement { l0: 0, l1: 0, l2: 0, l3: 0 }
    }

    /// The multiplicative identity.
    pub fn one() -> (r: FieldElement)
        ensures
            r@ == 1,
    {
        FieldElement { l0: 1, l1: 0, l2: 0, l3: 0 }
    }

    /// The element that a 64-bit number stands for.
    pub fn from_u64(value: u64) -> (r: FieldElement)
        ensures
            r@ == value,
    {
        FieldElement { l0: value, l1: 0, l2: 0, l3: 0 }
    }

    /// The element with the given limbs, least significant first, if they
    /// stand for a number below the characteristic.
    pub fn from_limbs(limbs: [u64; 4]) -> (r: Option<FieldElement>)
        ensures
            r is Some <==> limbs_value(limbs[0], limbs[1], limbs[2], limbs[3]) < modulus(),
            r matches Some(e) ==> e@ == limbs_value(limbs[0], limbs[1], limbs[2], limbs[3]),
    {
        let l0: u64 = limbs[0];
        let l1: u64 = limbs[1];
        let l2: u64 = limbs[2];
        let l3: u64 = limbs[3];
        let below = if l3 != MODULUS_3 {
            l3 < MODULUS_3
        } else if l2 != MODULUS_2 {
            l2 < MODULUS_2
        } else if l1 != MODULUS_1 {
            l1 < MODULUS_1
        } else {
            l0 < MODULUS_0
        };
        proof {
            lemma_modulus_limbs();
        }
        if below {
            Some(FieldElement { l0, l1, l2, l3 })
        } else {
            None
        }
    }

    /// The element with the given limbs, which stand for a number below the
    /// characteristic.
    pub(crate) fn from_reduced_limbs(limbs: [u64; 4]) -> (r: FieldElement)
        requires
            limbs_value(limbs[0], limbs[1], limbs[2], limbs[3]) < modulus(),
        ensures
            r@ == limbs_value(limbs[0], limbs[1], limbs[2], limbs[3]),
    {
        FieldElement { l0: limbs[0], l1: limbs[1], l2: limbs[2], l3: limbs[3] }
    }

    /// The limbs of the element, least significant first.
    pub fn to_limbs(&self) -> (r: [u64; 4])
        ensures
            limbs_value(r[0], r[1], r[2], r[3]) == self@,
    {
        [self.l0, self.l1, self.l2, self.l3]
    }

    /// Whether the element is the additive identity.
    pub fn is_zero(&self) -> (r: bool)
        ensures
            r == (self@ == 0),
    {
        self.l0 == 0 && self.l1 == 0 && self.l2 == 0 && self.l3 == 0
    }

    /// Whether two elements have the same value.
    pub fn equals(&self, other: &FieldElement) -> (r: bool)
        ensures
            r == (self@ == other@),
    {
        proof {
            Self::lemma_view_injective(*self, *other);
        }
        self.l0 == other.l0 && self.l1 == other.l1 && self.l2 == other.l2 && self.l3 == other.l3
    }

    /// The sum of two elements.
    pub fn plus(&self, other: &FieldElement) -> (r: FieldElement)
        ensures
            r@ == (self@ + other@) % modulus(),
    {
        field_add(self, other)
    }

    /// The product of two elements.
    pub fn times(&self, other: &FieldElement) -> (r: FieldElement)
        ensures
            r@ == (self@ * other@) % modulus(),
    {
        field_mul(self, other)
    }
}

/// Addition in the base field, as `snarkvm_fields` implements `+` for `Fq`.
///
/// Both arguments are taken from their limbs with `PrimeField::from_repr`,
/// which accepts exactly the numbers below the characteristic (the type's
/// invariant), and the sum is read back with `PrimeField::to_repr`, which
/// gives the canonical limbs. The contract claims that the limbs read
/// back stand for the sum of the two numbers reduced modulo the characteristic.
#[verifier::external_body]
fn field_add(a: &FieldElement, b: &FieldElement) -> (r: FieldElement)
    ensures
        r@ == (a@ + b@) % modulus(),
{
    let x = Fq::from_repr(BigInteger256([a.l0, a.l1, a.l2, a.l3])).unwrap();
    let y = Fq::from_repr(BigInteger256([b.l0, b.l1, b.l2, b.l3])).unwrap();
    let s = (x + y).to_repr().0;
    FieldElement { l0: s[0], l1: s[1], l2: s[2], l3: s[3] }
}

/// Multiplication in the base field, as `snarkvm_fields` implements `*` for
/// `Fq`.
///
/// The arguments and the result are converted as in `field_add`. The contract
/// claims that the limbs read back stand for the product of the two numbers
/// reduced modulo the characteristic.
#[verifier::external_body]
fn field_mul(a: &FieldElement, b: &FieldElement) -> (r: FieldElement)
    ensures
        r@ == (a@ * b@) % modulus(),
{
    let x = Fq::from_repr(BigInteger256([a.l0, a.l1, a.l2, a.l3])).unwrap();
    let y = Fq::from_repr(BigInteger256([b.l0, b.l1, b.l2, b.l3])).unwrap();
    let s = (x * y).to_repr().0;
    FieldElement { l0: s[0], l1: s[1], l2: s[2], l3: s[3] }
}

} // verus!
