use lookup_circuit::field::{FieldElement, MODULUS_0, MODULUS_1, MODULUS_2, MODULUS_3};
use snarkvm_curves::edwards_bls12::Fq;
use snarkvm_fields::PrimeField;
use snarkvm_utilities::biginteger::BigInteger256;

fn field_to_fq(e: &FieldElement) -> Fq {
    Fq::from_repr(BigInteger256(e.to_limbs())).unwrap()
}

fn field_from_fq(f: Fq) -> FieldElement {
    FieldElement::from_limbs(f.to_repr().0).unwrap()
}

fn modulus_minus(n: u64) -> FieldElement {
    FieldElement::from_limbs([MODULUS_0 - n, MODULUS_1, MODULUS_2, MODULUS_3]).unwrap()
}

#[test]
fn small_numbers_are_their_own_limbs() {
    assert_eq!([0, 0, 0, 0], FieldElement::zero().to_limbs());
    assert_eq!([1, 0, 0, 0], FieldElement::one().to_limbs());
    assert_eq!([77, 0, 0, 0], FieldElement::from_u64(77).to_limbs());
    assert_eq!([u64::MAX, 0, 0, 0], FieldElement::from_u64(u64::MAX).to_limbs());
    assert!(FieldElement::zero().is_zero());
    assert!(!FieldElement::one().is_zero());
}

#[test]
fn from_limbs_accepts_exactly_the_numbers_below_the_modulus() {
    assert!(FieldElement::from_limbs([MODULUS_0 - 1, MODULUS_1, MODULUS_2, MODULUS_3]).is_some());
    assert!(FieldElement::from_limbs([MODULUS_0, MODULUS_1, MODULUS_2, MODULUS_3]).is_none());
    assert!(FieldElement::from_limbs([MODULUS_0 + 1, MODULUS_1, MODULUS_2, MODULUS_3]).is_none());
    assert!(FieldElement::from_limbs([0, MODULUS_1 + 1, MODULUS_2, MODULUS_3]).is_none());
    assert!(FieldElement::from_limbs([u64::MAX, MODULUS_1 - 1, MODULUS_2, MODULUS_3]).is_some());
    assert!(FieldElement::from_limbs([0, 0, MODULUS_2 + 1, MODULUS_3]).is_none());
    assert!(FieldElement::from_limbs([u64::MAX, u64::MAX, MODULUS_2 - 1, MODULUS_3]).is_some());
    assert!(FieldElement::from_limbs([0, 0, 0, MODULUS_3 + 1]).is_none());
    assert!(FieldElement::from_limbs([u64::MAX, u64::MAX, u64::MAX, MODULUS_3 - 1]).is_some());
    assert!(FieldElement::from_limbs([u64::MAX, u64::MAX, u64::MAX, u64::MAX]).is_none());
    assert_eq!([1, 2, 3, 4], FieldElement::from_limbs([1, 2, 3, 4]).unwrap().to_limbs());
}

#[test]
fn sums_are_reduced() {
    let a = FieldElement::from_u64(3);
    let b = FieldElement::from_u64(4);
    assert_eq!(FieldElement::from_u64(7), a.plus(&b));
    // (p - 1) + 2 = 1
    assert_eq!(FieldElement::one(), modulus_minus(1).plus(&FieldElement::from_u64(2)));
    // (p - 1) + (p - 1) = p - 2
    assert_eq!(modulus_minus(2), modulus_minus(1).plus(&modulus_minus(1)));
    // 2^64 - 1 + 1 carries into the second limb
    assert_eq!([0, 1, 0, 0], FieldElement::from_u64(u64::MAX).plus(&FieldElement::one()).to_limbs());
}

#[test]
fn products_are_reduced() {
    let a = FieldElement::from_u64(3);
    let b = FieldElement::from_u64(4);
    assert_eq!(FieldElement::from_u64(12), a.times(&b));
    assert_ne!(a, a.times(&b));
    // (p - 1) * (p - 1) = 1
    assert_eq!(FieldElement::one(), modulus_minus(1).times(&modulus_minus(1)));
    // (p - 1) * 2 = p - 2
    assert_eq!(modulus_minus(2), modulus_minus(1).times(&FieldElement::from_u64(2)));
    // 2^64 * 2^64 = 2^128
    let two_64 = FieldElement::from_limbs([0, 1, 0, 0]).unwrap();
    assert_eq!([0, 0, 1, 0], two_64.times(&two_64).to_limbs());
    assert_eq!(FieldElement::zero(), a.times(&FieldElement::zero()));
}

#[test]
fn arithmetic_agrees_with_the_field_of_the_curve() {
    let a = FieldElement::from_limbs([11, 22, 33, 44]).unwrap();
    let b = FieldElement::from_limbs([u64::MAX, 5, u64::MAX, 1000]).unwrap();
    assert_eq!(field_from_fq(field_to_fq(&a) + field_to_fq(&b)), a.plus(&b));
    assert_eq!(field_from_fq(field_to_fq(&a) * field_to_fq(&b)), a.times(&b));
}

#[test]
fn equality_is_equality_of_values() {
    let a = FieldElement::from_u64(5);
    let b = FieldElement::from_u64(2).plus(&FieldElement::from_u64(3));
    assert!(a.equals(&b));
    assert!(!a.equals(&FieldElement::from_u64(6)));
    assert_eq!(a, b);
}
