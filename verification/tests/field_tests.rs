use private_deposit::field::FieldElement;
use rand_chacha::rand_core::SeedableRng;

const MODULUS: [u64; 4] = [
    0x43e1f593f0000001,
    0x2833e84879b97091,
    0xb85045b68181585d,
    0x30644e72e131a029,
];

fn modulus_minus(k: u64) -> FieldElement {
    FieldElement::from_limbs([MODULUS[0] - k, MODULUS[1], MODULUS[2], MODULUS[3]]).unwrap()
}

#[test]
fn small_sums_are_plain_sums() {
    let a = FieldElement::from_u64(40);
    let b = FieldElement::from_u64(60);
    assert_eq!(a.add(b), FieldElement::from_u64(100));
    assert_eq!(a.add(b).to_limbs(), [100, 0, 0, 0]);
}

#[test]
fn sums_carry_between_limbs() {
    let a = FieldElement::from_u64(u64::MAX);
    let b = FieldElement::from_u64(1);
    assert_eq!(a.add(b).to_limbs(), [0, 1, 0, 0]);
}

#[test]
fn sums_wrap_at_the_modulus() {
    let top = modulus_minus(1);
    assert_eq!(top.add(FieldElement::one()), FieldElement::zero());
    assert_eq!(top.add(FieldElement::from_u64(5)), FieldElement::from_u64(4));
}

#[test]
fn differences_wrap_below_zero() {
    let a = FieldElement::from_u64(60);
    let b = FieldElement::from_u64(61);
    assert_eq!(b.sub(a), FieldElement::one());
    assert_eq!(a.sub(a), FieldElement::zero());
    assert_eq!(a.sub(b), modulus_minus(1));
    assert_eq!(FieldElement::zero().sub(FieldElement::from_u64(7)), modulus_minus(7));
}

#[test]
fn limbs_at_or_above_the_modulus_are_refused() {
    assert!(FieldElement::from_limbs(MODULUS).is_none());
    assert!(FieldElement::from_limbs([u64::MAX; 4]).is_none());
    assert!(FieldElement::from_limbs([MODULUS[0] + 1, MODULUS[1], MODULUS[2], MODULUS[3]]).is_none());
    let top = FieldElement::from_limbs([MODULUS[0] - 1, MODULUS[1], MODULUS[2], MODULUS[3]]);
    assert!(top.is_some());
    assert_eq!(top.unwrap().to_limbs(), [MODULUS[0] - 1, MODULUS[1], MODULUS[2], MODULUS[3]]);
}

#[test]
fn zero_and_one() {
    assert!(FieldElement::zero().is_zero());
    assert!(!FieldElement::one().is_zero());
    assert_eq!(FieldElement::one().to_limbs(), [1, 0, 0, 0]);
    assert_eq!(FieldElement::from_u64(0), FieldElement::zero());
}

#[test]
fn order_goes_by_the_number() {
    let low = FieldElement::from_limbs([u64::MAX, 0, 0, 0]).unwrap();
    let high = FieldElement::from_limbs([0, 1, 0, 0]).unwrap();
    assert!(low.is_less(&high));
    assert!(!high.is_less(&low));
    assert!(!low.is_less(&low));
    assert!(low.is_equal(&low));
    assert!(!low.is_equal(&high));
    let top = FieldElement::from_limbs([0, 0, 0, 1]).unwrap();
    assert!(high.is_less(&top));
    assert!(FieldElement::from_limbs([5, 0, 9, 0]).unwrap().is_less(&top));
}

#[test]
fn random_elements_differ_and_follow_the_seed() {
    let mut rng = rand_chacha::ChaCha12Rng::from_seed([7u8; 32]);
    let a = FieldElement::random(&mut rng);
    let b = FieldElement::random(&mut rng);
    assert_ne!(a, b);
    let mut again = rand_chacha::ChaCha12Rng::from_seed([7u8; 32]);
    assert_eq!(FieldElement::random(&mut again), a);
    assert_eq!(FieldElement::random(&mut again), b);
    assert!(FieldElement::from_limbs(a.to_limbs()).is_some());
}
