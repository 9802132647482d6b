use private_deposit::commitment::{commit, permutation, poseidon2_plain_commitments};
use private_deposit::field::FieldElement;

fn zero_commitment_limbs() -> [u64; 4] {
    [
        0xd1476ffa97361acb,
        0xcb8cb6a33f5b027b,
        0x9adc79d4a7638af3,
        0x087f763a403ee410,
    ]
}

#[test]
fn commitment_of_zero_is_the_known_constant() {
    let c = commit(FieldElement::zero(), FieldElement::zero());
    assert_eq!(c.to_limbs(), zero_commitment_limbs());
}

#[test]
fn permutation_changes_the_state() {
    let (a, b) = permutation(FieldElement::zero(), FieldElement::zero());
    assert_ne!(a, FieldElement::zero());
    assert_ne!(b, FieldElement::zero());
    assert_ne!(a, b);
}

#[test]
fn plain_commitments_need_pairs() {
    let odd = vec![FieldElement::one()];
    assert!(poseidon2_plain_commitments(&odd).is_none());
    let even = vec![FieldElement::zero(), FieldElement::zero(), FieldElement::one(), FieldElement::one()];
    let got = poseidon2_plain_commitments(&even).unwrap();
    assert_eq!(got.len(), 2);
    assert_eq!(got[0].to_limbs(), zero_commitment_limbs());
    assert_eq!(got[1], commit(FieldElement::one(), FieldElement::one()));
}
