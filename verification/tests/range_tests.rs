use private_deposit::field::FieldElement;
use private_deposit::range::{
    decompose_for_deposit, decompose_for_transaction, decompose_for_withdraw, low_bits,
    split_composed_for_transaction, to_bit_shares, BinaryShare, BitShare, NUM_AMOUNT_BITS,
    NUM_WITHDRAW_NEW_BITS,
};
use private_deposit::share::ReplicatedShare;

fn number_of(bits: &[bool]) -> u128 {
    let mut value = 0u128;
    for (i, bit) in bits.iter().enumerate() {
        if *bit {
            value |= 1u128 << i;
        }
    }
    value
}

#[test]
fn the_widths_of_the_range_proofs() {
    assert_eq!(NUM_AMOUNT_BITS, 64);
    assert_eq!(NUM_WITHDRAW_NEW_BITS, 100);
}

#[test]
fn low_bits_of_a_small_number() {
    let bits = low_bits(&vec![0b1011], 6);
    assert_eq!(bits, vec![true, true, false, true, false, false]);
    assert_eq!(low_bits(&vec![0b1011], 0), Vec::<bool>::new());
}

#[test]
fn low_bits_cross_the_digits() {
    let digits = vec![1u64 << 63, 0b101, 7];
    let bits = low_bits(&digits, 100);
    assert_eq!(bits.len(), 100);
    for (i, bit) in bits.iter().enumerate() {
        assert_eq!(*bit, i == 63 || i == 64 || i == 66, "bit {}", i);
    }
    assert_eq!(number_of(&bits), (1u128 << 63) | (0b101u128 << 64));
}

#[test]
fn bits_beyond_the_digits_are_not_set() {
    let bits = low_bits(&vec![u64::MAX], 100);
    assert_eq!(number_of(&bits), u64::MAX as u128);
    assert!(bits[64..].iter().all(|b| !*b));
    assert!(low_bits(&vec![], 100).iter().all(|b| !*b));
}

#[test]
fn low_bits_cut_what_is_above() {
    let digits = vec![5, u64::MAX, 9, 1];
    let bits = low_bits(&digits, 100);
    assert_eq!(number_of(&bits), 5u128 | (((1u128 << 36) - 1) << 64));
    let bits = low_bits(&digits, 64);
    assert_eq!(number_of(&bits), 5);
}

#[test]
fn bit_shares_take_both_components() {
    let share = BinaryShare { a: vec![0b01], b: vec![0b11] };
    let bits = to_bit_shares(&share, 3);
    assert_eq!(
        bits,
        vec![
            BitShare { a: true, b: true },
            BitShare { a: false, b: true },
            BitShare { a: false, b: false },
        ]
    );
}

#[test]
fn decompositions_have_their_widths() {
    let amount = BinaryShare { a: vec![u64::MAX, 1], b: vec![0] };
    let sender = BinaryShare { a: vec![0, u64::MAX], b: vec![3, 3] };
    let deposit = decompose_for_deposit(&amount);
    assert_eq!(deposit.len(), 64);
    assert!(deposit.iter().all(|b| b.a && !b.b));
    let withdraw = decompose_for_withdraw(&sender);
    assert_eq!(withdraw.len(), 100);
    assert!(withdraw[..64].iter().all(|b| !b.a));
    assert!(withdraw[64..].iter().all(|b| b.a));
    assert!(withdraw[0].b && withdraw[1].b && !withdraw[2].b && withdraw[64].b && withdraw[65].b);
    let both = decompose_for_transaction(&amount, &sender);
    assert_eq!(both.len(), 164);
    assert_eq!(&both[..64], &deposit[..]);
    assert_eq!(&both[64..], &withdraw[..]);
}

#[test]
fn composed_bits_of_a_transfer_are_parted_at_the_amount() {
    let composed: Vec<ReplicatedShare> = (0..164u64)
        .map(|i| ReplicatedShare::new(FieldElement::from_u64(i), FieldElement::from_u64(1000 + i)))
        .collect();
    let (amount, sender) = split_composed_for_transaction(composed.clone()).unwrap();
    assert_eq!(amount.len(), 64);
    assert_eq!(sender.len(), 100);
    assert_eq!(&amount[..], &composed[..64]);
    assert_eq!(&sender[..], &composed[64..]);
    assert!(split_composed_for_transaction(composed[..163].to_vec()).is_none());
    assert!(split_composed_for_transaction(Vec::new()).is_none());
}

#[test]
fn a_wrapped_balance_is_not_what_its_low_bits_make() {
    let balance = FieldElement::from_u64(60);
    let exact = balance.sub(FieldElement::from_u64(60));
    assert_eq!(exact, FieldElement::zero());
    let exact_bits = low_bits(&exact.to_limbs().to_vec(), 100);
    assert_eq!(number_of(&exact_bits), 0);

    let wrapped = balance.sub(FieldElement::from_u64(61));
    let limbs = wrapped.to_limbs();
    assert_eq!(limbs, [0x43e1f593f0000000, 0x2833e84879b97091, 0xb85045b68181585d, 0x30644e72e131a029]);
    let bits = low_bits(&limbs.to_vec(), 100);
    let recomposed = number_of(&bits);
    assert_eq!(recomposed, 0x43e1f593f0000000u128 | ((0x2833e84879b97091u128 & ((1u128 << 36) - 1)) << 64));
    assert!(limbs[2] != 0 || limbs[3] != 0 || (limbs[1] >> 36) != 0);
}
