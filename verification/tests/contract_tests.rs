use private_deposit::ae::{get_t2_ds, sym_decrypt, sym_encrypt};
use private_deposit::contract::{
    field_to_address, field_to_u256, u256_to_address, u256_to_field, u256_to_usize,
    usize_to_u256, Ciphertext, ContractError, TransactionInputRust, BATCH_SIZE,
};
use private_deposit::field::FieldElement;
use private_deposit::stats::{summarize, summarize_send_receive, Summary};

const MODULUS: [u64; 4] = [
    0x43e1f593f0000001,
    0x2833e84879b97091,
    0xb85045b68181585d,
    0x30644e72e131a029,
];

fn fe(x: u64) -> FieldElement {
    FieldElement::from_u64(x)
}

#[test]
fn the_domain_separator_of_the_encryption() {
    assert_eq!(get_t2_ds().to_limbs(), [0x0002000000024142, 0x8000, 0, 0]);
}

#[test]
fn decryption_recovers_the_message() {
    let key = fe(123456789);
    let message = [fe(1000), FieldElement::from_limbs([5, 6, 7, 8]).unwrap()];
    let ciphertext = sym_encrypt(key, message, fe(0));
    assert_ne!(ciphertext[0], message[0]);
    assert_ne!(ciphertext[1], message[1]);
    assert_eq!(sym_decrypt(key, ciphertext, fe(0)), message);
    assert_ne!(sym_decrypt(fe(1), ciphertext, fe(0)), message);
    assert_ne!(sym_decrypt(key, ciphertext, fe(1)), message);
    assert_ne!(sym_encrypt(key, message, fe(1)), ciphertext);
    let keystream = sym_encrypt(key, [fe(0), fe(0)], fe(0));
    assert_eq!(ciphertext[0], message[0].add(keystream[0]));
    assert_eq!(ciphertext[1], message[1].add(keystream[1]));
    assert_ne!(keystream[0], keystream[1]);
}

#[test]
fn counts_and_numbers_of_256_bits() {
    assert_eq!(usize_to_u256(77), [77, 0, 0, 0]);
    assert_eq!(u256_to_usize([77, 0, 0, 0]), Ok(77));
    assert_eq!(u256_to_usize([usize::MAX as u64, 0, 0, 0]), Ok(usize::MAX));
    assert_eq!(u256_to_usize([0, 1, 0, 0]), Err(ContractError::TooLargeForUsize));
    assert_eq!(u256_to_usize([0, 0, 0, 1]), Err(ContractError::TooLargeForUsize));
}

#[test]
fn field_elements_and_numbers_of_256_bits() {
    assert_eq!(field_to_u256(fe(9)), [9, 0, 0, 0]);
    assert_eq!(u256_to_field([9, 0, 0, 0]), Ok(fe(9)));
    assert_eq!(u256_to_field(MODULUS), Err(ContractError::OutOfFieldRange));
    let top = [MODULUS[0] - 1, MODULUS[1], MODULUS[2], MODULUS[3]];
    assert_eq!(u256_to_field(top).map(field_to_u256), Ok(top));
}

#[test]
fn addresses_are_the_low_bytes() {
    let value = [0x0807060504030201, 0x100f0e0d0c0b0a09, 0x14131211, 0];
    let expected: [u8; 20] = [1, 2, 3, 4, 5, 6, 7, 8, 9, 10, 11, 12, 13, 14, 15, 16, 17, 18, 19, 20];
    assert_eq!(u256_to_address(value), Ok(expected));
    assert_eq!(u256_to_address([0, 0, 0x1_0000_0000, 0]), Err(ContractError::TooLargeForAddress));
    assert_eq!(u256_to_address([0, 0, 0, 1]), Err(ContractError::TooLargeForAddress));
    assert_eq!(u256_to_address([0, 0, 0xffff_ffff, 0]).unwrap()[19], 0xff);
    assert_eq!(field_to_address(fe(0x0102)).unwrap()[..3], [2, 1, 0]);
    assert_eq!(
        field_to_address(FieldElement::from_limbs([0, 0, 0, 1]).unwrap()),
        Err(ContractError::TooLargeForAddress)
    );
}

#[test]
fn what_a_batch_reports_must_have_its_lengths() {
    assert_eq!(BATCH_SIZE, 96);
    let good = TransactionInputRust {
        action_index: (0..96).collect(),
        commitment: (0..192u64).map(fe).collect(),
    };
    let (indices, commitments) = good.to_transaction_input().unwrap();
    assert_eq!(indices.len(), 96);
    assert_eq!(commitments.len(), 192);
    assert_eq!(indices[95], [95, 0, 0, 0]);
    assert_eq!(commitments[191], [191, 0, 0, 0]);
    let short = TransactionInputRust { action_index: (0..95).collect(), commitment: good.commitment.clone() };
    assert_eq!(short.to_transaction_input(), Err(ContractError::InvalidInputLengths));
    let odd = TransactionInputRust { action_index: good.action_index.clone(), commitment: (0..96u64).map(fe).collect() };
    assert_eq!(odd.to_transaction_input(), Err(ContractError::InvalidInputLengths));
}

#[test]
fn shares_are_encrypted_for_each_party_and_decrypted_by_it() {
    let amounts = [fe(10), fe(20), fe(30)];
    let blindings = [fe(11), fe(21), fe(31)];
    let keys = [fe(1001), fe(1002), fe(1003)];
    let ciphertext = Ciphertext::encrypt_shares(amounts, blindings, keys, (fe(5), fe(6)));
    assert_eq!(ciphertext.sender_pk, ([5, 0, 0, 0], [6, 0, 0, 0]));
    assert_eq!(ciphertext.sender_public_key(0), Ok((fe(5), fe(6))));
    for i in 0..3 {
        assert_eq!(ciphertext.decrypt_share(keys[i], i), Ok([amounts[i], blindings[i]]));
        assert_ne!(ciphertext.amount[i], [amounts[i].to_limbs()[0], 0, 0, 0]);
    }
    assert_ne!(ciphertext.decrypt_share(keys[0], 1), Ok([amounts[1], blindings[1]]));
    assert_eq!(ciphertext.decrypt_share(keys[0], 3), Err(ContractError::InvalidPartyIndex));
    assert_eq!(ciphertext.sender_public_key(3), Err(ContractError::InvalidPartyIndex));
    let mut broken = ciphertext;
    broken.amount[1] = MODULUS;
    broken.sender_pk.1 = MODULUS;
    assert_eq!(broken.decrypt_share(keys[1], 1), Err(ContractError::OutOfFieldRange));
    assert_eq!(broken.sender_public_key(1), Err(ContractError::OutOfFieldRange));
    assert!(broken.decrypt_share(keys[0], 0).is_ok());
}

#[test]
fn errors_of_the_contract_values_say_what_went_wrong() {
    assert_eq!(ContractError::TooLargeForUsize.message(), "U256 value is too large to fit into a usize");
    assert_eq!(ContractError::OutOfFieldRange.message(), "U256 value is out of field range");
    assert_eq!(ContractError::TooLargeForAddress.message(), "U256 value is too large to fit into an Address");
    assert_eq!(ContractError::InvalidInputLengths.message(), "Invalid input lengths");
    assert_eq!(ContractError::InvalidPartyIndex.message(), "invalid party index for decryption share");
}

#[test]
fn the_figures_of_a_benchmark() {
    assert_eq!(summarize(&vec![]), None);
    assert_eq!(summarize(&vec![7]), Some(Summary { count: 1, min: 7, max: 7, total: 7 }));
    assert_eq!(
        summarize(&vec![5, 3, 9, 3, 8]),
        Some(Summary { count: 5, min: 3, max: 9, total: 28 })
    );
    assert_eq!(
        summarize(&vec![usize::MAX, usize::MAX]),
        Some(Summary { count: 2, min: usize::MAX, max: usize::MAX, total: 2 * (usize::MAX as u128) })
    );
    assert_eq!(summarize_send_receive(&vec![]), None);
    assert_eq!(
        summarize_send_receive(&vec![(1, 100), (5, 50), (3, 75)]),
        Some((
            Summary { count: 3, min: 1, max: 5, total: 9 },
            Summary { count: 3, min: 50, max: 100, total: 225 }
        ))
    );
}
