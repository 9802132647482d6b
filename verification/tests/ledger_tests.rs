use private_deposit::data_structure::{
    DepositValue, DepositValuePlain, DepositValueShare, LedgerError, PrivateDeposit,
};
use private_deposit::field::FieldElement;
use private_deposit::share::{combine_field_element, PartyID, Rep3State, ReplicatedShare};
use rand_chacha::rand_core::SeedableRng;

fn fe(x: u64) -> FieldElement {
    FieldElement::from_u64(x)
}

fn states() -> [Rep3State; 3] {
    let seeds = [[20u8; 32], [21u8; 32], [22u8; 32]];
    [
        Rep3State::new(PartyID::ID0, seeds[0], seeds[2]),
        Rep3State::new(PartyID::ID1, seeds[1], seeds[0]),
        Rep3State::new(PartyID::ID2, seeds[2], seeds[1]),
    ]
}

#[test]
fn a_new_ledger_is_empty() {
    let ledger: PrivateDeposit<u64, u64> = PrivateDeposit::new();
    assert!(ledger.is_empty());
    assert_eq!(ledger.len(), 0);
    assert_eq!(ledger.get(&1), None);
    assert!(!ledger.contains_key(&1));
    let other: PrivateDeposit<u64, u64> = PrivateDeposit::with_capacity(10);
    assert!(other.is_empty());
    let third: PrivateDeposit<u64, u64> = PrivateDeposit::default();
    assert_eq!(third.len(), 0);
}

#[test]
fn insert_sets_and_replaces() {
    let mut ledger: PrivateDeposit<u64, u64> = PrivateDeposit::new();
    assert_eq!(ledger.insert(5, 50), None);
    assert_eq!(ledger.insert(3, 30), None);
    assert_eq!(ledger.insert(9, 90), None);
    assert_eq!(ledger.insert(5, 55), Some(50));
    assert_eq!(ledger.len(), 3);
    assert_eq!(ledger.get(&5), Some(&55));
    assert_eq!(ledger.get(&3), Some(&30));
    assert_eq!(ledger.get(&9), Some(&90));
    assert_eq!(ledger.get(&4), None);
    assert!(ledger.contains_key(&9));
    assert!(!ledger.is_empty());
}

#[test]
fn keys_come_in_the_canonical_order() {
    let mut ledger: PrivateDeposit<u64, u64> = PrivateDeposit::new();
    for k in [7u64, 1, 9, 3, 5, 8, 2] {
        ledger.insert(k, k * 10);
    }
    assert_eq!(ledger.keys(), vec![1, 2, 3, 5, 7, 8, 9]);
    assert_eq!(ledger.values(), vec![&10, &20, &30, &50, &70, &80, &90]);
    assert_eq!(ledger.iter(), vec![(1, &10), (2, &20), (3, &30), (5, &50), (7, &70), (8, &80), (9, &90)]);
    assert_eq!(ledger.inner(), &vec![(1, 10), (2, 20), (3, 30), (5, 50), (7, 70), (8, 80), (9, 90)]);
    assert_eq!(ledger.into_inner(), vec![(1, 10), (2, 20), (3, 30), (5, 50), (7, 70), (8, 80), (9, 90)]);
}

#[test]
fn remove_and_clear() {
    let mut ledger: PrivateDeposit<u64, u64> = PrivateDeposit::new();
    ledger.insert(1, 10);
    ledger.insert(2, 20);
    ledger.insert(3, 30);
    assert_eq!(ledger.remove(&2), Some(20));
    assert_eq!(ledger.remove(&2), None);
    assert_eq!(ledger.keys(), vec![1, 3]);
    assert_eq!(ledger.len(), 2);
    let copy = ledger.clone();
    ledger.clear();
    assert!(ledger.is_empty());
    assert_eq!(copy.keys(), vec![1, 3]);
    assert_eq!(copy.get(&3), Some(&30));
}

#[test]
fn field_elements_are_keys() {
    let mut ledger: PrivateDeposit<FieldElement, u64> = PrivateDeposit::new();
    let big = FieldElement::from_limbs([0, 0, 1, 0]).unwrap();
    ledger.insert(big, 1);
    ledger.insert(fe(2), 2);
    ledger.insert(FieldElement::from_limbs([0, 1, 0, 0]).unwrap(), 3);
    assert_eq!(ledger.values(), vec![&2, &3, &1]);
    assert_eq!(ledger.get(&big), Some(&1));
}

#[test]
fn deposit_in_the_clear() {
    let mut ledger: PrivateDeposit<u64, DepositValuePlain> = PrivateDeposit::new();
    let (old, new) = ledger.deposit_with_blinding(1, fe(100), fe(7));
    assert_eq!(old, None);
    assert_eq!(new, DepositValue::new(fe(100), fe(7)));
    let (old, new) = ledger.deposit_with_blinding(1, fe(11), fe(8));
    assert_eq!(old, Some(DepositValue::new(fe(100), fe(7))));
    assert_eq!(new, DepositValue::new(fe(111), fe(8)));
    assert_eq!(ledger.read(&1), Some(&DepositValue::new(fe(111), fe(8))));
    assert_eq!(ledger.read(&2), None);
}

#[test]
fn withdraw_in_the_clear() {
    let mut ledger: PrivateDeposit<u64, DepositValuePlain> = PrivateDeposit::new();
    ledger.insert(1, DepositValue::new(fe(100), fe(7)));
    let (old, new) = ledger.withdraw_with_blinding(1, fe(40), fe(9)).unwrap();
    assert_eq!(old, DepositValue::new(fe(100), fe(7)));
    assert_eq!(new, DepositValue::new(fe(60), fe(9)));
    assert_eq!(ledger.read(&1), Some(&new));
}

#[test]
fn withdraw_from_an_absent_key_fails_and_changes_nothing() {
    let mut ledger: PrivateDeposit<u64, DepositValuePlain> = PrivateDeposit::new();
    ledger.insert(1, DepositValue::new(fe(100), fe(7)));
    assert_eq!(ledger.withdraw_with_blinding(2, fe(40), fe(9)), Err(LedgerError::KeyNotFound));
    assert_eq!(ledger.len(), 1);
    assert_eq!(ledger.read(&1), Some(&DepositValue::new(fe(100), fe(7))));
}

#[test]
fn transaction_in_the_clear() {
    let mut ledger: PrivateDeposit<u64, DepositValuePlain> = PrivateDeposit::new();
    ledger.insert(1, DepositValue::new(fe(100), fe(7)));
    let (sender_old, sender_new, receiver_old, receiver_new) =
        ledger.transaction_with_blinding(1, 2, fe(60), fe(8), fe(9)).unwrap();
    assert_eq!(sender_old, DepositValue::new(fe(100), fe(7)));
    assert_eq!(sender_new, DepositValue::new(fe(40), fe(8)));
    assert_eq!(receiver_old, None);
    assert_eq!(receiver_new, DepositValue::new(fe(60), fe(9)));
    assert_eq!(ledger.keys(), vec![1, 2]);
    let again = ledger.transaction_with_blinding(2, 1, fe(10), fe(1), fe(2)).unwrap();
    assert_eq!(again.2, Some(DepositValue::new(fe(40), fe(8))));
    assert_eq!(again.3, DepositValue::new(fe(50), fe(2)));
    assert_eq!(again.1, DepositValue::new(fe(50), fe(1)));
}

#[test]
fn transaction_to_oneself_keeps_the_amount() {
    let mut ledger: PrivateDeposit<u64, DepositValuePlain> = PrivateDeposit::new();
    ledger.insert(1, DepositValue::new(fe(100), fe(7)));
    let (sender_old, sender_new, receiver_old, receiver_new) =
        ledger.transaction_with_blinding(1, 1, fe(60), fe(8), fe(9)).unwrap();
    assert_eq!(sender_old.amount, fe(100));
    assert_eq!(sender_new.amount, fe(40));
    assert_eq!(receiver_old, Some(sender_new));
    assert_eq!(receiver_new, DepositValue::new(fe(100), fe(9)));
    assert_eq!(ledger.read(&1), Some(&receiver_new));
}

#[test]
fn transaction_from_an_absent_sender_fails_and_changes_nothing() {
    let mut ledger: PrivateDeposit<u64, DepositValuePlain> = PrivateDeposit::new();
    ledger.insert(1, DepositValue::new(fe(100), fe(7)));
    assert_eq!(
        ledger.transaction_with_blinding(3, 1, fe(60), fe(8), fe(9)),
        Err(LedgerError::KeyNotFound)
    );
    assert_eq!(ledger.read(&1), Some(&DepositValue::new(fe(100), fe(7))));
    assert_eq!(ledger.len(), 1);
}

fn plain_ledger() -> PrivateDeposit<FieldElement, DepositValuePlain> {
    let mut ledger = PrivateDeposit::new();
    ledger.insert(fe(30), DepositValue::new(fe(300), fe(3)));
    ledger.insert(fe(10), DepositValue::new(fe(100), fe(1)));
    ledger.insert(fe(20), DepositValue::new(fe(200), fe(2)));
    ledger
}

fn amount_of(shares: &[PrivateDeposit<FieldElement, DepositValueShare>; 3], key: u64) -> FieldElement {
    let k = fe(key);
    combine_field_element(
        shares[0].read(&k).unwrap().amount,
        shares[1].read(&k).unwrap().amount,
        shares[2].read(&k).unwrap().amount,
    )
}

#[test]
fn sharing_a_ledger_shares_every_balance_under_the_same_keys() {
    let plain = plain_ledger();
    let mut rng = rand_chacha::ChaCha12Rng::from_seed([5u8; 32]);
    let shares = plain.share(&mut rng);
    for party in shares.iter() {
        assert_eq!(party.keys(), vec![fe(10), fe(20), fe(30)]);
    }
    for (key, value) in plain.iter() {
        let a: Vec<ReplicatedShare> = shares.iter().map(|s| s.read(&key).unwrap().amount).collect();
        let b: Vec<ReplicatedShare> = shares.iter().map(|s| s.read(&key).unwrap().blinding).collect();
        assert_eq!(combine_field_element(a[0], a[1], a[2]), value.amount);
        assert_eq!(combine_field_element(b[0], b[1], b[2]), value.blinding);
        assert_eq!(a[0].b, a[2].a);
        assert_eq!(a[1].b, a[0].a);
        assert_eq!(a[2].b, a[1].a);
    }
}

#[test]
fn sharing_with_the_same_seed_gives_the_same_ledgers() {
    let plain = plain_ledger();
    let mut first_rng = rand_chacha::ChaCha12Rng::from_seed([6u8; 32]);
    let mut second_rng = rand_chacha::ChaCha12Rng::from_seed([6u8; 32]);
    let first = plain.share(&mut first_rng);
    let mut reordered = PrivateDeposit::new();
    reordered.insert(fe(20), DepositValue::new(fe(200), fe(2)));
    reordered.insert(fe(30), DepositValue::new(fe(300), fe(3)));
    reordered.insert(fe(10), DepositValue::new(fe(100), fe(1)));
    let second = reordered.share(&mut second_rng);
    for p in 0..3 {
        assert_eq!(first[p].inner(), second[p].inner());
    }
    let mut other_rng = rand_chacha::ChaCha12Rng::from_seed([7u8; 32]);
    let third = plain.share(&mut other_rng);
    assert_ne!(first[0].inner(), third[0].inner());
}

#[test]
fn three_parties_deposit_withdraw_and_transfer() {
    let plain = plain_ledger();
    let mut rng = rand_chacha::ChaCha12Rng::from_seed([8u8; 32]);
    let mut shares = plain.share(&mut rng);
    let mut st = states();
    let ids = [PartyID::ID0, PartyID::ID1, PartyID::ID2];

    for p in 0..3 {
        let amount = ReplicatedShare::promote_to_trivial_share(ids[p], fe(5));
        let (old, new) = shares[p].deposit(fe(10), amount, &mut st[p]);
        assert!(old.is_some());
        assert_eq!(shares[p].read(&fe(10)), Some(&new));
    }
    assert_eq!(amount_of(&shares, 10), fe(105));

    for p in 0..3 {
        let amount = ReplicatedShare::promote_to_trivial_share(ids[p], fe(50));
        shares[p].withdraw(fe(20), amount, &mut st[p]).unwrap();
    }
    assert_eq!(amount_of(&shares, 20), fe(150));

    let amount = private_deposit::share::share_field_element(fe(300), &mut rng);
    for p in 0..3 {
        let r = shares[p].transaction(fe(30), fe(40), amount[p], &mut st[p]).unwrap();
        assert_eq!(r.2, None);
    }
    assert_eq!(amount_of(&shares, 30), fe(0));
    assert_eq!(amount_of(&shares, 40), fe(300));
    for p in 0..3 {
        assert_eq!(shares[p].keys(), vec![fe(10), fe(20), fe(30), fe(40)]);
    }
    let b: Vec<ReplicatedShare> = shares.iter().map(|s| s.read(&fe(40)).unwrap().blinding).collect();
    assert_eq!(b[0].b, b[2].a);
    assert_eq!(b[1].b, b[0].a);
    assert_eq!(b[2].b, b[1].a);
}

#[test]
fn a_debit_of_an_absent_key_fails_for_a_party() {
    let mut ledger: PrivateDeposit<FieldElement, DepositValueShare> = PrivateDeposit::new();
    let mut st = states();
    let amount = ReplicatedShare::promote_to_trivial_share(PartyID::ID0, fe(5));
    assert_eq!(ledger.withdraw(fe(1), amount, &mut st[0]), Err(LedgerError::KeyNotFound));
    assert_eq!(ledger.transaction(fe(1), fe(2), amount, &mut st[0]), Err(LedgerError::KeyNotFound));
    assert!(ledger.is_empty());
}
