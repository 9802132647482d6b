use private_deposit::actionquery::ProcessError;
use private_deposit::data_structure::{DepositValue, DepositValuePlain, DepositValueShare, PrivateDeposit};
use private_deposit::field::FieldElement;
use private_deposit::share::{
    combine_field_element, PartyID, Rep3Randomness, Rep3State, ReplicatedShare,
};
use private_deposit::task::ActionTask;
use private_deposit::test_config::TestConfig;
use private_deposit::transaction_batched::{
    balance_values, batched_balance_values, batched_commitment_inputs, batched_inputs,
    TransactionInput,
};
use private_deposit::witness::WitnessValue;
use rand_chacha::rand_core::SeedableRng;

type Ledger = PrivateDeposit<FieldElement, DepositValueShare>;

fn fe(x: u64) -> FieldElement {
    FieldElement::from_u64(x)
}

fn sh(a: u64, b: u64) -> ReplicatedShare {
    ReplicatedShare::new(fe(a), fe(b))
}

fn state(party: usize) -> Rep3State {
    let ids = [PartyID::ID0, PartyID::ID1, PartyID::ID2];
    let seeds = [[30u8; 32], [31u8; 32], [32u8; 32]];
    Rep3State::new(ids[party], seeds[party], seeds[(party + 2) % 3])
}

#[test]
fn sharing_a_transfer_keeps_the_keys() {
    let input = TransactionInput { sender_key: 7u64, receiver_key: 8u64, amount: fe(60), amount_blinding: fe(99) };
    let mut rng = rand_chacha::ChaCha12Rng::from_seed([3u8; 32]);
    let shares = input.share(&mut rng);
    for s in shares.iter() {
        assert_eq!(s.sender_key, 7);
        assert_eq!(s.receiver_key, 8);
    }
    assert_eq!(combine_field_element(shares[0].amount, shares[1].amount, shares[2].amount), fe(60));
    assert_eq!(
        combine_field_element(shares[0].amount_blinding, shares[1].amount_blinding, shares[2].amount_blinding),
        fe(99)
    );
    let mut again = rand_chacha::ChaCha12Rng::from_seed([3u8; 32]);
    assert_eq!(input.share(&mut again), shares);
}

#[test]
fn a_batch_of_transfers_moves_every_amount() {
    let mut plain: PrivateDeposit<FieldElement, DepositValuePlain> = PrivateDeposit::new();
    for k in 0..96u64 {
        plain.insert(fe(k), DepositValue::new(fe(1000 + k), fe(k)));
    }
    let mut rng = rand_chacha::ChaCha12Rng::from_seed([4u8; 32]);
    let mut ledgers = plain.share(&mut rng);
    let inputs: Vec<[TransactionInput<FieldElement, ReplicatedShare>; 3]> = (0..96u64)
        .map(|k| {
            TransactionInput { sender_key: fe(k), receiver_key: fe(1000 + k % 7), amount: fe(k), amount_blinding: fe(5) }
                .share(&mut rng)
        })
        .collect();
    let mut tasks = Vec::new();
    for p in 0..3 {
        let mine: Vec<TransactionInput<FieldElement, ReplicatedShare>> = inputs.iter().map(|i| i[p]).collect();
        let mut st = state(p);
        tasks.push(ledgers[p].transaction_batched(&mine, &mut st).unwrap());
        assert_eq!(st.id(), [PartyID::ID0, PartyID::ID1, PartyID::ID2][p]);
        assert_eq!(ledgers[p].len(), 96 + 7);
    }
    let rebuild = |key: u64| {
        combine_field_element(
            ledgers[0].read(&fe(key)).unwrap().amount,
            ledgers[1].read(&fe(key)).unwrap().amount,
            ledgers[2].read(&fe(key)).unwrap().amount,
        )
    };
    for k in 0..96u64 {
        assert_eq!(rebuild(k), fe(1000));
    }
    let mut total = 0;
    for r in 0..7u64 {
        let expected: u64 = (0..96u64).filter(|k| k % 7 == r).sum();
        assert_eq!(rebuild(1000 + r), fe(expected));
        total += expected;
    }
    assert_eq!(total, 95 * 96 / 2);
    assert_eq!(batched_inputs(&tasks[0]).len(), 768);
    assert_eq!(batched_balance_values(&tasks[0]).len(), 960);
    assert_eq!(batched_commitment_inputs(&tasks[0], PartyID::ID0).len(), 960);
}

#[test]
fn a_batch_of_transfers_must_have_its_width_and_its_senders() {
    let mut ledger = Ledger::new();
    ledger.insert(fe(1), DepositValue::new(sh(100, 0), sh(0, 0)));
    let input = TransactionInput { sender_key: fe(1), receiver_key: fe(2), amount: sh(1, 0), amount_blinding: sh(0, 0) };
    let mut st = state(0);
    assert_eq!(ledger.transaction_batched(&vec![input; 95], &mut st), Err(ProcessError::MalformedBatch));
    assert_eq!(ledger.len(), 1);
    let mut inputs = vec![input; 96];
    inputs[10].sender_key = fe(3);
    assert_eq!(ledger.transaction_batched(&inputs, &mut st), Err(ProcessError::KeyNotFound));
    assert_eq!(ledger.read(&fe(1)).unwrap().amount, sh(90, 0));
    assert_eq!(ledger.read(&fe(2)).unwrap().amount, sh(10, 0));
}

#[test]
fn the_layout_of_the_slots() {
    let transfer = ActionTask::Transfer {
        sender_old: DepositValue::new(sh(10, 11), sh(12, 13)),
        receiver_old: Some(DepositValue::new(sh(20, 21), sh(22, 23))),
        sender_new: DepositValue::new(sh(30, 31), sh(32, 33)),
        receiver_new: DepositValue::new(sh(40, 41), sh(42, 43)),
        amount: sh(1, 2),
        amount_blinding: sh(3, 4),
    };
    assert_eq!(
        balance_values(&transfer),
        vec![sh(10, 11), sh(12, 13), sh(30, 31), sh(32, 33), sh(20, 21), sh(22, 23), sh(40, 41), sh(42, 43), sh(1, 2), sh(3, 4)]
    );
    assert!(balance_values(&ActionTask::Dummy).is_empty());
    let tasks = vec![ActionTask::Dummy, transfer, ActionTask::Dummy];
    let inputs = batched_inputs(&tasks);
    assert_eq!(inputs.len(), 24);
    assert_eq!(inputs[7], WitnessValue::Public(fe(0)));
    assert_eq!(inputs[8], WitnessValue::Shared(sh(10, 11)));
    assert_eq!(inputs[15], WitnessValue::Shared(sh(42, 43)));
    assert_eq!(inputs[16], WitnessValue::Public(fe(0)));
    assert_eq!(batched_balance_values(&tasks), balance_values(&transfer));
    let hashed = batched_commitment_inputs(&tasks, PartyID::ID1);
    assert_eq!(hashed, transfer.commitment_inputs(PartyID::ID1));
    assert_eq!(hashed[0], ReplicatedShare::new(fe(1), fe(2).add(fe(0xDEADBEEF))));
    assert_eq!(hashed[1], sh(3, 4));
    assert_eq!(hashed[2], ReplicatedShare::new(fe(10), fe(11).add(fe(0xDEADBEEF))));
}

#[test]
fn random_ledgers_have_their_size_and_small_amounts() {
    let mut rng = rand_chacha::ChaCha12Rng::from_seed([5u8; 32]);
    let ledger = TestConfig::get_random_plain_map(50, &mut rng).unwrap();
    assert_eq!(ledger.len(), 50);
    for value in ledger.values() {
        let limbs = value.amount.to_limbs();
        assert!(limbs[0] < u32::MAX as u64);
        assert_eq!(&limbs[1..], &[0, 0, 0]);
    }
    let mut again = rand_chacha::ChaCha12Rng::from_seed([5u8; 32]);
    assert_eq!(TestConfig::get_random_plain_map(50, &mut again).unwrap().inner(), ledger.inner());
    let key = TestConfig::get_random_map_key(&ledger, &mut rng).unwrap();
    assert!(ledger.contains_key(&key));
    let empty: PrivateDeposit<FieldElement, DepositValuePlain> = PrivateDeposit::new();
    assert_eq!(TestConfig::get_random_map_key(&empty, &mut rng), None);
    assert!(TestConfig::get_random_plain_map(0, &mut rng).unwrap().is_empty());
}
