use private_deposit::actionquery::{Action, ProcessError, NUM_ACTION_INPUTS, NUM_TRANSACTION_COMMITMENTS};
use private_deposit::commitment::{commit, DOMAIN_SEPARATOR};
use private_deposit::data_structure::{DepositValue, DepositValueShare, PrivateDeposit};
use private_deposit::field::FieldElement;
use private_deposit::share::{PartyID, ReplicatedShare};
use private_deposit::witness::{copy_trace, Trace, WitnessValue};

type Ledger = PrivateDeposit<FieldElement, DepositValueShare>;

fn fe(x: u64) -> FieldElement {
    FieldElement::from_u64(x)
}

fn sh(a: u64, b: u64) -> ReplicatedShare {
    ReplicatedShare::new(fe(a), fe(b))
}

fn public(x: u64) -> WitnessValue {
    WitnessValue::Public(fe(x))
}

fn trace(tag: u64) -> Trace {
    vec![public(tag), WitnessValue::Shared(sh(tag, tag + 1))]
}

fn entry(a: u64) -> DepositValueShare {
    DepositValue::new(sh(a, a + 1), sh(a + 2, a + 3))
}

#[test]
fn the_widths_of_a_slot() {
    assert_eq!(NUM_ACTION_INPUTS, 8);
    assert_eq!(NUM_TRANSACTION_COMMITMENTS, 5);
    assert_eq!(DOMAIN_SEPARATOR, 0xDEADBEEF);
}

#[test]
fn zero_commitment_is_the_commitment_to_zero() {
    assert_eq!(Ledger::zero_commitment(), commit(fe(0), fe(0)));
    assert_eq!(
        Ledger::zero_commitment().to_limbs(),
        [0xd1476ffa97361acb, 0xcb8cb6a33f5b027b, 0x9adc79d4a7638af3, 0x087f763a403ee410]
    );
}

#[test]
fn input_of_a_transfer_to_a_known_receiver() {
    let (inputs, old_amount, old_blinding) =
        Ledger::get_transaction_input(entry(10), Some(entry(20)), sh(1, 2), sh(3, 4), sh(5, 6), sh(7, 8));
    assert_eq!(
        inputs,
        vec![
            WitnessValue::Shared(sh(10, 11)),
            WitnessValue::Shared(sh(12, 13)),
            WitnessValue::Shared(sh(20, 21)),
            WitnessValue::Shared(sh(22, 23)),
            WitnessValue::Shared(sh(1, 2)),
            WitnessValue::Shared(sh(3, 4)),
            WitnessValue::Shared(sh(5, 6)),
            WitnessValue::Shared(sh(7, 8)),
        ]
    );
    assert_eq!(old_amount, sh(20, 21));
    assert_eq!(old_blinding, sh(22, 23));
}

#[test]
fn input_of_a_transfer_to_a_new_receiver() {
    let (inputs, old_amount, old_blinding) =
        Ledger::get_transaction_input(entry(10), None, sh(1, 2), sh(3, 4), sh(5, 6), sh(7, 8));
    assert_eq!(inputs[2], public(0));
    assert_eq!(inputs[3], public(0));
    assert_eq!(inputs.len(), 8);
    assert_eq!(old_amount, ReplicatedShare::zero_share());
    assert_eq!(old_blinding, ReplicatedShare::zero_share());
}

#[test]
fn input_of_a_public_deposit() {
    let (inputs, old_amount, _) =
        Ledger::get_deposit_input_public_amount(Some(entry(20)), fe(100), fe(0), sh(7, 8));
    assert_eq!(
        inputs,
        vec![
            public(100),
            public(0),
            WitnessValue::Shared(sh(20, 21)),
            WitnessValue::Shared(sh(22, 23)),
            public(100),
            public(0),
            public(0),
            WitnessValue::Shared(sh(7, 8)),
        ]
    );
    assert_eq!(old_amount, sh(20, 21));
    let (inputs, old_amount, old_blinding) =
        Ledger::get_deposit_input_public_amount(None, fe(100), fe(9), sh(7, 8));
    assert_eq!(inputs[1], public(9));
    assert_eq!(inputs[2], public(0));
    assert_eq!(inputs[3], public(0));
    assert_eq!(inputs[5], public(9));
    assert_eq!(old_amount, sh(0, 0));
    assert_eq!(old_blinding, sh(0, 0));
}

#[test]
fn input_of_a_public_withdrawal() {
    let inputs = Ledger::get_withdraw_input_public_amount(entry(10), fe(60), fe(0), sh(5, 6));
    assert_eq!(
        inputs,
        vec![
            WitnessValue::Shared(sh(10, 11)),
            WitnessValue::Shared(sh(12, 13)),
            public(0),
            public(0),
            public(60),
            public(0),
            WitnessValue::Shared(sh(5, 6)),
            public(0),
        ]
    );
}

#[test]
fn hash_inputs_of_a_transfer_get_the_separator_on_first_elements() {
    let ds = fe(0xDEADBEEF);
    let values = Ledger::transaction_commitment_inputs(
        entry(10),
        None,
        entry(30),
        entry(40),
        sh(1, 2),
        sh(3, 4),
        PartyID::ID0,
    );
    assert_eq!(
        values,
        vec![
            ReplicatedShare::new(fe(1).add(ds), fe(2)),
            sh(3, 4),
            ReplicatedShare::new(fe(10).add(ds), fe(11)),
            sh(12, 13),
            ReplicatedShare::new(fe(30).add(ds), fe(31)),
            sh(32, 33),
            ReplicatedShare::new(ds, fe(0)),
            sh(0, 0),
            ReplicatedShare::new(fe(40).add(ds), fe(41)),
            sh(42, 43),
        ]
    );
    let by_party1 = Ledger::balance_commitment_inputs(Some(entry(10)), entry(30), PartyID::ID1);
    assert_eq!(
        by_party1,
        vec![
            ReplicatedShare::new(fe(10), fe(11).add(ds)),
            sh(12, 13),
            ReplicatedShare::new(fe(30), fe(31).add(ds)),
            sh(32, 33),
        ]
    );
    let by_party2 = Ledger::balance_commitment_inputs(Some(entry(10)), entry(30), PartyID::ID2);
    assert_eq!(by_party2, vec![sh(10, 11), sh(12, 13), sh(30, 31), sh(32, 33)]);
    assert_eq!(
        Ledger::public_commitment_inputs(fe(100)),
        vec![fe(100).add(ds), fe(0), ds, fe(0)]
    );
}

#[test]
fn a_deposit_orders_its_traces() {
    let out = Ledger::process_deposit(
        None,
        entry(40),
        fe(100),
        vec![trace(1), trace(2)],
        vec![trace(11), trace(12)],
    )
    .unwrap();
    assert_eq!(out.0, DepositValue::new(sh(0, 0), sh(0, 0)));
    assert_eq!(out.1, entry(40));
    assert_eq!(out.2[0], public(100));
    assert_eq!(out.2[7], WitnessValue::Shared(sh(42, 43)));
    assert_eq!(out.3, vec![trace(11), trace(11), trace(12), trace(1), trace(2)]);
    assert!(out.4.is_empty());
    assert!(out.5.is_empty());
}

#[test]
fn a_withdrawal_orders_its_traces() {
    let decomp: Vec<ReplicatedShare> = (0..100).map(|i| sh(i, i)).collect();
    let out = Ledger::process_withdraw(
        entry(10),
        entry(30),
        fe(60),
        PartyID::ID1,
        vec![trace(1), trace(2)],
        vec![trace(11), trace(12)],
        decomp.clone(),
    )
    .unwrap();
    assert_eq!(out.0, entry(30));
    assert_eq!(out.1, DepositValue::new(sh(0, 60), sh(0, 0)));
    assert_eq!(out.2[4], public(60));
    assert_eq!(out.3, vec![trace(11), trace(1), trace(2), trace(12), trace(11)]);
    assert!(out.4.is_empty());
    assert_eq!(out.5, decomp);
}

#[test]
fn a_transfer_keeps_its_traces_and_parts_its_bits() {
    let composed: Vec<ReplicatedShare> = (0..164).map(|i| sh(i, i)).collect();
    let traces: Vec<Trace> = (0..5).map(trace).collect();
    let out = Ledger::process_transaction(
        entry(10),
        Some(entry(20)),
        entry(30),
        entry(40),
        sh(1, 2),
        sh(3, 4),
        traces.clone(),
        composed.clone(),
    )
    .unwrap();
    assert_eq!(out.0, entry(30));
    assert_eq!(out.1, entry(40));
    assert_eq!(out.2[6], WitnessValue::Shared(sh(32, 33)));
    assert_eq!(out.2[7], WitnessValue::Shared(sh(42, 43)));
    assert_eq!(out.3, traces);
    assert_eq!(out.4, composed[..64].to_vec());
    assert_eq!(out.5, composed[64..].to_vec());
}

#[test]
fn padding_is_all_zero() {
    let zero_trace = trace(77);
    let out = Ledger::process_dummy(&zero_trace).unwrap();
    assert_eq!(out.0, DepositValue::new(sh(0, 0), sh(0, 0)));
    assert_eq!(out.1, out.0);
    assert_eq!(out.2, vec![public(0); 8]);
    assert_eq!(out.3, vec![zero_trace.clone(); 5]);
    assert!(out.4.is_empty());
    assert!(out.5.is_empty());
    assert_eq!(copy_trace(&zero_trace), zero_trace);
}

#[test]
fn wrong_numbers_of_results_fail_the_slot() {
    let composed: Vec<ReplicatedShare> = (0..164).map(|i| sh(i, i)).collect();
    let traces: Vec<Trace> = (0..5).map(trace).collect();
    assert_eq!(
        Ledger::process_transaction(entry(1), None, entry(2), entry(3), sh(1, 2), sh(3, 4), traces[..4].to_vec(), composed.clone()),
        Err(ProcessError::PartyProcessingFailure)
    );
    assert_eq!(
        Ledger::process_transaction(entry(1), None, entry(2), entry(3), sh(1, 2), sh(3, 4), traces.clone(), composed[..100].to_vec()),
        Err(ProcessError::PartyProcessingFailure)
    );
    assert_eq!(
        Ledger::process_deposit(None, entry(2), fe(1), vec![trace(1)], vec![trace(2), trace(3)]),
        Err(ProcessError::PartyProcessingFailure)
    );
    assert_eq!(
        Ledger::process_deposit(None, entry(2), fe(1), vec![trace(1), trace(4)], vec![trace(2)]),
        Err(ProcessError::PartyProcessingFailure)
    );
    assert_eq!(
        Ledger::process_withdraw(entry(1), entry(2), fe(1), PartyID::ID0, vec![trace(1), trace(4)], vec![trace(2), trace(3)], composed[..99].to_vec()),
        Err(ProcessError::PartyProcessingFailure)
    );
}

#[test]
fn actions_compare_by_their_content() {
    let a: Action<u64> = Action::Deposit(1, fe(5));
    assert_eq!(a, Action::Deposit(1, fe(5)));
    assert_ne!(a, Action::Withdraw(1, fe(5)));
    assert_ne!(Action::<u64>::Dummy, Action::Invalid);
}
