use private_deposit::data_structure::{DepositValue, DepositValueShare, PrivateDeposit};
use private_deposit::deposit::NUM_DEPOSIT_COMMITMENTS;
use private_deposit::field::FieldElement;
use private_deposit::share::ReplicatedShare;
use private_deposit::withdraw::NUM_WITHDRAW_COMMITMENTS;
use private_deposit::witness::WitnessValue;

type Ledger = PrivateDeposit<FieldElement, DepositValueShare>;

fn sh(a: u64, b: u64) -> ReplicatedShare {
    ReplicatedShare::new(FieldElement::from_u64(a), FieldElement::from_u64(b))
}

fn entry(a: u64) -> DepositValueShare {
    DepositValue::new(sh(a, a + 1), sh(a + 2, a + 3))
}

#[test]
fn a_single_deposit_is_laid_out() {
    assert_eq!(NUM_DEPOSIT_COMMITMENTS, 3);
    let (inputs, old_amount, old_blinding) = Ledger::get_deposit_input(Some(entry(10)), sh(1, 2), sh(3, 4), sh(5, 6));
    assert_eq!(
        inputs,
        vec![
            WitnessValue::Shared(sh(10, 11)),
            WitnessValue::Shared(sh(12, 13)),
            WitnessValue::Shared(sh(1, 2)),
            WitnessValue::Shared(sh(3, 4)),
            WitnessValue::Shared(sh(5, 6)),
        ]
    );
    assert_eq!((old_amount, old_blinding), (sh(10, 11), sh(12, 13)));
    let (inputs, old_amount, old_blinding) = Ledger::get_deposit_input(None, sh(1, 2), sh(3, 4), sh(5, 6));
    assert_eq!(inputs[0], WitnessValue::Public(FieldElement::zero()));
    assert_eq!(inputs[1], WitnessValue::Public(FieldElement::zero()));
    assert_eq!((old_amount, old_blinding), (sh(0, 0), sh(0, 0)));
    assert_eq!(
        Ledger::deposit_commitment_values(None, entry(30), sh(1, 2), sh(3, 4)),
        vec![sh(0, 0), sh(0, 0), sh(30, 31), sh(32, 33), sh(1, 2), sh(3, 4)]
    );
    assert_eq!(
        Ledger::deposit_trace_values(Some(entry(10)), entry(30), sh(1, 2), sh(3, 4)),
        vec![sh(1, 2), sh(3, 4), sh(10, 11), sh(12, 13), sh(30, 31), sh(32, 33)]
    );
}

#[test]
fn a_single_withdrawal_is_laid_out() {
    assert_eq!(NUM_WITHDRAW_COMMITMENTS, 3);
    assert_eq!(
        Ledger::get_withdraw_input(entry(10), sh(1, 2), sh(3, 4), sh(5, 6)),
        vec![
            WitnessValue::Shared(sh(10, 11)),
            WitnessValue::Shared(sh(12, 13)),
            WitnessValue::Shared(sh(1, 2)),
            WitnessValue::Shared(sh(3, 4)),
            WitnessValue::Shared(sh(5, 6)),
        ]
    );
    assert_eq!(
        Ledger::withdraw_commitment_values(entry(10), entry(30), sh(1, 2), sh(3, 4)),
        vec![sh(10, 11), sh(12, 13), sh(30, 31), sh(32, 33), sh(1, 2), sh(3, 4)]
    );
    assert_eq!(
        Ledger::withdraw_trace_values(entry(10), entry(30), sh(1, 2), sh(3, 4)),
        vec![sh(1, 2), sh(3, 4), sh(10, 11), sh(12, 13), sh(30, 31), sh(32, 33)]
    );
}
