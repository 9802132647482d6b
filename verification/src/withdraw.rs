//! A single withdrawal of a shared amount: what goes into its circuit and
//! what is hashed for it.

use crate::commitment::share_views;
use crate::data_structure::{DepositValueShare, LedgerKey, PrivateDeposit};
use crate::share::ReplicatedShare;
use crate::witness::{witness_views, WitnessValue, WitnessView};
use vstd::prelude::*;

verus! {

/// The number of commitments of a withdrawal: to the balance before and
/// after, and to the amount.
pub const NUM_WITHDRAW_COMMITMENTS: usize = 3;

impl<K: LedgerKey> PrivateDeposit<K, DepositValueShare> {
    /// The input of a withdrawal of a shared amount to its circuit.
    pub fn get_withdraw_input(
        old_value: DepositValueShare,
        amount: ReplicatedShare,
        amount_blinding: ReplicatedShare,
        new_blinding: ReplicatedShare,
    ) -> (r: Vec<WitnessValue>)
        ensures
            witness_views(r@) == seq![
                WitnessView::Shared(old_value.amount@),
                WitnessView::Shared(old_value.blinding@),
                WitnessView::Shared(amount@),
                WitnessView::Shared(amount_blinding@),
                WitnessView::Shared(new_blinding@),
            ],
    {
        let mut inputs: Vec<WitnessValue> = Vec::with_capacity(5);
        inputs.push(WitnessValue::Shared(old_value.amount));
        inputs.push(WitnessValue::Shared(old_value.blinding));
        inputs.push(WitnessValue::Shared(amount));
        inputs.push(WitnessValue::Shared(amount_blinding));
        inputs.push(WitnessValue::Shared(new_blinding));
        assert(witness_views(inputs@) =~= seq![
            WitnessView::Shared(old_value.amount@),
            WitnessView::Shared(old_value.blinding@),
            WitnessView::Shared(amount@),
            WitnessView::Shared(amount_blinding@),
            WitnessView::Shared(new_blinding@),
        ]);
        inputs
    }

    /// The pairs to commit to for a withdrawal, in the order of the
    /// commitments that are handed out: the balance before, the balance
    /// after, the amount.
    pub fn withdraw_commitment_values(
        old_value: DepositValueShare,
        new_value: DepositValueShare,
        amount: ReplicatedShare,
        amount_blinding: ReplicatedShare,
    ) -> (r: Vec<ReplicatedShare>)
        ensures
            share_views(r@) == seq![
                old_value.amount@,
                old_value.blinding@,
                new_value.amount@,
                new_value.blinding@,
                amount@,
                amount_blinding@,
            ],
    {
        let mut values: Vec<ReplicatedShare> = Vec::with_capacity(6);
        values.push(old_value.amount);
        values.push(old_value.blinding);
        values.push(new_value.amount);
        values.push(new_value.blinding);
        values.push(amount);
        values.push(amount_blinding);
        assert(share_views(values@) =~= seq![
            old_value.amount@,
            old_value.blinding@,
            new_value.amount@,
            new_value.blinding@,
            amount@,
            amount_blinding@,
        ]);
        values
    }

    /// The pairs to hash for the circuit of a withdrawal, in the order of its
    /// hash gadgets: the amount, the balance before, the balance after.
    pub fn withdraw_trace_values(
        old_value: DepositValueShare,
        new_value: DepositValueShare,
        amount: ReplicatedShare,
        amount_blinding: ReplicatedShare,
    ) -> (r: Vec<ReplicatedShare>)
        ensures
            share_views(r@) == seq![
                amount@,
                amount_blinding@,
                old_value.amount@,
                old_value.blinding@,
                new_value.amount@,
                new_value.blinding@,
            ],
    {
        let mut values: Vec<ReplicatedShare> = Vec::with_capacity(6);
        values.push(amount);
        values.push(amount_blinding);
        values.push(old_value.amount);
        values.push(old_value.blinding);
        values.push(new_value.amount);
        values.push(new_value.blinding);
        assert(share_views(values@) =~= seq![
            amount@,
            amount_blinding@,
            old_value.amount@,
            old_value.blinding@,
            new_value.amount@,
            new_value.blinding@,
        ]);
        values
    }
}

} // verus!
