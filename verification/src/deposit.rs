//! A single deposit of a shared amount: what goes into its circuit and what
//! is hashed for it.

use crate::commitment::share_views;
use crate::data_structure::{DepositValueShare, LedgerKey, PrivateDeposit};
use crate::share::ReplicatedShare;
use crate::witness::{
    old_amount_share, old_amount_witness, old_blinding_share, old_blinding_witness, witness_views,
    WitnessValue, WitnessView,
};
use vstd::prelude::*;

verus! {

/// The number of commitments of a deposit: to the balance before and after,
/// and to the amount.
pub const NUM_DEPOSIT_COMMITMENTS: usize = 3;

/// The input of a deposit of a shared amount to its circuit.
pub open spec fn single_deposit_input_spec(
    old_value: Option<DepositValueShare>,
    amount: ReplicatedShare,
    amount_blinding: ReplicatedShare,
    new_blinding: ReplicatedShare,
) -> Seq<WitnessView> {
    seq![
        old_amount_witness(old_value),
        old_blinding_witness(old_value),
        WitnessView::Shared(amount@),
        WitnessView::Shared(amount_blinding@),
        WitnessView::Shared(new_blinding@),
    ]
}

impl<K: LedgerKey> PrivateDeposit<K, DepositValueShare> {
    /// The input of a deposit of a shared amount to its circuit, and the old
    /// amount and blinding as shares.
    pub fn get_deposit_input(
        old_value: Option<DepositValueShare>,
        amount: ReplicatedShare,
        amount_blinding: ReplicatedShare,
        new_blinding: ReplicatedShare,
    ) -> (r: (Vec<WitnessValue>, ReplicatedShare, ReplicatedShare))
        ensures
            witness_views(r.0@) == single_deposit_input_spec(
                old_value,
                amount,
                amount_blinding,
                new_blinding,
            ),
            r.1@ == old_amount_share(old_value),
            r.2@ == old_blinding_share(old_value),
    {
        let mut inputs: Vec<WitnessValue> = Vec::with_capacity(5);
        let (old_amount, old_blinding) = match old_value {
            Some(value) => {
                inputs.push(WitnessValue::Shared(value.amount));
                inputs.push(WitnessValue::Shared(value.blinding));
                (value.amount, value.blinding)
            },
            None => {
                inputs.push(WitnessValue::Public(crate::field::FieldElement::zero()));
                inputs.push(WitnessValue::Public(crate::field::FieldElement::zero()));
                (ReplicatedShare::zero_share(), ReplicatedShare::zero_share())
            },
        };
        inputs.push(WitnessValue::Shared(amount));
        inputs.push(WitnessValue::Shared(amount_blinding));
        inputs.push(WitnessValue::Shared(new_blinding));
        assert(witness_views(inputs@) =~= single_deposit_input_spec(
            old_value,
            amount,
            amount_blinding,
            new_blinding,
        ));
        (inputs, old_amount, old_blinding)
    }

    /// The pairs to commit to for a deposit, in the order of the commitments
    /// that are handed out: the balance before, the balance after, the amount.
    pub fn deposit_commitment_values(
        old_value: Option<DepositValueShare>,
        new_value: DepositValueShare,
        amount: ReplicatedShare,
        amount_blinding: ReplicatedShare,
    ) -> (r: Vec<ReplicatedShare>)
        ensures
            share_views(r@) == seq![
                old_amount_share(old_value),
                old_blinding_share(old_value),
                new_value.amount@,
                new_value.blinding@,
                amount@,
                amount_blinding@,
            ],
    {
        let (old_amount, old_blinding) = match old_value {
            Some(value) => (value.amount, value.blinding),
            None => (ReplicatedShare::zero_share(), ReplicatedShare::zero_share()),
        };
        let mut values: Vec<ReplicatedShare> = Vec::with_capacity(6);
        values.push(old_amount);
        values.push(old_blinding);
        values.push(new_value.amount);
        values.push(new_value.blinding);
        values.push(amount);
        values.push(amount_blinding);
        assert(share_views(values@) =~= seq![
            old_amount_share(old_value),
            old_blinding_share(old_value),
            new_value.amount@,
            new_value.blinding@,
            amount@,
            amount_blinding@,
        ]);
        values
    }

    /// The pairs to hash for the circuit of a deposit, in the order of its
    /// hash gadgets: the amount, the balance before, the balance after.
    pub fn deposit_trace_values(
        old_value: Option<DepositValueShare>,
        new_value: DepositValueShare,
        amount: ReplicatedShare,
        amount_blinding: ReplicatedShare,
    ) -> (r: Vec<ReplicatedShare>)
        ensures
            share_views(r@) == seq![
                amount@,
                amount_blinding@,
                old_amount_share(old_value),
                old_blinding_share(old_value),
                new_value.amount@,
                new_value.blinding@,
            ],
    {
        let (old_amount, old_blinding) = match old_value {
            Some(value) => (value.amount, value.blinding),
            None => (ReplicatedShare::zero_share(), ReplicatedShare::zero_share()),
        };
        let mut values: Vec<ReplicatedShare> = Vec::with_capacity(6);
        values.push(amount);
        values.push(amount_blinding);
        values.push(old_amount);
        values.push(old_blinding);
        values.push(new_value.amount);
        values.push(new_value.blinding);
        assert(share_views(values@) =~= seq![
            amount@,
            amount_blinding@,
            old_amount_share(old_value),
            old_blinding_share(old_value),
            new_value.amount@,
            new_value.blinding@,
        ]);
        values
    }
}

} // verus!
