//! The inputs of the circuits that take their inputs by name: which value
//! goes under which name, and for a batch under which index.

use crate::data_structure::{DepositValueShare, LedgerKey, PrivateDeposit};
use crate::field::FieldElement;
use crate::share::ReplicatedShare;
use crate::witness::{
    old_amount_witness, old_blinding_witness, WitnessValue, WitnessView,
};
use vstd::prelude::*;

verus! {

/// The name of an input of a circuit.
#[derive(Clone, Copy, Debug, PartialEq, Eq)]
pub enum CircomSignal {
    OldBalance,
    OldR,
    NewR,
    SenderOldBalance,
    SenderOldR,
    ReceiverOldBalance,
    ReceiverOldR,
    Amount,
    AmountR,
    SenderNewR,
    ReceiverNewR,
}

impl CircomSignal {
    /// The name as the circuit spells it.
    pub fn name(&self) -> (r: &'static str)
        ensures
            r@ == (match *self {
                CircomSignal::OldBalance => "old_balance"@,
                CircomSignal::OldR => "old_r"@,
                CircomSignal::NewR => "new_r"@,
                CircomSignal::SenderOldBalance => "sender_old_balance"@,
                CircomSignal::SenderOldR => "sender_old_r"@,
                CircomSignal::ReceiverOldBalance => "receiver_old_balance"@,
                CircomSignal::ReceiverOldR => "receiver_old_r"@,
                CircomSignal::Amount => "amount"@,
                CircomSignal::AmountR => "amount_r"@,
                CircomSignal::SenderNewR => "sender_new_r"@,
                CircomSignal::ReceiverNewR => "receiver_new_r"@,
            }),
    {
        match self {
            CircomSignal::OldBalance => "old_balance",
            CircomSignal::OldR => "old_r",
            CircomSignal::NewR => "new_r",
            CircomSignal::SenderOldBalance => "sender_old_balance",
            CircomSignal::SenderOldR => "sender_old_r",
            CircomSignal::ReceiverOldBalance => "receiver_old_balance",
            CircomSignal::ReceiverOldR => "receiver_old_r",
            CircomSignal::Amount => "amount",
            CircomSignal::AmountR => "amount_r",
            CircomSignal::SenderNewR => "sender_new_r",
            CircomSignal::ReceiverNewR => "receiver_new_r",
        }
    }
}

/// The views of named inputs.
pub open spec fn named_views(inputs: Seq<(CircomSignal, WitnessValue)>) -> Seq<
    (CircomSignal, WitnessView),
> {
    Seq::new(inputs.len(), |i: int| (inputs[i].0, inputs[i].1@))
}

/// The views of named inputs with an index.
pub open spec fn indexed_views(inputs: Seq<(CircomSignal, usize, WitnessValue)>) -> Seq<
    (CircomSignal, usize, WitnessView),
> {
    Seq::new(inputs.len(), |i: int| (inputs[i].0, inputs[i].1, inputs[i].2@))
}

/// The named inputs of a transfer in the slot with index `i`.
pub open spec fn indexed_transaction_input_spec(
    i: usize,
    sender_old: DepositValueShare,
    receiver_old: Option<DepositValueShare>,
    amount: ReplicatedShare,
    amount_blinding: ReplicatedShare,
    sender_new_blinding: ReplicatedShare,
    receiver_new_blinding: ReplicatedShare,
) -> Seq<(CircomSignal, usize, WitnessView)> {
    seq![
        (CircomSignal::SenderOldBalance, i, WitnessView::Shared(sender_old.amount@)),
        (CircomSignal::SenderOldR, i, WitnessView::Shared(sender_old.blinding@)),
        (CircomSignal::ReceiverOldBalance, i, old_amount_witness(receiver_old)),
        (CircomSignal::ReceiverOldR, i, old_blinding_witness(receiver_old)),
        (CircomSignal::Amount, i, WitnessView::Shared(amount@)),
        (CircomSignal::AmountR, i, WitnessView::Shared(amount_blinding@)),
        (CircomSignal::SenderNewR, i, WitnessView::Shared(sender_new_blinding@)),
        (CircomSignal::ReceiverNewR, i, WitnessView::Shared(receiver_new_blinding@)),
    ]
}

/// The amount and the blinding of a balance that may be absent, as witness
/// values: the shares that are there, or the public value 0.
fn old_witness_values(old_value: &Option<DepositValueShare>) -> (r: (WitnessValue, WitnessValue))
    ensures
        r.0@ == old_amount_witness(*old_value),
        r.1@ == old_blinding_witness(*old_value),
{
    match old_value {
        Some(value) => (WitnessValue::Shared(value.amount), WitnessValue::Shared(value.blinding)),
        None => (
            WitnessValue::Public(FieldElement::zero()),
            WitnessValue::Public(FieldElement::zero()),
        ),
    }
}

impl<K: LedgerKey> PrivateDeposit<K, DepositValueShare> {
    /// The named inputs of a deposit of a shared amount.
    pub fn get_deposit_circom_input(
        old_value: Option<DepositValueShare>,
        amount: ReplicatedShare,
        amount_blinding: ReplicatedShare,
        new_blinding: ReplicatedShare,
    ) -> (r: Vec<(CircomSignal, WitnessValue)>)
        ensures
            named_views(r@) == seq![
                (CircomSignal::OldBalance, old_amount_witness(old_value)),
                (CircomSignal::OldR, old_blinding_witness(old_value)),
                (CircomSignal::Amount, WitnessView::Shared(amount@)),
                (CircomSignal::AmountR, WitnessView::Shared(amount_blinding@)),
                (CircomSignal::NewR, WitnessView::Shared(new_blinding@)),
            ],
    {
        let (old_amount, old_blinding) = old_witness_values(&old_value);
        let mut inputs: Vec<(CircomSignal, WitnessValue)> = Vec::with_capacity(5);
        inputs.push((CircomSignal::OldBalance, old_amount));
        inputs.push((CircomSignal::OldR, old_blinding));
        inputs.push((CircomSignal::Amount, WitnessValue::Shared(amount)));
        inputs.push((CircomSignal::AmountR, WitnessValue::Shared(amount_blinding)));
        inputs.push((CircomSignal::NewR, WitnessValue::Shared(new_blinding)));
        assert(named_views(inputs@) =~= seq![
            (CircomSignal::OldBalance, old_amount_witness(old_value)),
            (CircomSignal::OldR, old_blinding_witness(old_value)),
            (CircomSignal::Amount, WitnessView::Shared(amount@)),
            (CircomSignal::AmountR, WitnessView::Shared(amount_blinding@)),
            (CircomSignal::NewR, WitnessView::Shared(new_blinding@)),
        ]);
        inputs
    }

    /// The named inputs of a transfer.
    pub fn get_transaction_circom_input(
        sender_old: DepositValueShare,
        receiver_old: Option<DepositValueShare>,
        amount: ReplicatedShare,
        amount_blinding: ReplicatedShare,
        sender_new_blinding: ReplicatedShare,
        receiver_new_blinding: ReplicatedShare,
    ) -> (r: Vec<(CircomSignal, WitnessValue)>)
        ensures
            named_views(r@) == seq![
                (CircomSignal::SenderOldBalance, WitnessView::Shared(sender_old.amount@)),
                (CircomSignal::SenderOldR, WitnessView::Shared(sender_old.blinding@)),
                (CircomSignal::ReceiverOldBalance, old_amount_witness(receiver_old)),
                (CircomSignal::ReceiverOldR, old_blinding_witness(receiver_old)),
                (CircomSignal::Amount, WitnessView::Shared(amount@)),
                (CircomSignal::AmountR, WitnessView::Shared(amount_blinding@)),
                (CircomSignal::SenderNewR, WitnessView::Shared(sender_new_blinding@)),
                (CircomSignal::ReceiverNewR, WitnessView::Shared(receiver_new_blinding@)),
            ],
    {
        let (old_amount, old_blinding) = old_witness_values(&receiver_old);
        let mut inputs: Vec<(CircomSignal, WitnessValue)> = Vec::with_capacity(8);
        inputs.push((CircomSignal::SenderOldBalance, WitnessValue::Shared(sender_old.amount)));
        inputs.push((CircomSignal::SenderOldR, WitnessValue::Shared(sender_old.blinding)));
        inputs.push((CircomSignal::ReceiverOldBalance, old_amount));
        inputs.push((CircomSignal::ReceiverOldR, old_blinding));
        inputs.push((CircomSignal::Amount, WitnessValue::Shared(amount)));
        inputs.push((CircomSignal::AmountR, WitnessValue::Shared(amount_blinding)));
        inputs.push((CircomSignal::SenderNewR, WitnessValue::Shared(sender_new_blinding)));
        inputs.push((CircomSignal::ReceiverNewR, WitnessValue::Shared(receiver_new_blinding)));
        assert(named_views(inputs@) =~= seq![
            (CircomSignal::SenderOldBalance, WitnessView::Shared(sender_old.amount@)),
            (CircomSignal::SenderOldR, WitnessView::Shared(sender_old.blinding@)),
            (CircomSignal::ReceiverOldBalance, old_amount_witness(receiver_old)),
            (CircomSignal::ReceiverOldR, old_blinding_witness(receiver_old)),
            (CircomSignal::Amount, WitnessView::Shared(amount@)),
            (CircomSignal::AmountR, WitnessView::Shared(amount_blinding@)),
            (CircomSignal::SenderNewR, WitnessView::Shared(sender_new_blinding@)),
            (CircomSignal::ReceiverNewR, WitnessView::Shared(receiver_new_blinding@)),
        ]);
        inputs
    }

    /// Adds the named inputs of the transfer in the slot with index `i` to
    /// the inputs of a batch.
    pub fn add_to_circom_transaction_input(
        i: usize,
        inputs: &mut Vec<(CircomSignal, usize, WitnessValue)>,
        sender_old: DepositValueShare,
        receiver_old: Option<DepositValueShare>,
        amount: ReplicatedShare,
        amount_blinding: ReplicatedShare,
        sender_new_blinding: ReplicatedShare,
        receiver_new_blinding: ReplicatedShare,
    )
        ensures
            indexed_views(final(inputs)@) == indexed_views(old(inputs)@)
                + indexed_transaction_input_spec(
                i,
                sender_old,
                receiver_old,
                amount,
                amount_blinding,
                sender_new_blinding,
                receiver_new_blinding,
            ),
    {
        let (old_amount, old_blinding) = old_witness_values(&receiver_old);
        inputs.push((CircomSignal::SenderOldBalance, i, WitnessValue::Shared(sender_old.amount)));
        inputs.push((CircomSignal::SenderOldR, i, WitnessValue::Shared(sender_old.blinding)));
        inputs.push((CircomSignal::ReceiverOldBalance, i, old_amount));
        inputs.push((CircomSignal::ReceiverOldR, i, old_blinding));
        inputs.push((CircomSignal::Amount, i, WitnessValue::Shared(amount)));
        inputs.push((CircomSignal::AmountR, i, WitnessValue::Shared(amount_blinding)));
        inputs.push((CircomSignal::SenderNewR, i, WitnessValue::Shared(sender_new_blinding)));
        inputs.push((CircomSignal::ReceiverNewR, i, WitnessValue::Shared(receiver_new_blinding)));
        assert(indexed_views(inputs@) =~= indexed_views(old(inputs)@)
            + indexed_transaction_input_spec(
            i,
            sender_old,
            receiver_old,
            amount,
            amount_blinding,
            sender_new_blinding,
            receiver_new_blinding,
        ));
    }
}

} // verus!
