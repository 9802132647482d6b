//! The actions of a batch, and what a party makes of one action: its input to
//! the circuit, the inputs of the commitment hashes, and, once the protocols
//! have run, the traces and range-proof witnesses in the order of the circuit.

use crate::commitment::{
    add_domain_separator, add_domain_separator_plain, element_views, separated_plain,
    separated_shares, share_views, zero_commitment_spec,
};
use crate::data_structure::{DepositValue, DepositValueShare, LedgerKey, PrivateDeposit};
use crate::field::FieldElement;
use crate::range::split_composed_for_transaction;
use crate::share::{trivial_share, PartyID, ReplicatedShare};
use crate::witness::{
    copy_trace, old_amount_share, old_amount_witness, old_blinding_share, old_blinding_witness,
    trace_views, witness_views, Trace, WitnessValue, WitnessView,
};
use vstd::prelude::*;

verus! {

/// The number of commitments that the circuit checks for one action: to the
/// amount, and to the sender's and the receiver's balance before and after.
pub const NUM_TRANSACTION_COMMITMENTS: usize = 5;

/// The number of values that one action puts into the circuit.
pub const NUM_ACTION_INPUTS: usize = 8;

/// One action of a batch.
#[derive(Clone, Copy, Debug, PartialEq, Eq)]
pub enum Action<K> {
    /// No action: a batch that holds one is refused.
    Invalid,
    /// The receiver and the public amount.
    Deposit(K, FieldElement),
    /// The sender and the public amount.
    Withdraw(K, FieldElement),
    /// The sender, the receiver, the party's share of the amount and its share
    /// of the blinding of the commitment to the amount.
    Transfer(K, K, ReplicatedShare, ReplicatedShare),
    /// Padding: nothing happens.
    Dummy,
}

/// What an action stands for: keys by their ordinal, values by their view.
pub enum ActionView {
    Invalid,
    Deposit(nat, nat),
    Withdraw(nat, nat),
    Transfer(nat, nat, (nat, nat), (nat, nat)),
    Dummy,
}

impl<K: LedgerKey> View for Action<K> {
    type V = ActionView;

    open spec fn view(&self) -> ActionView {
        match self {
            Action::Invalid => ActionView::Invalid,
            Action::Deposit(receiver, amount) => ActionView::Deposit(receiver.ordinal(), amount@),
            Action::Withdraw(sender, amount) => ActionView::Withdraw(sender.ordinal(), amount@),
            Action::Transfer(sender, receiver, amount, amount_blinding) => ActionView::Transfer(
                sender.ordinal(),
                receiver.ordinal(),
                amount@,
                amount_blinding@,
            ),
            Action::Dummy => ActionView::Dummy,
        }
    }
}

/// Why the processing of a batch failed. A batch is processed whole or not at
/// all: after any of these the ledger of the batch is to be discarded.
#[derive(Clone, Copy, Debug, PartialEq, Eq)]
pub enum ProcessError {
    /// A withdrawal or a transfer names a sender that has no balance.
    KeyNotFound,
    /// The batch, or what belongs to its slots, does not have the batch width.
    MalformedBatch,
    /// The batch holds an action that is none of deposit, withdrawal, transfer
    /// and padding.
    UnsupportedAction,
    /// The work on one slot failed, or handed back what it should not.
    PartyProcessingFailure,
    /// The proof backend could not prove.
    ProofGenerationFailure,
    /// The proof backend refused the proof.
    ProofVerificationFailure,
}

impl ProcessError {
    /// What went wrong, in words.
    pub fn message(&self) -> (r: &'static str)
        ensures
            r@ == (match *self {
                ProcessError::KeyNotFound => "Key not found in ledger"@,
                ProcessError::MalformedBatch => "Batch does not have the batch width"@,
                ProcessError::UnsupportedAction =>
                    "Unsupported action in batched transaction processing"@,
                ProcessError::PartyProcessingFailure =>
                    "Processing of a batch slot failed"@,
                ProcessError::ProofGenerationFailure => "Proof generation failed"@,
                ProcessError::ProofVerificationFailure => "Proof verification failed"@,
            }),
    {
        match self {
            ProcessError::KeyNotFound => "Key not found in ledger",
            ProcessError::MalformedBatch => "Batch does not have the batch width",
            ProcessError::UnsupportedAction =>
                "Unsupported action in batched transaction processing",
            ProcessError::PartyProcessingFailure => "Processing of a batch slot failed",
            ProcessError::ProofGenerationFailure => "Proof generation failed",
            ProcessError::ProofVerificationFailure => "Proof verification failed",
        }
    }
}

/// The result of one action: the sender's and the receiver's new balance, the
/// input to the circuit, the traces of the commitments, and the range-proof
/// witnesses of the amount and of the sender's new balance.
pub type ActionOutput = (
    DepositValueShare,
    DepositValueShare,
    Vec<WitnessValue>,
    Vec<Trace>,
    Vec<ReplicatedShare>,
    Vec<ReplicatedShare>,
);

/// The input of a transfer to the circuit.
pub open spec fn transaction_input_spec(
    sender_old: DepositValueShare,
    receiver_old: Option<DepositValueShare>,
    amount: ReplicatedShare,
    amount_blinding: ReplicatedShare,
    sender_new_blinding: ReplicatedShare,
    receiver_new_blinding: ReplicatedShare,
) -> Seq<WitnessView> {
    seq![
        WitnessView::Shared(sender_old.amount@),
        WitnessView::Shared(sender_old.blinding@),
        old_amount_witness(receiver_old),
        old_blinding_witness(receiver_old),
        WitnessView::Shared(amount@),
        WitnessView::Shared(amount_blinding@),
        WitnessView::Shared(sender_new_blinding@),
        WitnessView::Shared(receiver_new_blinding@),
    ]
}

/// The input of a deposit of a public amount to the circuit. The public
/// amount stands where a transfer has the sender's old balance, and the
/// public value 0 where it has the sender's new blinding.
pub open spec fn deposit_input_spec(
    receiver_old: Option<DepositValueShare>,
    amount: nat,
    amount_blinding: nat,
    receiver_new_blinding: ReplicatedShare,
) -> Seq<WitnessView> {
    seq![
        WitnessView::Public(amount),
        WitnessView::Public(amount_blinding),
        old_amount_witness(receiver_old),
        old_blinding_witness(receiver_old),
        WitnessView::Public(amount),
        WitnessView::Public(amount_blinding),
        WitnessView::Public(0),
        WitnessView::Shared(receiver_new_blinding@),
    ]
}

/// The input of a withdrawal of a public amount to the circuit. The public
/// value 0 stands where a transfer has the receiver's old balance and its new
/// blinding.
pub open spec fn withdraw_input_spec(
    sender_old: DepositValueShare,
    amount: nat,
    amount_blinding: nat,
    sender_new_blinding: ReplicatedShare,
) -> Seq<WitnessView> {
    seq![
        WitnessView::Shared(sender_old.amount@),
        WitnessView::Shared(sender_old.blinding@),
        WitnessView::Public(0),
        WitnessView::Public(0),
        WitnessView::Public(amount),
        WitnessView::Public(amount_blinding),
        WitnessView::Shared(sender_new_blinding@),
        WitnessView::Public(0),
    ]
}

/// The input of a padding slot to the circuit: the public value 0 in every
/// place.
pub open spec fn dummy_input_spec() -> Seq<WitnessView> {
    Seq::new(8, |i: int| WitnessView::Public(0))
}

/// The values that a party hashes for a transfer, pair by pair: the amount,
/// then the sender's and the receiver's balance before and after.
pub open spec fn transaction_commitment_values(
    sender_old: DepositValueShare,
    receiver_old: Option<DepositValueShare>,
    sender_new: DepositValueShare,
    receiver_new: DepositValueShare,
    amount: ReplicatedShare,
    amount_blinding: ReplicatedShare,
) -> Seq<(nat, nat)> {
    seq![
        amount@,
        amount_blinding@,
        sender_old.amount@,
        sender_old.blinding@,
        sender_new.amount@,
        sender_new.blinding@,
        old_amount_share(receiver_old),
        old_blinding_share(receiver_old),
        receiver_new.amount@,
        receiver_new.blinding@,
    ]
}

/// The values that a party hashes for an action that changes one balance:
/// that balance before and after.
pub open spec fn balance_commitment_values(
    old_value: Option<DepositValueShare>,
    new_value: DepositValueShare,
) -> Seq<(nat, nat)> {
    seq![
        old_amount_share(old_value),
        old_blinding_share(old_value),
        new_value.amount@,
        new_value.blinding@,
    ]
}

/// The values of the two public commitments of an action with a public
/// amount: to the amount under the blinding 0, and to 0 under the blinding 0.
pub open spec fn public_commitment_values(amount: nat) -> Seq<nat> {
    seq![amount, 0, 0, 0]
}

/// The amount and the blinding of a balance that may be absent, as shares.
fn old_shares(old_value: &Option<DepositValueShare>) -> (r: (ReplicatedShare, ReplicatedShare))
    ensures
        r.0@ == old_amount_share(*old_value),
        r.1@ == old_blinding_share(*old_value),
{
    match old_value {
        Some(value) => (value.amount, value.blinding),
        None => (ReplicatedShare::zero_share(), ReplicatedShare::zero_share()),
    }
}

/// The amount and the blinding of a balance that may be absent, as witness
/// values.
fn old_witnesses(old_value: &Option<DepositValueShare>) -> (r: (WitnessValue, WitnessValue))
    ensures
        r.0@ == old_amount_witness(*old_value),
        r.1@ == old_blinding_witness(*old_value),
{
    match old_value {
        Some(value) => (WitnessValue::Shared(value.amount), WitnessValue::Shared(value.blinding)),
        None => (
            WitnessValue::Public(FieldElement::zero()),
            WitnessValue::Public(FieldElement::zero()),
        ),
    }
}

impl<K: LedgerKey> PrivateDeposit<K, DepositValueShare> {
    /// The commitment to the amount 0 under the blinding 0.
    pub fn zero_commitment() -> (r: FieldElement)
        ensures
            r@ == zero_commitment_spec(),
    {
        FieldElement::from_limbs(
            [0xd1476ffa97361acb, 0xcb8cb6a33f5b027b, 0x9adc79d4a7638af3, 0x087f763a403ee410],
        ).unwrap()
    }

    /// The input of a transfer to the circuit, and the receiver's old amount
    /// and blinding as shares.
    pub fn get_transaction_input(
        sender_old: DepositValueShare,
        receiver_old: Option<DepositValueShare>,
        amount: ReplicatedShare,
        amount_blinding: ReplicatedShare,
        sender_new_blinding: ReplicatedShare,
        receiver_new_blinding: ReplicatedShare,
    ) -> (r: (Vec<WitnessValue>, ReplicatedShare, ReplicatedShare))
        ensures
            witness_views(r.0@) == transaction_input_spec(
                sender_old,
                receiver_old,
                amount,
                amount_blinding,
                sender_new_blinding,
                receiver_new_blinding,
            ),
            r.1@ == old_amount_share(receiver_old),
            r.2@ == old_blinding_share(receiver_old),
    {
        let (old_amount_input, old_blinding_input) = old_witnesses(&receiver_old);
        let (old_amount, old_blinding) = old_shares(&receiver_old);
        let mut inputs: Vec<WitnessValue> = Vec::with_capacity(8);
        inputs.push(WitnessValue::Shared(sender_old.amount));
        inputs.push(WitnessValue::Shared(sender_old.blinding));
        inputs.push(old_amount_input);
        inputs.push(old_blinding_input);
        inputs.push(WitnessValue::Shared(amount));
        inputs.push(WitnessValue::Shared(amount_blinding));
        inputs.push(WitnessValue::Shared(sender_new_blinding));
        inputs.push(WitnessValue::Shared(receiver_new_blinding));
        assert(witness_views(inputs@) =~= transaction_input_spec(
            sender_old,
            receiver_old,
            amount,
            amount_blinding,
            sender_new_blinding,
            receiver_new_blinding,
        ));
        (inputs, old_amount, old_blinding)
    }

    /// The input of a deposit of a public amount to the circuit, and the
    /// receiver's old amount and blinding as shares.
    pub fn get_deposit_input_public_amount(
        receiver_old: Option<DepositValueShare>,
        amount: FieldElement,
        amount_blinding: FieldElement,
        receiver_new_blinding: ReplicatedShare,
    ) -> (r: (Vec<WitnessValue>, ReplicatedShare, ReplicatedShare))
        ensures
            witness_views(r.0@) == deposit_input_spec(
                receiver_old,
                amount@,
                amount_blinding@,
                receiver_new_blinding,
            ),
            r.1@ == old_amount_share(receiver_old),
            r.2@ == old_blinding_share(receiver_old),
    {
        let (old_amount_input, old_blinding_input) = old_witnesses(&receiver_old);
        let (old_amount, old_blinding) = old_shares(&receiver_old);
        let mut inputs: Vec<WitnessValue> = Vec::with_capacity(8);
        inputs.push(WitnessValue::Public(amount));
        inputs.push(WitnessValue::Public(amount_blinding));
        inputs.push(old_amount_input);
        inputs.push(old_blinding_input);
        inputs.push(WitnessValue::Public(amount));
        inputs.push(WitnessValue::Public(amount_blinding));
        inputs.push(WitnessValue::Public(FieldElement::zero()));
        inputs.push(WitnessValue::Shared(receiver_new_blinding));
        assert(witness_views(inputs@) =~= deposit_input_spec(
            receiver_old,
            amount@,
            amount_blinding@,
            receiver_new_blinding,
        ));
        (inputs, old_amount, old_blinding)
    }

    /// The input of a withdrawal of a public amount to the circuit.
    pub fn get_withdraw_input_public_amount(
        sender_old: DepositValueShare,
        amount: FieldElement,
        amount_blinding: FieldElement,
        sender_new_blinding: ReplicatedShare,
    ) -> (r: Vec<WitnessValue>)
        ensures
            witness_views(r@) == withdraw_input_spec(
                sender_old,
                amount@,
                amount_blinding@,
                sender_new_blinding,
            ),
    {
        let mut inputs: Vec<WitnessValue> = Vec::with_capacity(8);
        inputs.push(WitnessValue::Shared(sender_old.amount));
        inputs.push(WitnessValue::Shared(sender_old.blinding));
        inputs.push(WitnessValue::Public(FieldElement::zero()));
        inputs.push(WitnessValue::Public(FieldElement::zero()));
        inputs.push(WitnessValue::Public(amount));
        inputs.push(WitnessValue::Public(amount_blinding));
        inputs.push(WitnessValue::Shared(sender_new_blinding));
        inputs.push(WitnessValue::Public(FieldElement::zero()));
        assert(witness_views(inputs@) =~= withdraw_input_spec(
            sender_old,
            amount@,
            amount_blinding@,
            sender_new_blinding,
        ));
        inputs
    }

    /// What party `id` hands to the hashing protocol for a transfer: its
    /// shares of the five pairs, with the domain separator added.
    pub fn transaction_commitment_inputs(
        sender_old: DepositValueShare,
        receiver_old: Option<DepositValueShare>,
        sender_new: DepositValueShare,
        receiver_new: DepositValueShare,
        amount: ReplicatedShare,
        amount_blinding: ReplicatedShare,
        id: PartyID,
    ) -> (r: Vec<ReplicatedShare>)
        ensures
            share_views(r@) == separated_shares(
                transaction_commitment_values(
                    sender_old,
                    receiver_old,
                    sender_new,
                    receiver_new,
                    amount,
                    amount_blinding,
                ),
                id,
            ),
    {
        let (old_amount, old_blinding) = old_shares(&receiver_old);
        let mut values: Vec<ReplicatedShare> = Vec::with_capacity(10);
        values.push(amount);
        values.push(amount_blinding);
        values.push(sender_old.amount);
        values.push(sender_old.blinding);
        values.push(sender_new.amount);
        values.push(sender_new.blinding);
        values.push(old_amount);
        values.push(old_blinding);
        values.push(receiver_new.amount);
        values.push(receiver_new.blinding);
        assert(share_views(values@) =~= transaction_commitment_values(
            sender_old,
            receiver_old,
            sender_new,
            receiver_new,
            amount,
            amount_blinding,
        ));
        add_domain_separator(&values, id)
    }

    /// What party `id` hands to the hashing protocol for an action that
    /// changes one balance: its shares of the balance before and after, with
    /// the domain separator added.
    pub fn balance_commitment_inputs(
        old_value: Option<DepositValueShare>,
        new_value: DepositValueShare,
        id: PartyID,
    ) -> (r: Vec<ReplicatedShare>)
        ensures
            share_views(r@) == separated_shares(
                balance_commitment_values(old_value, new_value),
                id,
            ),
    {
        let (old_amount, old_blinding) = old_shares(&old_value);
        let mut values: Vec<ReplicatedShare> = Vec::with_capacity(4);
        values.push(old_amount);
        values.push(old_blinding);
        values.push(new_value.amount);
        values.push(new_value.blinding);
        assert(share_views(values@) =~= balance_commitment_values(old_value, new_value));
        add_domain_separator(&values, id)
    }

    /// The inputs of the two public hashes of an action with a public amount,
    /// with the domain separator added.
    pub fn public_commitment_inputs(amount: FieldElement) -> (r: Vec<FieldElement>)
        ensures
            element_views(r@) == separated_plain(public_commitment_values(amount@)),
    {
        let mut values: Vec<FieldElement> = Vec::with_capacity(4);
        values.push(amount);
        values.push(FieldElement::zero());
        values.push(FieldElement::zero());
        values.push(FieldElement::zero());
        assert(element_views(values@) =~= public_commitment_values(amount@));
        add_domain_separator_plain(&values)
    }

    /// The result of a transfer, from what the protocols handed back: the
    /// traces of the five commitments, and the composed bits of the amount
    /// and of the sender's new balance. Fails where there are not five traces
    /// or not 164 composed bits.
    pub fn process_transaction(
        sender_old: DepositValueShare,
        receiver_old: Option<DepositValueShare>,
        sender_new: DepositValueShare,
        receiver_new: DepositValueShare,
        amount: ReplicatedShare,
        amount_blinding: ReplicatedShare,
        traces: Vec<Trace>,
        composed: Vec<ReplicatedShare>,
    ) -> (r: Result<ActionOutput, ProcessError>)
        ensures
            r.is_ok() == (traces@.len() == 5 && composed@.len() == 164),
            r.is_err() ==> r == Err::<ActionOutput, ProcessError>(
                ProcessError::PartyProcessingFailure,
            ),
            r.is_ok() ==> {
                let out = r.unwrap();
                &&& out.0 == sender_new
                &&& out.1 == receiver_new
                &&& witness_views(out.2@) == transaction_input_spec(
                    sender_old,
                    receiver_old,
                    amount,
                    amount_blinding,
                    sender_new.blinding,
                    receiver_new.blinding,
                )
                &&& out.3@ == traces@
                &&& out.4@ == composed@.take(64)
                &&& out.5@ == composed@.skip(64)
            },
    {
        if traces.len() != NUM_TRANSACTION_COMMITMENTS {
            return Err(ProcessError::PartyProcessingFailure);
        }
        let (decomp_amount, decomp_sender) = match split_composed_for_transaction(composed) {
            Some(parts) => parts,
            None => {
                return Err(ProcessError::PartyProcessingFailure);
            },
        };
        let (inputs, _, _) = Self::get_transaction_input(
            sender_old,
            receiver_old,
            amount,
            amount_blinding,
            sender_new.blinding,
            receiver_new.blinding,
        );
        Ok((sender_new, receiver_new, inputs, traces, decomp_amount, decomp_sender))
    }

    /// The result of a deposit, from what the hashing handed back: the traces
    /// of the commitments to the receiver's balance before and after, and the
    /// traces of the two public commitments. In the order of the circuit the
    /// commitment to the amount stands for the amount and for the sender's
    /// balance before, the commitment to 0 for the sender's balance after.
    /// Fails where there are not two traces of each.
    pub fn process_deposit(
        receiver_old: Option<DepositValueShare>,
        receiver_new: DepositValueShare,
        amount: FieldElement,
        shared_traces: Vec<Trace>,
        plain_traces: Vec<Trace>,
    ) -> (r: Result<ActionOutput, ProcessError>)
        ensures
            r.is_ok() == (shared_traces@.len() == 2 && plain_traces@.len() == 2),
            r.is_err() ==> r == Err::<ActionOutput, ProcessError>(
                ProcessError::PartyProcessingFailure,
            ),
            r.is_ok() ==> {
                let out = r.unwrap();
                &&& out.0@ == (DepositValue::<(nat, nat)> { amount: (0, 0), blinding: (0, 0) })
                &&& out.1 == receiver_new
                &&& witness_views(out.2@) == deposit_input_spec(
                    receiver_old,
                    amount@,
                    0,
                    receiver_new.blinding,
                )
                &&& trace_views(out.3@) == seq![
                    witness_views(plain_traces@[0]@),
                    witness_views(plain_traces@[0]@),
                    witness_views(plain_traces@[1]@),
                    witness_views(shared_traces@[0]@),
                    witness_views(shared_traces@[1]@),
                ]
                &&& out.4@.len() == 0
                &&& out.5@.len() == 0
            },
    {
        if shared_traces.len() != 2 || plain_traces.len() != 2 {
            return Err(ProcessError::PartyProcessingFailure);
        }
        let (inputs, _, _) = Self::get_deposit_input_public_amount(
            receiver_old,
            amount,
            FieldElement::zero(),
            receiver_new.blinding,
        );
        let sender_new = DepositValue::new(
            ReplicatedShare::zero_share(),
            ReplicatedShare::zero_share(),
        );
        let mut traces: Vec<Trace> = Vec::with_capacity(5);
        traces.push(copy_trace(&plain_traces[0]));
        traces.push(copy_trace(&plain_traces[0]));
        traces.push(copy_trace(&plain_traces[1]));
        traces.push(copy_trace(&shared_traces[0]));
        traces.push(copy_trace(&shared_traces[1]));
        assert(trace_views(traces@) =~= seq![
            witness_views(plain_traces@[0]@),
            witness_views(plain_traces@[0]@),
            witness_views(plain_traces@[1]@),
            witness_views(shared_traces@[0]@),
            witness_views(shared_traces@[1]@),
        ]);
        Ok((sender_new, receiver_new, inputs, traces, Vec::new(), Vec::new()))
    }

    /// The result of a withdrawal by party `id`, from what the protocols
    /// handed back: the traces of the commitments to the sender's balance
    /// before and after, the traces of the two public commitments, and the
    /// composed low 100 bits of the sender's new balance. In the order of the
    /// circuit the commitment to 0 stands for the receiver's balance before,
    /// the commitment to the amount for the amount and for the receiver's
    /// balance after. Fails where there are not two traces of each or not 100
    /// composed bits.
    pub fn process_withdraw(
        sender_old: DepositValueShare,
        sender_new: DepositValueShare,
        amount: FieldElement,
        id: PartyID,
        shared_traces: Vec<Trace>,
        plain_traces: Vec<Trace>,
        decomp_sender: Vec<ReplicatedShare>,
    ) -> (r: Result<ActionOutput, ProcessError>)
        ensures
            r.is_ok() == (shared_traces@.len() == 2 && plain_traces@.len() == 2
                && decomp_sender@.len() == 100),
            r.is_err() ==> r == Err::<ActionOutput, ProcessError>(
                ProcessError::PartyProcessingFailure,
            ),
            r.is_ok() ==> {
                let out = r.unwrap();
                &&& out.0 == sender_new
                &&& out.1@ == (DepositValue::<(nat, nat)> {
                    amount: trivial_share(id, amount@),
                    blinding: (0, 0),
                })
                &&& witness_views(out.2@) == withdraw_input_spec(
                    sender_old,
                    amount@,
                    0,
                    sender_new.blinding,
                )
                &&& trace_views(out.3@) == seq![
                    witness_views(plain_traces@[0]@),
                    witness_views(shared_traces@[0]@),
                    witness_views(shared_traces@[1]@),
                    witness_views(plain_traces@[1]@),
                    witness_views(plain_traces@[0]@),
                ]
                &&& out.4@.len() == 0
                &&& out.5@ == decomp_sender@
            },
    {
        if shared_traces.len() != 2 || plain_traces.len() != 2 || decomp_sender.len() != 100 {
            return Err(ProcessError::PartyProcessingFailure);
        }
        let inputs = Self::get_withdraw_input_public_amount(
            sender_old,
            amount,
            FieldElement::zero(),
            sender_new.blinding,
        );
        let receiver_new = DepositValue::new(
            ReplicatedShare::promote_to_trivial_share(id, amount),
            ReplicatedShare::zero_share(),
        );
        let mut traces: Vec<Trace> = Vec::with_capacity(5);
        traces.push(copy_trace(&plain_traces[0]));
        traces.push(copy_trace(&shared_traces[0]));
        traces.push(copy_trace(&shared_traces[1]));
        traces.push(copy_trace(&plain_traces[1]));
        traces.push(copy_trace(&plain_traces[0]));
        assert(trace_views(traces@) =~= seq![
            witness_views(plain_traces@[0]@),
            witness_views(shared_traces@[0]@),
            witness_views(shared_traces@[1]@),
            witness_views(plain_traces@[1]@),
            witness_views(plain_traces@[0]@),
        ]);
        Ok((sender_new, receiver_new, inputs, traces, Vec::new(), decomp_sender))
    }

    /// The result of a padding slot: balances and input of zeros, the trace of
    /// the commitment to zero in the place of each of the five commitments,
    /// and no range-proof witnesses.
    pub fn process_dummy(zero_trace: &Trace) -> (r: Result<ActionOutput, ProcessError>)
        ensures
            r.is_ok(),
            ({
                let out = r.unwrap();
                &&& out.0@ == (DepositValue::<(nat, nat)> { amount: (0, 0), blinding: (0, 0) })
                &&& out.1@ == out.0@
                &&& witness_views(out.2@) == dummy_input_spec()
                &&& trace_views(out.3@) == Seq::new(5, |i: int| witness_views(zero_trace@))
                &&& out.4@.len() == 0
                &&& out.5@.len() == 0
            }),
    {
        let zero = DepositValue::new(ReplicatedShare::zero_share(), ReplicatedShare::zero_share());
        let mut traces: Vec<Trace> = Vec::with_capacity(5);
        let mut inputs: Vec<WitnessValue> = Vec::with_capacity(8);
        let mut i: usize = 0;
        while i < 5
            invariant
                i <= 5,
                traces@.len() == i,
                forall|j: int| 0 <= j < i ==> (#[trigger] traces@[j])@ == zero_trace@,
            decreases 5 - i,
        {
            traces.push(copy_trace(zero_trace));
            i += 1;
        }
        let mut i: usize = 0;
        while i < 8
            invariant
                i <= 8,
                inputs@.len() == i,
                forall|j: int| 0 <= j < i ==> (#[trigger] inputs@[j])@ == WitnessView::Public(0),
            decreases 8 - i,
        {
            inputs.push(WitnessValue::Public(FieldElement::zero()));
            i += 1;
        }
        assert(witness_views(inputs@) =~= dummy_input_spec());
        assert(trace_views(traces@) =~= Seq::new(5, |i: int| witness_views(zero_trace@)));
        Ok((zero, zero, inputs, traces, Vec::new(), Vec::new()))
    }
}

} // verus!
