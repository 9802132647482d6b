//! What is left to do for one slot of a batch once the ledger was changed:
//! which values go into the circuit, which are hashed, which are cut to bits,
//! and how the results of the protocols are put in the order of the circuit.

use crate::actionquery::{
    balance_commitment_values, deposit_input_spec, dummy_input_spec, public_commitment_values,
    transaction_commitment_values, transaction_input_spec, withdraw_input_spec, ActionOutput,
    ProcessError,
};
use crate::commitment::{
    add_domain_separator_plain, element_views, separated_plain, separated_shares, share_views,
};
use crate::data_structure::{DepositValue, DepositValueShare, PrivateDeposit};
use crate::field::FieldElement;
use crate::range::{
    bit_shares_spec, decompose_for_transaction, decompose_for_withdraw, digits_value, BinaryShare,
    BitShare,
};
use crate::share::{trivial_share, PartyID, ReplicatedShare};
use crate::witness::{trace_views, witness_views, Trace, WitnessValue, WitnessView};
use vstd::prelude::*;

verus! {

/// What is left to do for one slot once the ledger was changed: the balances
/// before and after, for the hashing and the range proofs.
#[derive(Clone, Copy, Debug, PartialEq, Eq)]
pub enum ActionTask {
    Transfer {
        sender_old: DepositValueShare,
        receiver_old: Option<DepositValueShare>,
        sender_new: DepositValueShare,
        receiver_new: DepositValueShare,
        amount: ReplicatedShare,
        amount_blinding: ReplicatedShare,
    },
    Deposit {
        receiver_old: Option<DepositValueShare>,
        receiver_new: DepositValueShare,
        amount: FieldElement,
    },
    Withdraw { sender_old: DepositValueShare, sender_new: DepositValueShare, amount: FieldElement },
    Dummy,
}

/// The fresh blindings that went into the ledger for a slot: the sender's and
/// the receiver's for a transfer, one for a deposit or a withdrawal.
pub open spec fn task_blindings(task: ActionTask) -> ((nat, nat), (nat, nat)) {
    match task {
        ActionTask::Transfer { sender_new, receiver_new, .. } => (
            sender_new.blinding@,
            receiver_new.blinding@,
        ),
        ActionTask::Deposit { receiver_new, .. } => (receiver_new.blinding@, (0, 0)),
        ActionTask::Withdraw { sender_new, .. } => (sender_new.blinding@, (0, 0)),
        ActionTask::Dummy => ((0, 0), (0, 0)),
    }
}

/// The ledger type whose functions do the work on a slot. The key type plays
/// no part in them.
type Ledger = PrivateDeposit<u64, DepositValueShare>;

/// The input of a slot to the circuit.
pub open spec fn task_input_spec(task: ActionTask) -> Seq<WitnessView> {
    match task {
        ActionTask::Transfer {
            sender_old,
            receiver_old,
            sender_new,
            receiver_new,
            amount,
            amount_blinding,
        } => transaction_input_spec(
            sender_old,
            receiver_old,
            amount,
            amount_blinding,
            sender_new.blinding,
            receiver_new.blinding,
        ),
        ActionTask::Deposit { receiver_old, receiver_new, amount } => deposit_input_spec(
            receiver_old,
            amount@,
            0,
            receiver_new.blinding,
        ),
        ActionTask::Withdraw { sender_old, sender_new, amount } => withdraw_input_spec(
            sender_old,
            amount@,
            0,
            sender_new.blinding,
        ),
        ActionTask::Dummy => dummy_input_spec(),
    }
}

/// The shares that a party hashes for a slot, pair by pair, before the
/// domain separator is added: five pairs for a transfer, the balance before
/// and after for a deposit or a withdrawal, none for padding.
pub open spec fn task_commitment_values(task: ActionTask) -> Seq<(nat, nat)> {
    match task {
        ActionTask::Transfer {
            sender_old,
            receiver_old,
            sender_new,
            receiver_new,
            amount,
            amount_blinding,
        } => transaction_commitment_values(
            sender_old,
            receiver_old,
            sender_new,
            receiver_new,
            amount,
            amount_blinding,
        ),
        ActionTask::Deposit { receiver_old, receiver_new, .. } => balance_commitment_values(
            receiver_old,
            receiver_new,
        ),
        ActionTask::Withdraw { sender_old, sender_new, .. } => balance_commitment_values(
            Some(sender_old),
            sender_new,
        ),
        ActionTask::Dummy => Seq::empty(),
    }
}

/// The public values that are hashed for a slot, pair by pair, before the
/// domain separator is added: the amount under the blinding 0 and 0 under the
/// blinding 0 for a deposit or a withdrawal, 0 under the blinding 0 for
/// padding, none for a transfer.
pub open spec fn task_public_values(task: ActionTask) -> Seq<nat> {
    match task {
        ActionTask::Transfer { .. } => Seq::empty(),
        ActionTask::Deposit { amount, .. } => public_commitment_values(amount@),
        ActionTask::Withdraw { amount, .. } => public_commitment_values(amount@),
        ActionTask::Dummy => seq![0nat, 0nat],
    }
}

/// The shares that are cut to bits for the range proofs of a slot: the
/// amount and the sender's new balance for a transfer, the sender's new
/// balance for a withdrawal.
pub open spec fn task_range_values(task: ActionTask) -> Seq<(nat, nat)> {
    match task {
        ActionTask::Transfer { sender_new, amount, .. } => seq![amount@, sender_new.amount@],
        ActionTask::Withdraw { sender_new, .. } => seq![sender_new.amount@],
        _ => Seq::empty(),
    }
}

/// The number of composed bits that the range proofs of a slot take.
pub open spec fn task_range_bits(task: ActionTask) -> nat {
    match task {
        ActionTask::Transfer { .. } => 164,
        ActionTask::Withdraw { .. } => 100,
        _ => 0,
    }
}

/// The number of traces of shared hashes and of public hashes that a slot
/// takes.
pub open spec fn task_trace_counts(task: ActionTask) -> (nat, nat) {
    match task {
        ActionTask::Transfer { .. } => (5, 0),
        ActionTask::Deposit { .. } => (2, 2),
        ActionTask::Withdraw { .. } => (2, 2),
        ActionTask::Dummy => (0, 1),
    }
}

/// The traces of a slot in the order of the circuit: the commitment to the
/// amount, to the sender's balance before and after, and to the receiver's
/// balance before and after. Where the amount is public, the public
/// commitments stand for the side that has no balance.
pub open spec fn task_traces_spec(
    task: ActionTask,
    shared_traces: Seq<Seq<WitnessView>>,
    plain_traces: Seq<Seq<WitnessView>>,
) -> Seq<Seq<WitnessView>> {
    match task {
        ActionTask::Transfer { .. } => shared_traces,
        ActionTask::Deposit { .. } => seq![
            plain_traces[0],
            plain_traces[0],
            plain_traces[1],
            shared_traces[0],
            shared_traces[1],
        ],
        ActionTask::Withdraw { .. } => seq![
            plain_traces[0],
            shared_traces[0],
            shared_traces[1],
            plain_traces[1],
            plain_traces[0],
        ],
        ActionTask::Dummy => Seq::new(5, |i: int| plain_traces[0]),
    }
}

/// The new balances that a slot reports for the sender and for the receiver.
/// The side that has no balance reports zeros, but for the receiver of a
/// withdrawal, which reports the party's trivial share of the amount.
pub open spec fn task_updates_spec(task: ActionTask, id: PartyID) -> (
    DepositValue<(nat, nat)>,
    DepositValue<(nat, nat)>,
) {
    let zero = DepositValue::<(nat, nat)> { amount: (0, 0), blinding: (0, 0) };
    match task {
        ActionTask::Transfer { sender_new, receiver_new, .. } => (sender_new@, receiver_new@),
        ActionTask::Deposit { receiver_new, .. } => (zero, receiver_new@),
        ActionTask::Withdraw { sender_new, amount, .. } => (
            sender_new@,
            DepositValue::<(nat, nat)> { amount: trivial_share(id, amount@), blinding: (0, 0) },
        ),
        ActionTask::Dummy => (zero, zero),
    }
}

impl ActionTask {
    /// The input of the slot to the circuit.
    pub fn inputs(&self) -> (r: Vec<WitnessValue>)
        ensures
            witness_views(r@) == task_input_spec(*self),
    {
        match self {
            ActionTask::Transfer {
                sender_old,
                receiver_old,
                sender_new,
                receiver_new,
                amount,
                amount_blinding,
            } => {
                let (inputs, _, _) = Ledger::get_transaction_input(
                    *sender_old,
                    *receiver_old,
                    *amount,
                    *amount_blinding,
                    sender_new.blinding,
                    receiver_new.blinding,
                );
                inputs
            },
            ActionTask::Deposit { receiver_old, receiver_new, amount } => {
                let (inputs, _, _) = Ledger::get_deposit_input_public_amount(
                    *receiver_old,
                    *amount,
                    FieldElement::zero(),
                    receiver_new.blinding,
                );
                inputs
            },
            ActionTask::Withdraw { sender_old, sender_new, amount } => {
                Ledger::get_withdraw_input_public_amount(
                    *sender_old,
                    *amount,
                    FieldElement::zero(),
                    sender_new.blinding,
                )
            },
            ActionTask::Dummy => {
                let mut inputs: Vec<WitnessValue> = Vec::with_capacity(8);
                let mut i: usize = 0;
                while i < 8
                    invariant
                        i <= 8,
                        inputs@.len() == i,
                        forall|j: int|
                            0 <= j < i ==> (#[trigger] inputs@[j])@ == WitnessView::Public(0),
                    decreases 8 - i,
                {
                    inputs.push(WitnessValue::Public(FieldElement::zero()));
                    i += 1;
                }
                assert(witness_views(inputs@) =~= dummy_input_spec());
                inputs
            },
        }
    }

    /// What party `id` hands to the hashing protocol for the slot: its shares
    /// of the pairs to hash, with the domain separator added.
    pub fn commitment_inputs(&self, id: PartyID) -> (r: Vec<ReplicatedShare>)
        ensures
            share_views(r@) == separated_shares(task_commitment_values(*self), id),
    {
        match self {
            ActionTask::Transfer {
                sender_old,
                receiver_old,
                sender_new,
                receiver_new,
                amount,
                amount_blinding,
            } => Ledger::transaction_commitment_inputs(
                *sender_old,
                *receiver_old,
                *sender_new,
                *receiver_new,
                *amount,
                *amount_blinding,
                id,
            ),
            ActionTask::Deposit { receiver_old, receiver_new, .. } => {
                Ledger::balance_commitment_inputs(*receiver_old, *receiver_new, id)
            },
            ActionTask::Withdraw { sender_old, sender_new, .. } => {
                Ledger::balance_commitment_inputs(Some(*sender_old), *sender_new, id)
            },
            ActionTask::Dummy => {
                let inputs: Vec<ReplicatedShare> = Vec::new();
                assert(share_views(inputs@) =~= separated_shares(Seq::empty(), id));
                inputs
            },
        }
    }

    /// The inputs of the public hashes of the slot, with the domain separator
    /// added.
    pub fn public_commitment_inputs(&self) -> (r: Vec<FieldElement>)
        ensures
            element_views(r@) == separated_plain(task_public_values(*self)),
    {
        match self {
            ActionTask::Transfer { .. } => {
                let inputs: Vec<FieldElement> = Vec::new();
                assert(element_views(inputs@) =~= separated_plain(Seq::empty()));
                inputs
            },
            ActionTask::Deposit { amount, .. } => Ledger::public_commitment_inputs(*amount),
            ActionTask::Withdraw { amount, .. } => Ledger::public_commitment_inputs(*amount),
            ActionTask::Dummy => {
                let mut values: Vec<FieldElement> = Vec::with_capacity(2);
                values.push(FieldElement::zero());
                values.push(FieldElement::zero());
                assert(element_views(values@) =~= seq![0nat, 0nat]);
                add_domain_separator_plain(&values)
            },
        }
    }

    /// The shares that are to be converted to binary form for the range
    /// proofs of the slot.
    pub fn range_inputs(&self) -> (r: Vec<ReplicatedShare>)
        ensures
            share_views(r@) == task_range_values(*self),
    {
        let mut values: Vec<ReplicatedShare> = Vec::new();
        match self {
            ActionTask::Transfer { sender_new, amount, .. } => {
                values.push(*amount);
                values.push(sender_new.amount);
            },
            ActionTask::Withdraw { sender_new, .. } => {
                values.push(sender_new.amount);
            },
            _ => {},
        }
        assert(share_views(values@) =~= task_range_values(*self));
        values
    }

    /// The bits to compose for the range proofs of the slot, from the binary
    /// forms of its range inputs: the low 64 bits of the amount and the low
    /// 100 bits of the sender's new balance for a transfer, the low 100 bits
    /// of the sender's new balance for a withdrawal. `None` where the number
    /// of binary forms is not the number of range inputs.
    pub fn range_bits(&self, binary: &Vec<BinaryShare>) -> (r: Option<Vec<BitShare>>)
        ensures
            r.is_some() == (binary@.len() == task_range_values(*self).len()),
            r.is_some() ==> r.unwrap()@ == (match *self {
                ActionTask::Transfer { .. } => bit_shares_spec(
                    digits_value(binary@[0].a@),
                    digits_value(binary@[0].b@),
                    64,
                ) + bit_shares_spec(
                    digits_value(binary@[1].a@),
                    digits_value(binary@[1].b@),
                    100,
                ),
                ActionTask::Withdraw { .. } => bit_shares_spec(
                    digits_value(binary@[0].a@),
                    digits_value(binary@[0].b@),
                    100,
                ),
                _ => Seq::<BitShare>::empty(),
            }),
    {
        match self {
            ActionTask::Transfer { .. } => {
                if binary.len() != 2 {
                    return None;
                }
                Some(decompose_for_transaction(&binary[0], &binary[1]))
            },
            ActionTask::Withdraw { .. } => {
                if binary.len() != 1 {
                    return None;
                }
                Some(decompose_for_withdraw(&binary[0]))
            },
            _ => {
                if binary.len() != 0 {
                    return None;
                }
                Some(Vec::new())
            },
        }
    }

    /// The result of the slot for party `id`, from what the protocols handed
    /// back: the traces of the shared hashes, the traces of the public hashes
    /// and the composed bits. Fails where their numbers are not those that the
    /// slot takes.
    pub fn finish(
        self,
        id: PartyID,
        shared_traces: Vec<Trace>,
        plain_traces: Vec<Trace>,
        composed: Vec<ReplicatedShare>,
    ) -> (r: Result<ActionOutput, ProcessError>)
        ensures
            r.is_ok() == (shared_traces@.len() == task_trace_counts(self).0 && plain_traces@.len()
                == task_trace_counts(self).1 && composed@.len() == task_range_bits(self)),
            r.is_err() ==> r == Err::<ActionOutput, ProcessError>(
                ProcessError::PartyProcessingFailure,
            ),
            r.is_ok() ==> {
                let out = r.unwrap();
                &&& (out.0@, out.1@) == task_updates_spec(self, id)
                &&& witness_views(out.2@) == task_input_spec(self)
                &&& trace_views(out.3@) == task_traces_spec(
                    self,
                    trace_views(shared_traces@),
                    trace_views(plain_traces@),
                )
                &&& out.4@ == (if self is Transfer {
                    composed@.take(64)
                } else {
                    Seq::<ReplicatedShare>::empty()
                })
                &&& out.5@ == (if self is Transfer {
                    composed@.skip(64)
                } else {
                    composed@
                })
            },
    {
        match self {
            ActionTask::Transfer {
                sender_old,
                receiver_old,
                sender_new,
                receiver_new,
                amount,
                amount_blinding,
            } => {
                if plain_traces.len() != 0 {
                    return Err(ProcessError::PartyProcessingFailure);
                }
                let r = Ledger::process_transaction(
                    sender_old,
                    receiver_old,
                    sender_new,
                    receiver_new,
                    amount,
                    amount_blinding,
                    shared_traces,
                    composed,
                );
                r
            },
            ActionTask::Deposit { receiver_old, receiver_new, amount } => {
                if composed.len() != 0 {
                    return Err(ProcessError::PartyProcessingFailure);
                }
                let r = Ledger::process_deposit(
                    receiver_old,
                    receiver_new,
                    amount,
                    shared_traces,
                    plain_traces,
                );
                proof {
                    if r.is_ok() {
                        assert(r.unwrap().4@ =~= Seq::<ReplicatedShare>::empty());
                        assert(r.unwrap().5@ =~= composed@);
                    }
                }
                r
            },
            ActionTask::Withdraw { sender_old, sender_new, amount } => {
                let r = Ledger::process_withdraw(
                    sender_old,
                    sender_new,
                    amount,
                    id,
                    shared_traces,
                    plain_traces,
                    composed,
                );
                proof {
                    if r.is_ok() {
                        assert(r.unwrap().4@ =~= Seq::<ReplicatedShare>::empty());
                    }
                }
                r
            },
            ActionTask::Dummy => {
                if shared_traces.len() != 0 || plain_traces.len() != 1 || composed.len() != 0 {
                    return Err(ProcessError::PartyProcessingFailure);
                }
                let r = Ledger::process_dummy(&plain_traces[0]);
                proof {
                    assert(r.unwrap().4@ =~= Seq::<ReplicatedShare>::empty());
                    assert(r.unwrap().5@ =~= composed@);
                    assert(trace_views(r.unwrap().3@) =~= task_traces_spec(
                        self,
                        trace_views(shared_traces@),
                        trace_views(plain_traces@),
                    ));
                }
                r
            },
        }
    }
}

} // verus!
