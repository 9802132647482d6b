//! A batch of transfers that one party works off with one state: the ledger
//! is changed transfer by transfer, and what is hashed and what goes into the
//! circuit is laid out slot by slot.

use crate::actionquery::{Action, ActionView, ProcessError};
use crate::batch::{
    action_views, concat, lemma_run_prefix, lemma_tasks_extend, replay, run_spec, step_error,
    step_fails, tasks_blindings, tasks_match, NUM_TRANSACTIONS,
};
use crate::commitment::{separated_shares, share_views};
use crate::data_structure::{DepositValue, DepositValueShare, LedgerKey, PrivateDeposit};
use crate::field::FieldElement;
use crate::share::{
    is_sharing_of, share_field_element, PartyID, Rep3Randomness, ReplicatedShare,
};
use crate::task::{task_commitment_values, task_input_spec, ActionTask};
use crate::witness::{
    old_amount_share, old_blinding_share, witness_views, WitnessValue, WitnessView,
};
use vstd::prelude::*;

verus! {

/// One transfer of a batch of transfers.
#[derive(Clone, Copy, Debug, PartialEq, Eq)]
pub struct TransactionInput<K, V> {
    pub sender_key: K,
    pub receiver_key: K,
    pub amount: V,
    pub amount_blinding: V,
}

impl<K: Copy> TransactionInput<K, FieldElement> {
    /// Splits the amount and its blinding, in this order, into the shares of
    /// the parties 0, 1 and 2. The keys are public and go to every party.
    pub fn share(&self, rng: &mut rand_chacha::ChaCha12Rng) -> (r: [TransactionInput<
        K,
        ReplicatedShare,
    >; 3])
        ensures
            forall|p: int|
                0 <= p < 3 ==> (#[trigger] r[p]).sender_key == self.sender_key
                    && r[p].receiver_key == self.receiver_key,
            is_sharing_of(r[0].amount@, r[1].amount@, r[2].amount@, self.amount@),
            is_sharing_of(
                r[0].amount_blinding@,
                r[1].amount_blinding@,
                r[2].amount_blinding@,
                self.amount_blinding@,
            ),
    {
        let amount_shares = share_field_element(self.amount, rng);
        let amount_blinding_shares = share_field_element(self.amount_blinding, rng);
        [
            TransactionInput {
                sender_key: self.sender_key,
                receiver_key: self.receiver_key,
                amount: amount_shares[0],
                amount_blinding: amount_blinding_shares[0],
            },
            TransactionInput {
                sender_key: self.sender_key,
                receiver_key: self.receiver_key,
                amount: amount_shares[1],
                amount_blinding: amount_blinding_shares[1],
            },
            TransactionInput {
                sender_key: self.sender_key,
                receiver_key: self.receiver_key,
                amount: amount_shares[2],
                amount_blinding: amount_blinding_shares[2],
            },
        ]
    }
}

/// The transfer as an action of a batch.
pub open spec fn transfer_action<K>(input: TransactionInput<K, ReplicatedShare>) -> Action<K> {
    Action::Transfer(input.sender_key, input.receiver_key, input.amount, input.amount_blinding)
}

/// The transfers as the actions of a batch.
pub open spec fn transfer_queue<K>(inputs: Seq<TransactionInput<K, ReplicatedShare>>) -> Seq<
    Action<K>,
> {
    Seq::new(inputs.len(), |i: int| transfer_action(inputs[i]))
}

/// The pairs to commit to for a transfer, in the order of the commitments
/// that are handed out: the sender's balance before and after, the
/// receiver's balance before and after, the amount. Nothing for a slot that
/// is no transfer.
pub open spec fn task_balance_values(task: ActionTask) -> Seq<(nat, nat)> {
    match task {
        ActionTask::Transfer {
            sender_old,
            receiver_old,
            sender_new,
            receiver_new,
            amount,
            amount_blinding,
        } => seq![
            sender_old.amount@,
            sender_old.blinding@,
            sender_new.amount@,
            sender_new.blinding@,
            old_amount_share(receiver_old),
            old_blinding_share(receiver_old),
            receiver_new.amount@,
            receiver_new.blinding@,
            amount@,
            amount_blinding@,
        ],
        _ => Seq::empty(),
    }
}

/// The pairs to commit to for the first `count` slots, slot by slot.
pub open spec fn balance_value_parts(tasks: Seq<ActionTask>, count: nat) -> Seq<Seq<(nat, nat)>> {
    Seq::new(count, |i: int| task_balance_values(tasks[i]))
}

/// The shares to hash for the circuit for the first `count` slots, with the
/// domain separator added, slot by slot.
pub open spec fn trace_input_parts(tasks: Seq<ActionTask>, id: PartyID, count: nat) -> Seq<
    Seq<(nat, nat)>,
> {
    Seq::new(count, |i: int| separated_shares(task_commitment_values(tasks[i]), id))
}

/// The inputs to the circuit of the first `count` slots, slot by slot.
pub open spec fn task_input_parts(tasks: Seq<ActionTask>, count: nat) -> Seq<Seq<WitnessView>> {
    Seq::new(count, |i: int| task_input_spec(tasks[i]))
}

/// The pairs to commit to for a slot, in the order of the commitments that
/// are handed out.
pub fn balance_values(task: &ActionTask) -> (r: Vec<ReplicatedShare>)
    ensures
        share_views(r@) == task_balance_values(*task),
{
    let mut values: Vec<ReplicatedShare> = Vec::new();
    match task {
        ActionTask::Transfer {
            sender_old,
            receiver_old,
            sender_new,
            receiver_new,
            amount,
            amount_blinding,
        } => {
            let (old_amount, old_blinding) = match receiver_old {
                Some(value) => (value.amount, value.blinding),
                None => (ReplicatedShare::zero_share(), ReplicatedShare::zero_share()),
            };
            values.push(sender_old.amount);
            values.push(sender_old.blinding);
            values.push(sender_new.amount);
            values.push(sender_new.blinding);
            values.push(old_amount);
            values.push(old_blinding);
            values.push(receiver_new.amount);
            values.push(receiver_new.blinding);
            values.push(*amount);
            values.push(*amount_blinding);
        },
        _ => {},
    }
    assert(share_views(values@) =~= task_balance_values(*task));
    values
}

/// Appends the shares of `source` to `target`.
fn append_shares(target: &mut Vec<ReplicatedShare>, source: &Vec<ReplicatedShare>)
    ensures
        share_views(final(target)@) == share_views(old(target)@) + share_views(source@),
{
    let ghost before = share_views(target@);
    let ghost added = share_views(source@);
    let mut i: usize = 0;
    while i < source.len()
        invariant
            i <= source@.len(),
            added == share_views(source@),
            share_views(target@) == before + added.take(i as int),
        decreases source@.len() - i,
    {
        let ghost views_before = share_views(target@);
        target.push(source[i]);
        assert(share_views(target@) =~= views_before.push(added[i as int]));
        assert(added.take(i as int).push(added[i as int]) =~= added.take(i + 1));
        assert(share_views(target@) =~= before + added.take(i + 1));
        i += 1;
    }
    assert(added.take(source@.len() as int) =~= added);
}

/// Appends the witness values of `source` to `target`.
fn append_witnesses(target: &mut Vec<WitnessValue>, source: &Vec<WitnessValue>)
    ensures
        witness_views(final(target)@) == witness_views(old(target)@) + witness_views(source@),
{
    let ghost before = witness_views(target@);
    let ghost added = witness_views(source@);
    let mut i: usize = 0;
    while i < source.len()
        invariant
            i <= source@.len(),
            added == witness_views(source@),
            witness_views(target@) == before + added.take(i as int),
        decreases source@.len() - i,
    {
        let ghost views_before = witness_views(target@);
        target.push(source[i]);
        assert(witness_views(target@) =~= views_before.push(added[i as int]));
        assert(added.take(i as int).push(added[i as int]) =~= added.take(i + 1));
        assert(witness_views(target@) =~= before + added.take(i + 1));
        i += 1;
    }
    assert(added.take(source@.len() as int) =~= added);
}

/// The pairs to commit to for all slots, in the order of the slots.
pub fn batched_balance_values(tasks: &Vec<ActionTask>) -> (r: Vec<ReplicatedShare>)
    ensures
        share_views(r@) == concat(balance_value_parts(tasks@, tasks@.len())),
{
    let mut values: Vec<ReplicatedShare> = Vec::new();
    let mut i: usize = 0;
    assert(share_views(values@) =~= concat(balance_value_parts(tasks@, 0)));
    while i < tasks.len()
        invariant
            i <= tasks@.len(),
            share_views(values@) == concat(balance_value_parts(tasks@, i as nat)),
        decreases tasks@.len() - i,
    {
        let part = balance_values(&tasks[i]);
        append_shares(&mut values, &part);
        assert(balance_value_parts(tasks@, (i + 1) as nat).drop_last() =~= balance_value_parts(
            tasks@,
            i as nat,
        ));
        i += 1;
    }
    values
}

/// What party `id` hands to the hashing protocol for all slots, in the order
/// of the slots: for each slot its shares of the pairs to hash, with the
/// domain separator added.
pub fn batched_commitment_inputs(tasks: &Vec<ActionTask>, id: PartyID) -> (r: Vec<ReplicatedShare>)
    ensures
        share_views(r@) == concat(trace_input_parts(tasks@, id, tasks@.len())),
{
    let mut values: Vec<ReplicatedShare> = Vec::new();
    let mut i: usize = 0;
    assert(share_views(values@) =~= concat(trace_input_parts(tasks@, id, 0)));
    while i < tasks.len()
        invariant
            i <= tasks@.len(),
            share_views(values@) == concat(trace_input_parts(tasks@, id, i as nat)),
        decreases tasks@.len() - i,
    {
        let part = tasks[i].commitment_inputs(id);
        append_shares(&mut values, &part);
        assert(trace_input_parts(tasks@, id, (i + 1) as nat).drop_last() =~= trace_input_parts(
            tasks@,
            id,
            i as nat,
        ));
        i += 1;
    }
    values
}

/// The inputs of all slots to the circuit, in the order of the slots.
pub fn batched_inputs(tasks: &Vec<ActionTask>) -> (r: Vec<WitnessValue>)
    ensures
        witness_views(r@) == concat(task_input_parts(tasks@, tasks@.len())),
{
    let mut values: Vec<WitnessValue> = Vec::new();
    let mut i: usize = 0;
    assert(witness_views(values@) =~= concat(task_input_parts(tasks@, 0)));
    while i < tasks.len()
        invariant
            i <= tasks@.len(),
            witness_views(values@) == concat(task_input_parts(tasks@, i as nat)),
        decreases tasks@.len() - i,
    {
        let part = tasks[i].inputs();
        append_witnesses(&mut values, &part);
        assert(task_input_parts(tasks@, (i + 1) as nat).drop_last() =~= task_input_parts(
            tasks@,
            i as nat,
        ));
        i += 1;
    }
    values
}

impl<K: LedgerKey> PrivateDeposit<K, DepositValueShare> {
    /// Applies a batch of transfers to the ledger, transfer by transfer, with
    /// fresh blindings from the one state, and says what is left to do for
    /// each.
    ///
    /// A batch that does not hold 96 transfers is refused with the ledger
    /// unchanged. Where a sender has no balance, the batch fails: the
    /// transfers before stay applied, that one and those after it are not.
    pub fn transaction_batched<S: Rep3Randomness>(
        &mut self,
        inputs: &Vec<TransactionInput<K, ReplicatedShare>>,
        rep3_state: &mut S,
    ) -> (r: Result<Vec<ActionTask>, ProcessError>)
        ensures
            inputs@.len() != 96 ==> r == Err::<Vec<ActionTask>, ProcessError>(
                ProcessError::MalformedBatch,
            ) && final(self)@ == old(self)@,
            inputs@.len() == 96 ==> match r {
                Ok(tasks) => {
                    &&& tasks@.len() == 96
                    &&& forall|id: PartyID| #[trigger]
                        run_spec(
                            old(self).balances(),
                            action_views(transfer_queue(inputs@)),
                            id,
                            tasks_blindings(tasks@),
                            96,
                        ) == Some(final(self).balances())
                    &&& final(self)@ == replay(old(self)@, transfer_queue(inputs@), tasks@, 96)
                    &&& tasks_match(old(self)@, transfer_queue(inputs@), tasks@, 96)
                },
                Err(e) => e == ProcessError::KeyNotFound && exists|
                    failed: int,
                    blindings: Seq<((nat, nat), (nat, nat))>,
                |
                    {
                        &&& 0 <= failed < 96
                        &&& #[trigger] run_spec(
                            old(self).balances(),
                            action_views(transfer_queue(inputs@)),
                            PartyID::ID0,
                            blindings,
                            failed as nat,
                        ) == Some(final(self).balances())
                        &&& !final(self)@.contains_key(inputs@[failed].sender_key.ordinal())
                    },
            },
    {
        if inputs.len() != NUM_TRANSACTIONS {
            return Err(ProcessError::MalformedBatch);
        }
        let my_id = PartyID::ID0;
        let ghost start = self.balances();
        let ghost start_raw = self@;
        let ghost queue = transfer_queue(inputs@);
        let ghost views = action_views(queue);
        let mut tasks: Vec<ActionTask> = Vec::with_capacity(NUM_TRANSACTIONS);
        let mut i: usize = 0;
        while i < NUM_TRANSACTIONS
            invariant
                i <= 96,
                inputs@.len() == 96,
                queue == transfer_queue(inputs@),
                views == action_views(queue),
                my_id == PartyID::ID0,
                start == old(self).balances(),
                start_raw == old(self)@,
                tasks@.len() == i,
                run_spec(start, views, my_id, tasks_blindings(tasks@), i as nat) == Some(
                    self.balances(),
                ),
                self@ == replay(start_raw, queue, tasks@, i as nat),
                tasks_match(start_raw, queue, tasks@, i as nat),
            decreases 96 - i,
        {
            let ghost before_tasks = tasks@;
            let input = inputs[i];
            let action = Action::Transfer(
                input.sender_key,
                input.receiver_key,
                input.amount,
                input.amount_blinding,
            );
            assert(action == queue[i as int]);
            match self.apply_action(action, my_id, rep3_state) {
                Ok(task) => {
                    tasks.push(task);
                    proof {
                        lemma_run_prefix(
                            start,
                            views,
                            my_id,
                            tasks_blindings(before_tasks),
                            tasks_blindings(tasks@),
                            i as nat,
                        );
                        lemma_tasks_extend(start_raw, queue, before_tasks, task, i as nat);
                    }
                },
                Err(e) => {
                    proof {
                        let failed = i as int;
                        let blindings = tasks_blindings(tasks@);
                        assert(run_spec(start, views, my_id, blindings, failed as nat) == Some(
                            self.balances(),
                        ));
                        assert(step_fails(self@, queue[failed]@));
                        assert(e == step_error(queue[failed]@));
                    }
                    return Err(e);
                },
            }
            i += 1;
        }
        proof {
            lemma_transfer_queue_runs_alike(inputs@, start, tasks_blindings(tasks@), 96);
        }
        Ok(tasks)
    }
}

/// A batch of transfers runs alike for every party.
pub proof fn lemma_transfer_queue_runs_alike<K: LedgerKey>(
    inputs: Seq<TransactionInput<K, ReplicatedShare>>,
    ledger: Map<nat, DepositValue<(nat, nat)>>,
    blindings: Seq<((nat, nat), (nat, nat))>,
    count: nat,
)
    requires
        count <= inputs.len(),
    ensures
        forall|id: PartyID| #[trigger]
            run_spec(ledger, action_views(transfer_queue(inputs)), id, blindings, count)
                == run_spec(
                ledger,
                action_views(transfer_queue(inputs)),
                PartyID::ID0,
                blindings,
                count,
            ),
{
    let actions = action_views(transfer_queue(inputs));
    assert forall|i: int| 0 <= i < count implies #[trigger] actions[i] is Transfer by {
        assert(actions[i] == transfer_queue(inputs)[i]@);
    }
    assert forall|id: PartyID| #[trigger]
        run_spec(ledger, actions, id, blindings, count) == run_spec(
            ledger,
            actions,
            PartyID::ID0,
            blindings,
            count,
        ) by {
        lemma_transfers_run_alike(ledger, actions, id, PartyID::ID0, blindings, count);
    }
}

/// A run of transfers is the same run for every party: the id of the party
/// plays a part in actions with a public amount only.
pub proof fn lemma_transfers_run_alike(
    ledger: Map<nat, DepositValue<(nat, nat)>>,
    actions: Seq<ActionView>,
    first: PartyID,
    second: PartyID,
    blindings: Seq<((nat, nat), (nat, nat))>,
    count: nat,
)
    requires
        count <= actions.len(),
        forall|i: int| 0 <= i < count ==> #[trigger] actions[i] is Transfer,
    ensures
        run_spec(ledger, actions, first, blindings, count) == run_spec(
            ledger,
            actions,
            second,
            blindings,
            count,
        ),
    decreases count,
{
    if count > 0 {
        lemma_transfers_run_alike(ledger, actions, first, second, blindings, (count - 1) as nat);
        assert(actions[count - 1] is Transfer);
    }
}

} // verus!
