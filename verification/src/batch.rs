//! A batch: 96 actions that are applied to the ledger in the order of their
//! slots and proved together. The ledger is changed slot by slot before any
//! work on a slot is handed out, and the results of the slots are put
//! together in the order of the slots, whatever the order in which the work
//! ended.

use crate::actionquery::{Action, ActionOutput, ActionView, ProcessError};
use crate::data_structure::{
    deposit_spec, transaction_spec, withdraw_spec, DepositValue, DepositValueShare, LedgerKey,
    PrivateDeposit,
};
use crate::share::{trivial_share, PartyID, Rep3Randomness, ReplicatedShare};
use crate::task::{task_blindings, ActionTask};
use crate::witness::{copy_trace, trace_views, witness_views, Trace, WitnessValue, WitnessView};
use vstd::prelude::*;

verus! {

/// The number of actions in a batch.
pub const NUM_TRANSACTIONS: usize = 96;

/// The number of actions in a batch.
pub const NUM_BATCHED_TRANSACTIONS: usize = NUM_TRANSACTIONS;

/// The number of commitments in a batch.
pub const NUM_COMMITMENTS: usize = 480;

/// The ledger of party `id` after one action under the given fresh
/// blindings, or `None` where the action fails: a public amount is taken as
/// the party's trivial share of it.
pub open spec fn step_spec(
    ledger: Map<nat, DepositValue<(nat, nat)>>,
    action: ActionView,
    id: PartyID,
    blindings: ((nat, nat), (nat, nat)),
) -> Option<Map<nat, DepositValue<(nat, nat)>>> {
    match action {
        ActionView::Invalid => None,
        ActionView::Deposit(receiver, amount) => Some(
            deposit_spec::<ReplicatedShare>(
                ledger,
                receiver,
                trivial_share(id, amount),
                blindings.0,
            ),
        ),
        ActionView::Withdraw(sender, amount) => withdraw_spec::<ReplicatedShare>(
            ledger,
            sender,
            trivial_share(id, amount),
            blindings.0,
        ),
        ActionView::Transfer(sender, receiver, amount, _) => transaction_spec::<ReplicatedShare>(
            ledger,
            sender,
            receiver,
            amount,
            blindings.0,
            blindings.1,
        ),
        ActionView::Dummy => Some(ledger),
    }
}

/// Whether an action fails on a ledger: it is none of the four kinds, or it
/// debits a key that has no balance.
pub open spec fn step_fails<V>(ledger: Map<nat, V>, action: ActionView) -> bool {
    match action {
        ActionView::Invalid => true,
        ActionView::Deposit(_, _) => false,
        ActionView::Withdraw(sender, _) => !ledger.contains_key(sender),
        ActionView::Transfer(sender, _, _, _) => !ledger.contains_key(sender),
        ActionView::Dummy => false,
    }
}

/// The error with which a failing action fails.
pub open spec fn step_error(action: ActionView) -> ProcessError {
    match action {
        ActionView::Invalid => ProcessError::UnsupportedAction,
        _ => ProcessError::KeyNotFound,
    }
}

/// The ledger of party `id` after the first `count` actions under the given
/// fresh blindings, or `None` where one of them fails.
pub open spec fn run_spec(
    ledger: Map<nat, DepositValue<(nat, nat)>>,
    actions: Seq<ActionView>,
    id: PartyID,
    blindings: Seq<((nat, nat), (nat, nat))>,
    count: nat,
) -> Option<Map<nat, DepositValue<(nat, nat)>>>
    decreases count,
{
    if count == 0 {
        Some(ledger)
    } else {
        match run_spec(ledger, actions, id, blindings, (count - 1) as nat) {
            Some(before) => step_spec(
                before,
                actions[count - 1],
                id,
                blindings[count - 1],
            ),
            None => None,
        }
    }
}

/// The views of the actions of a queue.
pub open spec fn action_views<K: LedgerKey>(queue: Seq<Action<K>>) -> Seq<ActionView> {
    Seq::new(queue.len(), |i: int| queue[i]@)
}

/// The fresh blindings of the tasks of a batch.
pub open spec fn tasks_blindings(tasks: Seq<ActionTask>) -> Seq<((nat, nat), (nat, nat))> {
    Seq::new(tasks.len(), |i: int| task_blindings(tasks[i]))
}

/// The value of a key, if it has one.
pub open spec fn value_at<V>(ledger: Map<nat, V>, key: nat) -> Option<V> {
    if ledger.contains_key(key) {
        Some(ledger[key])
    } else {
        None
    }
}

/// Whether `task` is what is left to do for `action`, given the ledger
/// before the action and after it.
pub open spec fn task_matches<K: LedgerKey>(
    before: Map<nat, DepositValueShare>,
    after: Map<nat, DepositValueShare>,
    action: Action<K>,
    task: ActionTask,
) -> bool {
    match action {
        Action::Invalid => false,
        Action::Deposit(receiver, amount) => task == (ActionTask::Deposit {
            receiver_old: value_at(before, receiver.ordinal()),
            receiver_new: after[receiver.ordinal()],
            amount,
        }),
        Action::Withdraw(sender, amount) => task == (ActionTask::Withdraw {
            sender_old: before[sender.ordinal()],
            sender_new: after[sender.ordinal()],
            amount,
        }),
        Action::Transfer(sender, receiver, amount, amount_blinding) => {
            &&& task matches ActionTask::Transfer {
                sender_old,
                receiver_old,
                sender_new,
                receiver_new,
                amount: task_amount,
                amount_blinding: task_blinding,
            }
            &&& sender_old == before[sender.ordinal()]
            &&& receiver_old == value_at(
                before.insert(sender.ordinal(), sender_new),
                receiver.ordinal(),
            )
            &&& after == before.insert(sender.ordinal(), sender_new).insert(
                receiver.ordinal(),
                receiver_new,
            )
            &&& task_amount == amount
            &&& task_blinding == amount_blinding
        },
        Action::Dummy => task == ActionTask::Dummy,
    }
}

/// The ledger after an action, given what is left to do for it: the new
/// balances of the task are the balances of its keys.
pub open spec fn replay_step<K: LedgerKey>(
    ledger: Map<nat, DepositValueShare>,
    action: Action<K>,
    task: ActionTask,
) -> Map<nat, DepositValueShare> {
    match (action, task) {
        (Action::Deposit(receiver, _), ActionTask::Deposit { receiver_new, .. }) => ledger.insert(
            receiver.ordinal(),
            receiver_new,
        ),
        (Action::Withdraw(sender, _), ActionTask::Withdraw { sender_new, .. }) => ledger.insert(
            sender.ordinal(),
            sender_new,
        ),
        (
            Action::Transfer(sender, receiver, _, _),
            ActionTask::Transfer { sender_new, receiver_new, .. },
        ) => ledger.insert(sender.ordinal(), sender_new).insert(receiver.ordinal(), receiver_new),
        _ => ledger,
    }
}

/// The ledger after the first `count` actions, given what is left to do for
/// them.
pub open spec fn replay<K: LedgerKey>(
    ledger: Map<nat, DepositValueShare>,
    queue: Seq<Action<K>>,
    tasks: Seq<ActionTask>,
    count: nat,
) -> Map<nat, DepositValueShare>
    decreases count,
{
    if count == 0 {
        ledger
    } else {
        replay_step(
            replay(ledger, queue, tasks, (count - 1) as nat),
            queue[count - 1],
            tasks[count - 1],
        )
    }
}

/// The ledger after the first `count` actions depends on what is left to do
/// for these actions only.
pub proof fn lemma_replay_prefix<K: LedgerKey>(
    ledger: Map<nat, DepositValueShare>,
    queue: Seq<Action<K>>,
    first: Seq<ActionTask>,
    second: Seq<ActionTask>,
    count: nat,
)
    requires
        count <= first.len(),
        count <= second.len(),
        forall|i: int| 0 <= i < count ==> first[i] == second[i],
    ensures
        replay(ledger, queue, first, count) == replay(ledger, queue, second, count),
    decreases count,
{
    if count > 0 {
        lemma_replay_prefix(ledger, queue, first, second, (count - 1) as nat);
    }
}

/// Whether the tasks are what is left to do for the first `count` actions of
/// a queue that is applied to `ledger`: each task holds the balances of its
/// action as they were before the action and as they are after it.
pub open spec fn tasks_match<K: LedgerKey>(
    ledger: Map<nat, DepositValueShare>,
    queue: Seq<Action<K>>,
    tasks: Seq<ActionTask>,
    count: nat,
) -> bool {
    forall|i: int|
        0 <= i < count ==> task_matches(
            replay(ledger, queue, tasks, i as nat),
            replay(ledger, queue, tasks, (i + 1) as nat),
            queue[i],
            #[trigger] tasks[i],
        )
}

/// The parts of a sequence put one after the other.
pub open spec fn concat<T>(parts: Seq<Seq<T>>) -> Seq<T>
    decreases parts.len(),
{
    if parts.len() == 0 {
        Seq::empty()
    } else {
        concat(parts.drop_last()) + parts.last()
    }
}

/// Appends a copy of `source` to `target`.
fn append_copies<T: Copy>(target: &mut Vec<T>, source: &Vec<T>)
    ensures
        final(target)@ == old(target)@ + source@,
{
    let ghost before = target@;
    let mut i: usize = 0;
    while i < source.len()
        invariant
            i <= source@.len(),
            target@ == before + source@.take(i as int),
        decreases source@.len() - i,
    {
        target.push(source[i]);
        assert(source@.take(i as int).push(source@[i as int]) =~= source@.take(i + 1));
        assert(target@ =~= before + source@.take(i + 1));
        i += 1;
    }
    assert(source@.take(source@.len() as int) =~= source@);
}

/// Appends copies of the traces of `source` to `target`.
fn append_traces(target: &mut Vec<Trace>, source: &Vec<Trace>)
    ensures
        trace_views(final(target)@) == trace_views(old(target)@) + trace_views(source@),
{
    let ghost before = trace_views(target@);
    let ghost added = trace_views(source@);
    let mut i: usize = 0;
    while i < source.len()
        invariant
            i <= source@.len(),
            added == trace_views(source@),
            trace_views(target@) == before + added.take(i as int),
        decreases source@.len() - i,
    {
        let ghost views_before = trace_views(target@);
        target.push(copy_trace(&source[i]));
        assert(trace_views(target@) =~= views_before.push(added[i as int]));
        assert(added.take(i as int).push(added[i as int]) =~= added.take(i + 1));
        assert(trace_views(target@) =~= before + added.take(i + 1));
        i += 1;
    }
    assert(added.take(source@.len() as int) =~= added);
}

/// What a batch hands to the witness builder: the new balances of the
/// senders and of the receivers, slot by slot, and the inputs, the traces and
/// the range-proof witnesses of all slots.
pub type QueueOutput = (
    Vec<DepositValueShare>,
    Vec<DepositValueShare>,
    Vec<WitnessValue>,
    Vec<Trace>,
    Vec<ReplicatedShare>,
);

/// The result of slot `i`.
pub open spec fn output_at(results: Seq<Result<ActionOutput, ProcessError>>, i: int) -> ActionOutput {
    results[i].unwrap()
}

/// The inputs of the first `count` slots, slot by slot.
pub open spec fn input_parts(results: Seq<Result<ActionOutput, ProcessError>>, count: nat) -> Seq<
    Seq<WitnessView>,
> {
    Seq::new(count, |i: int| witness_views(output_at(results, i).2@))
}

/// The traces of the first `count` slots, slot by slot.
pub open spec fn trace_parts(results: Seq<Result<ActionOutput, ProcessError>>, count: nat) -> Seq<
    Seq<Seq<WitnessView>>,
> {
    Seq::new(count, |i: int| trace_views(output_at(results, i).3@))
}

/// The range-proof witnesses of the amounts of the first `count` slots, slot
/// by slot.
pub open spec fn amount_parts(results: Seq<Result<ActionOutput, ProcessError>>, count: nat) -> Seq<
    Seq<ReplicatedShare>,
> {
    Seq::new(count, |i: int| output_at(results, i).4@)
}

/// The range-proof witnesses of the senders' balances of the first `count`
/// slots, slot by slot.
pub open spec fn sender_parts(results: Seq<Result<ActionOutput, ProcessError>>, count: nat) -> Seq<
    Seq<ReplicatedShare>,
> {
    Seq::new(count, |i: int| output_at(results, i).5@)
}

/// Whether slot `i` is the first slot that failed.
pub open spec fn first_failure(results: Seq<Result<ActionOutput, ProcessError>>, i: int) -> bool {
    &&& 0 <= i < results.len()
    &&& results[i].is_err()
    &&& forall|j: int| 0 <= j < i ==> (#[trigger] results[j]).is_ok()
}

/// Puts the results of the slots of a batch together, in the order of the
/// slots: the inputs of all slots, the traces of all slots, and the
/// range-proof witnesses, those of all amounts before those of all senders'
/// balances, as the circuit groups them by their width.
///
/// Fails with `MalformedBatch` where there are not 96 results. Else, where a
/// slot failed, the batch fails with the error of the first such slot.
pub fn collect_outputs(results: &Vec<Result<ActionOutput, ProcessError>>) -> (r: Result<
    QueueOutput,
    ProcessError,
>)
    ensures
        results@.len() != 96 ==> r == Err::<QueueOutput, ProcessError>(
            ProcessError::MalformedBatch,
        ),
        results@.len() == 96 ==> match r {
            Ok(merged) => {
                &&& forall|i: int| 0 <= i < 96 ==> (#[trigger] results@[i]).is_ok()
                &&& merged.0@ == Seq::new(96, |i: int| output_at(results@, i).0)
                &&& merged.1@ == Seq::new(96, |i: int| output_at(results@, i).1)
                &&& witness_views(merged.2@) == concat(input_parts(results@, 96))
                &&& trace_views(merged.3@) == concat(trace_parts(results@, 96))
                &&& merged.4@ == concat(amount_parts(results@, 96)) + concat(
                    sender_parts(results@, 96),
                )
            },
            Err(e) => exists|i: int| #[trigger]
                first_failure(results@, i) && results@[i] == Err::<ActionOutput, ProcessError>(e),
        },
{
    if results.len() != NUM_TRANSACTIONS {
        return Err(ProcessError::MalformedBatch);
    }
    let mut sender_new: Vec<DepositValueShare> = Vec::with_capacity(NUM_TRANSACTIONS);
    let mut receiver_new: Vec<DepositValueShare> = Vec::with_capacity(NUM_TRANSACTIONS);
    let mut proof_inputs: Vec<WitnessValue> = Vec::with_capacity(NUM_TRANSACTIONS * 8);
    let mut traces: Vec<Trace> = Vec::with_capacity(NUM_COMMITMENTS);
    let mut bitdecomps1: Vec<ReplicatedShare> = Vec::with_capacity(NUM_TRANSACTIONS * 2);
    let mut bitdecomps2: Vec<ReplicatedShare> = Vec::with_capacity(NUM_TRANSACTIONS);
    let mut i: usize = 0;
    while i < NUM_TRANSACTIONS
        invariant
            i <= 96,
            results@.len() == 96,
            forall|j: int| 0 <= j < i ==> (#[trigger] results@[j]).is_ok(),
            sender_new@ == Seq::new(i as nat, |j: int| output_at(results@, j).0),
            receiver_new@ == Seq::new(i as nat, |j: int| output_at(results@, j).1),
            witness_views(proof_inputs@) == concat(input_parts(results@, i as nat)),
            trace_views(traces@) == concat(trace_parts(results@, i as nat)),
            bitdecomps1@ == concat(amount_parts(results@, i as nat)),
            bitdecomps2@ == concat(sender_parts(results@, i as nat)),
        decreases 96 - i,
    {
        match &results[i] {
            Ok(output) => {
                let ghost inputs_before = proof_inputs@;
                sender_new.push(output.0);
                receiver_new.push(output.1);
                append_copies(&mut proof_inputs, &output.2);
                append_traces(&mut traces, &output.3);
                append_copies(&mut bitdecomps1, &output.4);
                append_copies(&mut bitdecomps2, &output.5);
                proof {
                    let next = (i + 1) as nat;
                    assert(input_parts(results@, next).drop_last() =~= input_parts(
                        results@,
                        i as nat,
                    ));
                    assert(trace_parts(results@, next).drop_last() =~= trace_parts(
                        results@,
                        i as nat,
                    ));
                    assert(amount_parts(results@, next).drop_last() =~= amount_parts(
                        results@,
                        i as nat,
                    ));
                    assert(sender_parts(results@, next).drop_last() =~= sender_parts(
                        results@,
                        i as nat,
                    ));
                    assert(witness_views(proof_inputs@) =~= witness_views(inputs_before)
                        + witness_views(output.2@));
                    assert(sender_new@ =~= Seq::new(next, |j: int| output_at(results@, j).0));
                    assert(receiver_new@ =~= Seq::new(next, |j: int| output_at(results@, j).1));
                }
            },
            Err(e) => {
                assert(first_failure(results@, i as int));
                return Err(*e);
            },
        }
        i += 1;
    }
    append_copies(&mut bitdecomps1, &bitdecomps2);
    Ok((sender_new, receiver_new, proof_inputs, traces, bitdecomps1))
}

impl<K: LedgerKey> PrivateDeposit<K, DepositValueShare> {
    /// Applies one action to the ledger, as party `my_id`, with fresh
    /// blindings from `rep3_state`, and says what is left to do for its slot.
    /// A public amount goes in as the party's trivial share of it. Fails,
    /// with the ledger unchanged, on an action that is none of the four kinds
    /// and on a debit of a key that has no balance.
    pub fn apply_action<S: Rep3Randomness>(
        &mut self,
        action: Action<K>,
        my_id: PartyID,
        rep3_state: &mut S,
    ) -> (r: Result<ActionTask, ProcessError>)
        ensures
            r.is_err() == step_fails(old(self)@, action@),
            r.is_err() ==> r == Err::<ActionTask, ProcessError>(step_error(action@))
                && final(self)@ == old(self)@,
            r.is_ok() ==> {
                &&& task_matches(old(self)@, final(self)@, action, r.unwrap())
                &&& final(self)@ == replay_step(old(self)@, action, r.unwrap())
                &&& step_spec(old(self).balances(), action@, my_id, task_blindings(r.unwrap()))
                    == Some(final(self).balances())
            },
            action@ == ActionView::Dummy ==> *final(rep3_state) == *old(rep3_state),
    {
        match action {
            Action::Transfer(sender, receiver, amount, amount_blinding) => {
                match self.transaction(sender, receiver, amount, rep3_state) {
                    Ok((sender_old, sender_new, receiver_old, receiver_new)) => Ok(
                        ActionTask::Transfer {
                            sender_old,
                            receiver_old,
                            sender_new,
                            receiver_new,
                            amount,
                            amount_blinding,
                        },
                    ),
                    Err(_) => Err(ProcessError::KeyNotFound),
                }
            },
            Action::Deposit(receiver, amount) => {
                let amount_shared = ReplicatedShare::promote_to_trivial_share(my_id, amount);
                let (receiver_old, receiver_new) = self.deposit(receiver, amount_shared, rep3_state);
                Ok(ActionTask::Deposit { receiver_old, receiver_new, amount })
            },
            Action::Withdraw(sender, amount) => {
                let amount_shared = ReplicatedShare::promote_to_trivial_share(my_id, amount);
                match self.withdraw(sender, amount_shared, rep3_state) {
                    Ok((sender_old, sender_new)) => Ok(
                        ActionTask::Withdraw { sender_old, sender_new, amount },
                    ),
                    Err(_) => Err(ProcessError::KeyNotFound),
                }
            },
            Action::Dummy => Ok(ActionTask::Dummy),
            Action::Invalid => Err(ProcessError::UnsupportedAction),
        }
    }

    /// Applies a batch to the ledger, slot by slot, as party `my_id`, each slot
    /// drawing its fresh blindings from its own state, and says what is left
    /// to do for each slot.
    ///
    /// A batch that does not hold 96 actions, or does not come with 96
    /// states, is refused with the ledger unchanged. Where an action fails,
    /// the batch fails with it: the actions before it stay applied, the
    /// failing one and those after it are not.
    pub fn prepare_queue<S: Rep3Randomness>(
        &mut self,
        queue: &Vec<Action<K>>,
        my_id: PartyID,
        rep3_states: &mut Vec<S>,
    ) -> (r: Result<Vec<ActionTask>, ProcessError>)
        ensures
            final(rep3_states)@.len() == old(rep3_states)@.len(),
            queue@.len() != 96 || old(rep3_states)@.len() != 96 ==> r == Err::<
                Vec<ActionTask>,
                ProcessError,
            >(ProcessError::MalformedBatch) && final(self)@ == old(self)@,
            queue@.len() == 96 && old(rep3_states)@.len() == 96 ==> match r {
                Ok(tasks) => {
                    &&& tasks@.len() == 96
                    &&& run_spec(
                        old(self).balances(),
                        action_views(queue@),
                        my_id,
                        tasks_blindings(tasks@),
                        96,
                    ) == Some(final(self).balances())
                    &&& final(self)@ == replay(old(self)@, queue@, tasks@, 96)
                    &&& tasks_match(old(self)@, queue@, tasks@, 96)
                },
                Err(e) => exists|failed: int, blindings: Seq<((nat, nat), (nat, nat))>|
                    {
                        &&& 0 <= failed < 96
                        &&& #[trigger] run_spec(
                            old(self).balances(),
                            action_views(queue@),
                            my_id,
                            blindings,
                            failed as nat,
                        ) == Some(final(self).balances())
                        &&& step_fails(final(self)@, queue@[failed]@)
                        &&& e == step_error(queue@[failed]@)
                    },
            },
    {
        if queue.len() != NUM_TRANSACTIONS || rep3_states.len() != NUM_TRANSACTIONS {
            return Err(ProcessError::MalformedBatch);
        }
        let ghost start = self.balances();
        let ghost start_raw = self@;
        let ghost views = action_views(queue@);
        let mut tasks: Vec<ActionTask> = Vec::with_capacity(NUM_TRANSACTIONS);
        let mut i: usize = 0;
        while i < NUM_TRANSACTIONS
            invariant
                i <= 96,
                queue@.len() == 96,
                rep3_states@.len() == 96,
                old(rep3_states)@.len() == 96,
                start == old(self).balances(),
                views == action_views(queue@),
                tasks@.len() == i,
                run_spec(start, views, my_id, tasks_blindings(tasks@), i as nat) == Some(
                    self.balances(),
                ),
                start_raw == old(self)@,
                self@ == replay(start_raw, queue@, tasks@, i as nat),
                tasks_match(start_raw, queue@, tasks@, i as nat),
            decreases 96 - i,
        {
            let ghost before_tasks = tasks@;
            let ghost before = self.balances();
            match self.apply_action(queue[i], my_id, &mut rep3_states[i]) {
                Ok(task) => {
                    tasks.push(task);
                    proof {
                        lemma_run_prefix(
                            start,
                            views,
                            my_id,
                            tasks_blindings(before_tasks),
                            tasks_blindings(tasks@),
                            i as nat,
                        );
                        lemma_tasks_extend(start_raw, queue@, before_tasks, task, i as nat);
                    }
                },
                Err(e) => {
                    proof {
                        let failed = i as int;
                        let blindings = tasks_blindings(tasks@);
                        assert(run_spec(start, views, my_id, blindings, failed as nat) == Some(
                            self.balances(),
                        ));
                        assert(step_fails(self@, queue@[failed]@));
                        assert(e == step_error(queue@[failed]@));
                    }
                    return Err(e);
                },
            }
            i += 1;
        }
        Ok(tasks)
    }
}

/// One more task that matches its action extends tasks that match theirs.
pub proof fn lemma_tasks_extend<K: LedgerKey>(
    ledger: Map<nat, DepositValueShare>,
    queue: Seq<Action<K>>,
    tasks: Seq<ActionTask>,
    task: ActionTask,
    count: nat,
)
    requires
        tasks.len() == count,
        count < queue.len(),
        tasks_match(ledger, queue, tasks, count),
        task_matches(
            replay(ledger, queue, tasks, count),
            replay_step(replay(ledger, queue, tasks, count), queue[count as int], task),
            queue[count as int],
            task,
        ),
    ensures
        tasks_match(ledger, queue, tasks.push(task), count + 1),
        replay(ledger, queue, tasks.push(task), count + 1) == replay_step(
            replay(ledger, queue, tasks, count),
            queue[count as int],
            task,
        ),
{
    let longer = tasks.push(task);
    assert forall|n: nat| n <= count implies #[trigger] replay(ledger, queue, longer, n)
        == replay(ledger, queue, tasks, n) by {
        lemma_replay_prefix(ledger, queue, tasks, longer, n);
    }
    assert forall|i: int| 0 <= i < count + 1 implies task_matches(
        replay(ledger, queue, longer, i as nat),
        replay(ledger, queue, longer, (i + 1) as nat),
        queue[i],
        #[trigger] longer[i],
    ) by {
        if i < count {
            assert(longer[i] == tasks[i]);
            assert(task_matches(
                replay(ledger, queue, tasks, i as nat),
                replay(ledger, queue, tasks, (i + 1) as nat),
                queue[i],
                tasks[i],
            ));
        }
    }
}

/// The ledger after the first `count` actions depends on the fresh
/// blindings of these actions only.
pub proof fn lemma_run_prefix(
    ledger: Map<nat, DepositValue<(nat, nat)>>,
    actions: Seq<ActionView>,
    id: PartyID,
    first: Seq<((nat, nat), (nat, nat))>,
    second: Seq<((nat, nat), (nat, nat))>,
    count: nat,
)
    requires
        count <= first.len(),
        count <= second.len(),
        forall|i: int| 0 <= i < count ==> first[i] == second[i],
    ensures
        run_spec(ledger, actions, id, first, count) == run_spec(ledger, actions, id, second, count),
    decreases count,
{
    if count > 0 {
        lemma_run_prefix(ledger, actions, id, first, second, (count - 1) as nat);
    }
}

} // verus!
