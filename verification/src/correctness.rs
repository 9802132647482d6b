//! What the three parties compute on their shares is what the actions do to
//! the balances in the clear.

use crate::actionquery::{
    deposit_input_spec, dummy_input_spec, withdraw_input_spec, ActionView,
};
use crate::batch::{concat, run_spec, step_spec};
use crate::data_structure::{
    amounts_shared, deposit_spec, transaction_spec, withdraw_spec, DepositValue,
    DepositValueShare,
};
use crate::field::{modulus, FieldElement};
use crate::share::{
    is_sharing_of, lemma_add_is_homomorphic, lemma_sub_is_homomorphic, lemma_trivial_shares,
    trivial_share, PartyID, ReplicatedShare,
};
use crate::witness::WitnessView;
use vstd::prelude::*;

verus! {

/// One action on balances in the clear: keys by their ordinal, amounts as
/// field elements.
pub enum PlainAction {
    Invalid,
    Deposit(nat, nat),
    Withdraw(nat, nat),
    Transfer(nat, nat, nat),
    Dummy,
}

/// The ledger in the clear after one action under the given new blindings, or
/// `None` where the action fails. A deposit adds the amount, a withdrawal
/// takes it, a transfer takes it from the sender and adds it to the receiver.
pub open spec fn plain_step(
    ledger: Map<nat, DepositValue<nat>>,
    action: PlainAction,
    blindings: (nat, nat),
) -> Option<Map<nat, DepositValue<nat>>> {
    match action {
        PlainAction::Invalid => None,
        PlainAction::Deposit(receiver, amount) => Some(
            deposit_spec::<FieldElement>(ledger, receiver, amount, blindings.0),
        ),
        PlainAction::Withdraw(sender, amount) => withdraw_spec::<FieldElement>(
            ledger,
            sender,
            amount,
            blindings.0,
        ),
        PlainAction::Transfer(sender, receiver, amount) => transaction_spec::<FieldElement>(
            ledger,
            sender,
            receiver,
            amount,
            blindings.0,
            blindings.1,
        ),
        PlainAction::Dummy => Some(ledger),
    }
}

/// The ledger in the clear after the first `count` actions, or `None` where
/// one of them fails.
pub open spec fn plain_run(
    ledger: Map<nat, DepositValue<nat>>,
    actions: Seq<PlainAction>,
    blindings: Seq<(nat, nat)>,
    count: nat,
) -> Option<Map<nat, DepositValue<nat>>>
    decreases count,
{
    if count == 0 {
        Some(ledger)
    } else {
        match plain_run(ledger, actions, blindings, (count - 1) as nat) {
            Some(before) => plain_step(before, actions[count - 1], blindings[count - 1]),
            None => None,
        }
    }
}

/// Whether the actions that the parties 0, 1 and 2 hold are the action
/// `plain`: public amounts are field elements and the same for all, and the
/// amount of a transfer is shared among them.
pub open spec fn action_shared(
    party0: ActionView,
    party1: ActionView,
    party2: ActionView,
    plain: PlainAction,
) -> bool {
    match plain {
        PlainAction::Invalid => party0 == ActionView::Invalid && party1 == ActionView::Invalid
            && party2 == ActionView::Invalid,
        PlainAction::Deposit(receiver, amount) => {
            &&& amount < modulus()
            &&& party0 == ActionView::Deposit(receiver, amount)
            &&& party1 == party0
            &&& party2 == party0
        },
        PlainAction::Withdraw(sender, amount) => {
            &&& amount < modulus()
            &&& party0 == ActionView::Withdraw(sender, amount)
            &&& party1 == party0
            &&& party2 == party0
        },
        PlainAction::Transfer(sender, receiver, amount) => {
            &&& party0 matches ActionView::Transfer(sender0, receiver0, amount0, _)
            &&& party1 matches ActionView::Transfer(sender1, receiver1, amount1, _)
            &&& party2 matches ActionView::Transfer(sender2, receiver2, amount2, _)
            &&& sender0 == sender && sender1 == sender && sender2 == sender
            &&& receiver0 == receiver && receiver1 == receiver && receiver2 == receiver
            &&& is_sharing_of(amount0, amount1, amount2, amount)
        },
        PlainAction::Dummy => party0 == ActionView::Dummy && party1 == ActionView::Dummy && party2
            == ActionView::Dummy,
    }
}

/// A deposit of a shared amount, made by each party on its own ledger under a
/// blinding of its own, is the deposit of the amount in the clear.
pub proof fn lemma_deposit_is_additive(
    party: Seq<Map<nat, DepositValue<(nat, nat)>>>,
    plain: Map<nat, DepositValue<nat>>,
    key: nat,
    amounts: Seq<(nat, nat)>,
    amount: nat,
    blindings: Seq<(nat, nat)>,
    blinding: nat,
)
    requires
        party.len() == 3,
        amounts.len() == 3,
        blindings.len() == 3,
        amounts_shared(party[0], party[1], party[2], plain),
        is_sharing_of(amounts[0], amounts[1], amounts[2], amount),
    ensures
        amounts_shared(
            deposit_spec::<ReplicatedShare>(party[0], key, amounts[0], blindings[0]),
            deposit_spec::<ReplicatedShare>(party[1], key, amounts[1], blindings[1]),
            deposit_spec::<ReplicatedShare>(party[2], key, amounts[2], blindings[2]),
            deposit_spec::<FieldElement>(plain, key, amount, blinding),
        ),
{
    let after0 = deposit_spec::<ReplicatedShare>(party[0], key, amounts[0], blindings[0]);
    let after1 = deposit_spec::<ReplicatedShare>(party[1], key, amounts[1], blindings[1]);
    let after2 = deposit_spec::<ReplicatedShare>(party[2], key, amounts[2], blindings[2]);
    let after = deposit_spec::<FieldElement>(plain, key, amount, blinding);
    assert(after0.dom() =~= after.dom());
    assert(after1.dom() =~= after.dom());
    assert(after2.dom() =~= after.dom());
    if plain.contains_key(key) {
        assert(party[0].dom().contains(key));
        assert(party[1].dom().contains(key));
        assert(party[2].dom().contains(key));
        lemma_add_is_homomorphic(
            party[0][key].amount,
            party[1][key].amount,
            party[2][key].amount,
            amounts[0],
            amounts[1],
            amounts[2],
        );
    } else {
        assert(!party[0].dom().contains(key));
        assert(!party[1].dom().contains(key));
        assert(!party[2].dom().contains(key));
    }
    assert forall|k: nat| #[trigger] after.contains_key(k) implies is_sharing_of(
        after0[k].amount,
        after1[k].amount,
        after2[k].amount,
        after[k].amount,
    ) by {
        if k != key {
            assert(plain.contains_key(k));
        }
    }
}

/// A withdrawal of a shared amount, made by each party on its own ledger
/// under a blinding of its own, is the withdrawal of the amount in the clear,
/// and fails for all parties or for none.
pub proof fn lemma_withdraw_is_additive(
    party: Seq<Map<nat, DepositValue<(nat, nat)>>>,
    plain: Map<nat, DepositValue<nat>>,
    key: nat,
    amounts: Seq<(nat, nat)>,
    amount: nat,
    blindings: Seq<(nat, nat)>,
    blinding: nat,
)
    requires
        party.len() == 3,
        amounts.len() == 3,
        blindings.len() == 3,
        amounts_shared(party[0], party[1], party[2], plain),
        is_sharing_of(amounts[0], amounts[1], amounts[2], amount),
    ensures
        forall|p: int|
            0 <= p < 3 ==> (#[trigger] withdraw_spec::<ReplicatedShare>(
                party[p],
                key,
                amounts[p],
                blindings[p],
            )).is_some() == plain.contains_key(key),
        withdraw_spec::<FieldElement>(plain, key, amount, blinding).is_some()
            == plain.contains_key(key),
        plain.contains_key(key) ==> amounts_shared(
            withdraw_spec::<ReplicatedShare>(party[0], key, amounts[0], blindings[0]).unwrap(),
            withdraw_spec::<ReplicatedShare>(party[1], key, amounts[1], blindings[1]).unwrap(),
            withdraw_spec::<ReplicatedShare>(party[2], key, amounts[2], blindings[2]).unwrap(),
            withdraw_spec::<FieldElement>(plain, key, amount, blinding).unwrap(),
        ),
{
    assert(party[0].dom().contains(key) == plain.dom().contains(key));
    assert(party[1].dom().contains(key) == plain.dom().contains(key));
    assert(party[2].dom().contains(key) == plain.dom().contains(key));
    if plain.contains_key(key) {
        let after0 = withdraw_spec::<ReplicatedShare>(
            party[0],
            key,
            amounts[0],
            blindings[0],
        ).unwrap();
        let after1 = withdraw_spec::<ReplicatedShare>(
            party[1],
            key,
            amounts[1],
            blindings[1],
        ).unwrap();
        let after2 = withdraw_spec::<ReplicatedShare>(
            party[2],
            key,
            amounts[2],
            blindings[2],
        ).unwrap();
        let after = withdraw_spec::<FieldElement>(plain, key, amount, blinding).unwrap();
        assert(after0.dom() =~= after.dom());
        assert(after1.dom() =~= after.dom());
        assert(after2.dom() =~= after.dom());
        lemma_sub_is_homomorphic(
            party[0][key].amount,
            party[1][key].amount,
            party[2][key].amount,
            amounts[0],
            amounts[1],
            amounts[2],
        );
        assert forall|k: nat| #[trigger] after.contains_key(k) implies is_sharing_of(
            after0[k].amount,
            after1[k].amount,
            after2[k].amount,
            after[k].amount,
        ) by {
            if k != key {
                assert(plain.contains_key(k));
            }
        }
    }
}

/// One action, applied by each party to its own ledger under blindings of
/// its own, is the action in the clear: it fails for all parties or for none,
/// and where it does not fail, the amounts of the three new ledgers are a
/// sharing of the amounts of the new ledger in the clear.
pub proof fn lemma_step_is_additive(
    party: Seq<Map<nat, DepositValue<(nat, nat)>>>,
    plain: Map<nat, DepositValue<nat>>,
    actions: Seq<ActionView>,
    action: PlainAction,
    blindings: Seq<((nat, nat), (nat, nat))>,
    blinding: (nat, nat),
)
    requires
        party.len() == 3,
        actions.len() == 3,
        blindings.len() == 3,
        amounts_shared(party[0], party[1], party[2], plain),
        action_shared(actions[0], actions[1], actions[2], action),
    ensures
        step_spec(party[0], actions[0], PartyID::ID0, blindings[0]).is_some() == plain_step(
            plain,
            action,
            blinding,
        ).is_some(),
        step_spec(party[1], actions[1], PartyID::ID1, blindings[1]).is_some() == plain_step(
            plain,
            action,
            blinding,
        ).is_some(),
        step_spec(party[2], actions[2], PartyID::ID2, blindings[2]).is_some() == plain_step(
            plain,
            action,
            blinding,
        ).is_some(),
        plain_step(plain, action, blinding).is_some() ==> amounts_shared(
            step_spec(party[0], actions[0], PartyID::ID0, blindings[0]).unwrap(),
            step_spec(party[1], actions[1], PartyID::ID1, blindings[1]).unwrap(),
            step_spec(party[2], actions[2], PartyID::ID2, blindings[2]).unwrap(),
            plain_step(plain, action, blinding).unwrap(),
        ),
{
    let first = seq![blindings[0].0, blindings[1].0, blindings[2].0];
    let second = seq![blindings[0].1, blindings[1].1, blindings[2].1];
    match action {
        PlainAction::Invalid => {},
        PlainAction::Dummy => {},
        PlainAction::Deposit(receiver, amount) => {
            lemma_trivial_shares(amount);
            let amounts = seq![
                trivial_share(PartyID::ID0, amount),
                trivial_share(PartyID::ID1, amount),
                trivial_share(PartyID::ID2, amount),
            ];
            lemma_deposit_is_additive(party, plain, receiver, amounts, amount, first, blinding.0);
        },
        PlainAction::Withdraw(sender, amount) => {
            lemma_trivial_shares(amount);
            let amounts = seq![
                trivial_share(PartyID::ID0, amount),
                trivial_share(PartyID::ID1, amount),
                trivial_share(PartyID::ID2, amount),
            ];
            lemma_withdraw_is_additive(party, plain, sender, amounts, amount, first, blinding.0);
            assert(withdraw_spec::<ReplicatedShare>(party[0], sender, amounts[0], first[0])
                == step_spec(party[0], actions[0], PartyID::ID0, blindings[0]));
            assert(withdraw_spec::<ReplicatedShare>(party[1], sender, amounts[1], first[1])
                == step_spec(party[1], actions[1], PartyID::ID1, blindings[1]));
            assert(withdraw_spec::<ReplicatedShare>(party[2], sender, amounts[2], first[2])
                == step_spec(party[2], actions[2], PartyID::ID2, blindings[2]));
        },
        PlainAction::Transfer(sender, receiver, amount) => {
            let amounts = seq![
                actions[0]->Transfer_2,
                actions[1]->Transfer_2,
                actions[2]->Transfer_2,
            ];
            lemma_withdraw_is_additive(party, plain, sender, amounts, amount, first, blinding.0);
            let debited0 = withdraw_spec::<ReplicatedShare>(party[0], sender, amounts[0], first[0]);
            let debited1 = withdraw_spec::<ReplicatedShare>(party[1], sender, amounts[1], first[1]);
            let debited2 = withdraw_spec::<ReplicatedShare>(party[2], sender, amounts[2], first[2]);
            if plain.contains_key(sender) {
                let debited = seq![debited0.unwrap(), debited1.unwrap(), debited2.unwrap()];
                lemma_deposit_is_additive(
                    debited,
                    withdraw_spec::<FieldElement>(plain, sender, amount, blinding.0).unwrap(),
                    receiver,
                    amounts,
                    amount,
                    second,
                    blinding.1,
                );
            }
        },
    }
}

/// A sequence of actions, applied by each party to its own ledger under
/// blindings of its own, is the sequence in the clear. Where the three
/// ledgers share the amounts of a ledger in the clear, and the parties hold
/// the same actions, the three runs fail if and only if the run in the clear
/// fails, and where they do not fail, every amount of the ledger in the clear
/// is what the three shares of it rebuild.
pub proof fn lemma_run_is_additive(
    party: Seq<Map<nat, DepositValue<(nat, nat)>>>,
    plain: Map<nat, DepositValue<nat>>,
    actions: Seq<Seq<ActionView>>,
    plain_actions: Seq<PlainAction>,
    blindings: Seq<Seq<((nat, nat), (nat, nat))>>,
    plain_blindings: Seq<(nat, nat)>,
    count: nat,
)
    requires
        party.len() == 3,
        actions.len() == 3,
        blindings.len() == 3,
        amounts_shared(party[0], party[1], party[2], plain),
        forall|i: int|
            0 <= i < count ==> action_shared(
                actions[0][i],
                actions[1][i],
                actions[2][i],
                #[trigger] plain_actions[i],
            ),
    ensures
        run_spec(party[0], actions[0], PartyID::ID0, blindings[0], count).is_some() == plain_run(
            plain,
            plain_actions,
            plain_blindings,
            count,
        ).is_some(),
        run_spec(party[1], actions[1], PartyID::ID1, blindings[1], count).is_some() == plain_run(
            plain,
            plain_actions,
            plain_blindings,
            count,
        ).is_some(),
        run_spec(party[2], actions[2], PartyID::ID2, blindings[2], count).is_some() == plain_run(
            plain,
            plain_actions,
            plain_blindings,
            count,
        ).is_some(),
        plain_run(plain, plain_actions, plain_blindings, count).is_some() ==> amounts_shared(
            run_spec(party[0], actions[0], PartyID::ID0, blindings[0], count).unwrap(),
            run_spec(party[1], actions[1], PartyID::ID1, blindings[1], count).unwrap(),
            run_spec(party[2], actions[2], PartyID::ID2, blindings[2], count).unwrap(),
            plain_run(plain, plain_actions, plain_blindings, count).unwrap(),
        ),
    decreases count,
{
    if count > 0 {
        let before = (count - 1) as nat;
        lemma_run_is_additive(
            party,
            plain,
            actions,
            plain_actions,
            blindings,
            plain_blindings,
            before,
        );
        let plain_before = plain_run(plain, plain_actions, plain_blindings, before);
        if plain_before.is_some() {
            let party_before = seq![
                run_spec(party[0], actions[0], PartyID::ID0, blindings[0], before).unwrap(),
                run_spec(party[1], actions[1], PartyID::ID1, blindings[1], before).unwrap(),
                run_spec(party[2], actions[2], PartyID::ID2, blindings[2], before).unwrap(),
            ];
            let step_actions = seq![
                actions[0][before as int],
                actions[1][before as int],
                actions[2][before as int],
            ];
            let step_blindings = seq![
                blindings[0][before as int],
                blindings[1][before as int],
                blindings[2][before as int],
            ];
            assert(action_shared(
                actions[0][before as int],
                actions[1][before as int],
                actions[2][before as int],
                plain_actions[before as int],
            ));
            lemma_step_is_additive(
                party_before,
                plain_before.unwrap(),
                step_actions,
                plain_actions[before as int],
                step_blindings,
                plain_blindings[before as int],
            );
        }
    }
}

/// A run of padding slots leaves the ledger as it is.
pub proof fn lemma_dummy_run_keeps_ledger(
    ledger: Map<nat, DepositValue<(nat, nat)>>,
    actions: Seq<ActionView>,
    id: PartyID,
    blindings: Seq<((nat, nat), (nat, nat))>,
    count: nat,
)
    requires
        forall|i: int| 0 <= i < count ==> #[trigger] actions[i] == ActionView::Dummy,
    ensures
        run_spec(ledger, actions, id, blindings, count) == Some(ledger),
    decreases count,
{
    if count > 0 {
        lemma_dummy_run_keeps_ledger(ledger, actions, id, blindings, (count - 1) as nat);
        assert(actions[count - 1] == ActionView::Dummy);
    }
}

/// Parts that are all the same value repeated put together are that value
/// repeated.
pub proof fn lemma_concat_repeats<T>(parts: Seq<Seq<T>>, width: nat, value: T)
    requires
        forall|i: int|
            0 <= i < parts.len() ==> #[trigger] parts[i] == Seq::new(width, |j: int| value),
    ensures
        concat(parts) == Seq::new(parts.len() * width, |j: int| value),
    decreases parts.len(),
{
    if parts.len() == 0 {
        assert(parts.len() * width == 0) by (nonlinear_arith)
            requires
                parts.len() == 0,
        ;
        assert(concat(parts) =~= Seq::new(0, |j: int| value));
    } else {
        let shorter = parts.drop_last();
        assert forall|i: int| 0 <= i < shorter.len() implies #[trigger] shorter[i] == Seq::new(
            width,
            |j: int| value,
        ) by {
            assert(shorter[i] == parts[i]);
        }
        lemma_concat_repeats(shorter, width, value);
        assert(parts.last() == parts[parts.len() - 1]);
        assert(shorter.len() * width + width == parts.len() * width) by (nonlinear_arith)
            requires
                shorter.len() + 1 == parts.len(),
        ;
        assert(concat(parts) =~= Seq::new(parts.len() * width, |j: int| value));
    }
}

/// A batch of padding slots gives the same witness on every run: the public
/// value 0 in all inputs, the trace of the commitment to zero in the place of
/// every commitment, and no range-proof witnesses.
pub proof fn lemma_dummy_batch_witness(
    inputs: Seq<Seq<WitnessView>>,
    traces: Seq<Seq<Seq<WitnessView>>>,
    zero_trace: Seq<WitnessView>,
)
    requires
        forall|i: int| 0 <= i < inputs.len() ==> #[trigger] inputs[i] == dummy_input_spec(),
        forall|i: int|
            0 <= i < traces.len() ==> #[trigger] traces[i] == Seq::new(5, |j: int| zero_trace),
    ensures
        concat(inputs) == Seq::new(inputs.len() * 8, |j: int| WitnessView::Public(0)),
        concat(traces) == Seq::new(traces.len() * 5, |j: int| zero_trace),
{
    lemma_concat_repeats(inputs, 8, WitnessView::Public(0));
    lemma_concat_repeats(traces, 5, zero_trace);
}

/// The public value in a place of the input, if the value there is public.
pub open spec fn public_part(value: WitnessView) -> Option<nat> {
    match value {
        WitnessView::Public(v) => Some(v),
        WitnessView::Shared(_) => None,
    }
}

/// The public values of an input, place by place.
pub open spec fn public_parts(input: Seq<WitnessView>) -> Seq<Option<nat>> {
    Seq::new(input.len(), |i: int| public_part(input[i]))
}

/// Two parties put the same public values in the same places of the input
/// for an action with a public amount: the places and the values do not
/// depend on what the parties hold as shares, but for whether the receiver of
/// a deposit had a balance, on which the parties agree.
pub proof fn lemma_public_inputs_agree(
    amount: nat,
    first_old: Option<DepositValueShare>,
    second_old: Option<DepositValueShare>,
    first_sender: DepositValueShare,
    second_sender: DepositValueShare,
    first_blinding: ReplicatedShare,
    second_blinding: ReplicatedShare,
)
    requires
        first_old.is_some() == second_old.is_some(),
    ensures
        public_parts(deposit_input_spec(first_old, amount, 0, first_blinding)) == public_parts(
            deposit_input_spec(second_old, amount, 0, second_blinding),
        ),
        public_parts(withdraw_input_spec(first_sender, amount, 0, first_blinding)) == public_parts(
            withdraw_input_spec(second_sender, amount, 0, second_blinding),
        ),
        public_parts(dummy_input_spec()) == Seq::new(8, |i: int| Some(0nat)),
{
    assert(public_parts(deposit_input_spec(first_old, amount, 0, first_blinding)) =~= public_parts(
        deposit_input_spec(second_old, amount, 0, second_blinding),
    ));
    assert(public_parts(withdraw_input_spec(first_sender, amount, 0, first_blinding))
        =~= public_parts(withdraw_input_spec(second_sender, amount, 0, second_blinding)));
    assert(public_parts(dummy_input_spec()) =~= Seq::new(8, |i: int| Some(0nat)));
}

} // verus!
