//! Commitments to balances: the domain-separated two-to-one hash of an amount
//! and its blinding, built on the Poseidon2 permutation of width 2.
//!
//! The parties hash shared values in a protocol of their own. What stands
//! here is what is computed locally: the hash of values in the clear, the
//! inputs that a party hands to the protocol, and what it makes of the result.

use crate::field::{field_add, limbs_value, modulus, FieldElement};
use crate::share::{
    is_sharing_of, lemma_add_is_homomorphic, lemma_add_public_is_homomorphic, share_add,
    share_add_public, PartyID, ReplicatedShare,
};
use ark_ff::PrimeField;
use vstd::prelude::*;

verus! {

/// The constant that is added to the first input of every hash.
pub const DOMAIN_SEPARATOR: u64 = 0xDEADBEEF;

/// The state that the Poseidon2 permutation of width 2 over the field makes
/// of the state `(x, y)`.
pub uninterp spec fn poseidon2_t2(x: nat, y: nat) -> (nat, nat);

/// The commitment to an amount under a blinding: the amount plus the first
/// element of the permuted state, where the state is the amount with the
/// domain separator added, and the blinding.
pub open spec fn commitment_spec(amount: nat, blinding: nat) -> nat {
    field_add(amount, poseidon2_t2(field_add(amount, DOMAIN_SEPARATOR as nat), blinding).0)
}

/// The commitment to the amount 0 under the blinding 0.
pub open spec fn zero_commitment_spec() -> nat {
    0xcb8cb6a33f5b027bd1476ffa97361acb + 0x087f763a403ee4109adc79d4a7638af3
        * 0x1_0000_0000_0000_0000 * 0x1_0000_0000_0000_0000
}

/// Permutes a state of two field elements with
/// `taceo_poseidon2::bn254::t2::permutation`. The operands are read as
/// canonical representatives of `ark_bn254::Fr`; the two elements of the
/// permuted state come back as their canonical representatives, which
/// `into_bigint` keeps below the modulus.
#[verifier::external_body]
fn poseidon2_permutation(x: &[u64; 4], y: &[u64; 4]) -> (state: ([u64; 4], [u64; 4]))
    requires
        limbs_value(x@) < modulus(),
        limbs_value(y@) < modulus(),
    ensures
        (limbs_value(state.0@), limbs_value(state.1@)) == poseidon2_t2(
            limbs_value(x@),
            limbs_value(y@),
        ),
        limbs_value(state.0@) < modulus(),
        limbs_value(state.1@) < modulus(),
{
    let x = ark_bn254::Fr::from_bigint(ark_ff::BigInt::new(*x)).unwrap();
    let y = ark_bn254::Fr::from_bigint(ark_ff::BigInt::new(*y)).unwrap();
    let state = taceo_poseidon2::bn254::t2::permutation(&[x, y]);
    (state[0].into_bigint().0, state[1].into_bigint().0)
}

/// The Poseidon2 permutation of the state `(x, y)`.
pub fn permutation(x: FieldElement, y: FieldElement) -> (state: (FieldElement, FieldElement))
    ensures
        (state.0@, state.1@) == poseidon2_t2(x@, y@),
{
    proof {
        use_type_invariant(&x);
        use_type_invariant(&y);
    }
    let (first, second) = poseidon2_permutation(&x.to_limbs(), &y.to_limbs());
    (FieldElement::from_limbs(first).unwrap(), FieldElement::from_limbs(second).unwrap())
}

/// The commitment to `amount` under `blinding`.
pub fn commit(amount: FieldElement, blinding: FieldElement) -> (r: FieldElement)
    ensures
        r@ == commitment_spec(amount@, blinding@),
{
    let separated = amount.add(FieldElement::from_u64(DOMAIN_SEPARATOR));
    let (first, _) = permutation(separated, blinding);
    amount.add(first)
}

/// The inputs of the hashes with the domain separator added: every input at
/// an even place is the first input of a hash and gets it.
pub open spec fn separated_plain(input: Seq<nat>) -> Seq<nat> {
    Seq::new(
        input.len(),
        |i: int|
            if i % 2 == 0 {
                field_add(input[i], DOMAIN_SEPARATOR as nat)
            } else {
                input[i]
            },
    )
}

/// The shares of the inputs of the hashes after party `id` added the domain
/// separator to every input at an even place.
pub open spec fn separated_shares(input: Seq<(nat, nat)>, id: PartyID) -> Seq<(nat, nat)> {
    Seq::new(
        input.len(),
        |i: int|
            if i % 2 == 0 {
                share_add_public(input[i], DOMAIN_SEPARATOR as nat, id)
            } else {
                input[i]
            },
    )
}

/// The views of field elements.
pub open spec fn element_views(elements: Seq<FieldElement>) -> Seq<nat> {
    Seq::new(elements.len(), |i: int| elements[i]@)
}

/// The views of shares.
pub open spec fn share_views(shares: Seq<ReplicatedShare>) -> Seq<(nat, nat)> {
    Seq::new(shares.len(), |i: int| shares[i]@)
}

/// Adds the domain separator to the inputs of hashes of values in the clear.
/// The inputs come in pairs: the first and the second input of one hash.
pub fn add_domain_separator_plain(input: &Vec<FieldElement>) -> (r: Vec<FieldElement>)
    ensures
        element_views(r@) == separated_plain(element_views(input@)),
{
    let separator = FieldElement::from_u64(DOMAIN_SEPARATOR);
    let mut separated: Vec<FieldElement> = Vec::with_capacity(input.len());
    let mut i: usize = 0;
    while i < input.len()
        invariant
            i <= input@.len(),
            separated@.len() == i,
            separator@ == DOMAIN_SEPARATOR as nat,
            forall|j: int|
                0 <= j < i ==> (#[trigger] separated@[j])@ == separated_plain(
                    element_views(input@),
                )[j],
        decreases input@.len() - i,
    {
        if i % 2 == 0 {
            separated.push(input[i].add(separator));
        } else {
            separated.push(input[i]);
        }
        i += 1;
    }
    assert(element_views(separated@) =~= separated_plain(element_views(input@)));
    separated
}

/// Adds the domain separator, as party `id`, to the shares of the inputs of
/// hashes. The inputs come in pairs: the first and the second input of one
/// hash.
pub fn add_domain_separator(input: &Vec<ReplicatedShare>, id: PartyID) -> (r: Vec<ReplicatedShare>)
    ensures
        share_views(r@) == separated_shares(share_views(input@), id),
{
    let separator = FieldElement::from_u64(DOMAIN_SEPARATOR);
    let mut separated: Vec<ReplicatedShare> = Vec::with_capacity(input.len());
    let mut i: usize = 0;
    while i < input.len()
        invariant
            i <= input@.len(),
            separated@.len() == i,
            separator@ == DOMAIN_SEPARATOR as nat,
            forall|j: int|
                0 <= j < i ==> (#[trigger] separated@[j])@ == separated_shares(
                    share_views(input@),
                    id,
                )[j],
        decreases input@.len() - i,
    {
        if i % 2 == 0 {
            separated.push(input[i].add_public(separator, id));
        } else {
            separated.push(input[i]);
        }
        i += 1;
    }
    assert(share_views(separated@) =~= separated_shares(share_views(input@), id));
    separated
}

/// The commitments to the pairs of `input`, in the clear.
pub open spec fn commitments_spec(input: Seq<nat>) -> Seq<nat> {
    Seq::new(input.len() / 2, |i: int| commitment_spec(input[2 * i], input[2 * i + 1]))
}

/// The commitments to pairs of an amount and a blinding in the clear, or
/// `None` where the inputs do not come in pairs.
pub fn poseidon2_plain_commitments(input: &Vec<FieldElement>) -> (r: Option<Vec<FieldElement>>)
    ensures
        r.is_some() == (input@.len() % 2 == 0),
        r.is_some() ==> element_views(r.unwrap()@) == commitments_spec(element_views(input@)),
{
    if input.len() % 2 != 0 {
        return None;
    }
    let count = input.len() / 2;
    let mut commitments: Vec<FieldElement> = Vec::with_capacity(count);
    let mut i: usize = 0;
    while i < count
        invariant
            2 * count == input@.len(),
            input@.len() <= usize::MAX,
            i <= count,
            commitments@.len() == i,
            forall|j: int|
                0 <= j < i ==> (#[trigger] commitments@[j])@ == commitment_spec(
                    input@[2 * j]@,
                    input@[2 * j + 1]@,
                ),
        decreases count - i,
    {
        commitments.push(commit(input[2 * i], input[2 * i + 1]));
        i += 1;
    }
    assert(element_views(commitments@) =~= commitments_spec(element_views(input@)));
    Some(commitments)
}

/// The shares of the commitments: for every pair, the share of the amount
/// plus the share of the first element of the permuted state.
pub open spec fn finished_commitments(input: Seq<(nat, nat)>, permuted: Seq<(nat, nat)>) -> Seq<
    (nat, nat),
> {
    Seq::new(input.len() / 2, |i: int| share_add(input[2 * i], permuted[2 * i]))
}

/// Makes a party's shares of the commitments from its shares of the inputs,
/// as they were before the domain separator was added, and its shares of the
/// permuted states. `None` where the two do not have the same even length.
pub fn finish_commitments(input: &Vec<ReplicatedShare>, permuted: &Vec<ReplicatedShare>) -> (r:
    Option<Vec<ReplicatedShare>>)
    ensures
        r.is_some() == (input@.len() % 2 == 0 && permuted@.len() == input@.len()),
        r.is_some() ==> share_views(r.unwrap()@) == finished_commitments(
            share_views(input@),
            share_views(permuted@),
        ),
{
    if input.len() % 2 != 0 || permuted.len() != input.len() {
        return None;
    }
    let count = input.len() / 2;
    let mut commitments: Vec<ReplicatedShare> = Vec::with_capacity(count);
    let mut i: usize = 0;
    while i < count
        invariant
            2 * count == input@.len(),
            input@.len() <= usize::MAX,
            permuted@.len() == input@.len(),
            i <= count,
            commitments@.len() == i,
            forall|j: int|
                0 <= j < i ==> (#[trigger] commitments@[j])@ == share_add(
                    input@[2 * j]@,
                    permuted@[2 * j]@,
                ),
        decreases count - i,
    {
        commitments.push(input[2 * i].add(permuted[2 * i]));
        i += 1;
    }
    assert(share_views(commitments@) =~= finished_commitments(
        share_views(input@),
        share_views(permuted@),
    ));
    Some(commitments)
}

/// What the three parties compute is a sharing of the commitment in the
/// clear: where their inputs share an amount and a blinding, and the states
/// that the hashing protocol hands them share the permutation of the domain
/// separated pair, the shares that they finish share the commitment.
pub proof fn lemma_commitment_is_shared(
    amount: nat,
    blinding: nat,
    amounts: Seq<(nat, nat)>,
    blindings: Seq<(nat, nat)>,
    permuted: Seq<(nat, nat)>,
)
    requires
        amounts.len() == 3,
        blindings.len() == 3,
        permuted.len() == 3,
        is_sharing_of(amounts[0], amounts[1], amounts[2], amount),
        is_sharing_of(blindings[0], blindings[1], blindings[2], blinding),
        is_sharing_of(
            permuted[0],
            permuted[1],
            permuted[2],
            poseidon2_t2(field_add(amount, DOMAIN_SEPARATOR as nat), blinding).0,
        ),
    ensures
        is_sharing_of(
            share_add(amounts[0], permuted[0]),
            share_add(amounts[1], permuted[1]),
            share_add(amounts[2], permuted[2]),
            commitment_spec(amount, blinding),
        ),
        is_sharing_of(
            share_add_public(amounts[0], DOMAIN_SEPARATOR as nat, PartyID::ID0),
            share_add_public(amounts[1], DOMAIN_SEPARATOR as nat, PartyID::ID1),
            share_add_public(amounts[2], DOMAIN_SEPARATOR as nat, PartyID::ID2),
            field_add(amount, DOMAIN_SEPARATOR as nat),
        ),
{
    lemma_add_is_homomorphic(
        amounts[0],
        amounts[1],
        amounts[2],
        permuted[0],
        permuted[1],
        permuted[2],
    );
    lemma_add_public_is_homomorphic(amounts[0], amounts[1], amounts[2], DOMAIN_SEPARATOR as nat);
}

} // verus!
