//! The encryption that lets an owner recover an amount and its blinding: a
//! keystream from the Poseidon2 permutation of width 3, keyed by a key that
//! sender and receiver share, is added to the two field elements of the
//! message.

use crate::field::{
    field_add, field_sub, lemma_congruent, lemma_remainder, limbs_value, modulus, FieldElement,
};
use ark_ff::PrimeField;
use vstd::prelude::*;

verus! {

/// The state that the Poseidon2 permutation of width 3 over the field makes
/// of the state `(x, y, z)`.
pub uninterp spec fn poseidon2_t3(x: nat, y: nat, z: nat) -> (nat, nat, nat);

/// The domain separator of the encryption: absorb 2, squeeze 2, tag 0x4142.
pub open spec fn t2_ds() -> nat {
    0x8000_0002_0000_0002_4142
}

/// The two words of the keystream under a key and a nonce: the second and
/// the third element of the permuted state, where the state is the domain
/// separator, the key and the nonce.
pub open spec fn keystream(key: nat, nonce: nat) -> (nat, nat) {
    let state = poseidon2_t3(t2_ds(), key, nonce);
    (state.1, state.2)
}

/// Permutes a state of three field elements with
/// `taceo_poseidon2::bn254::t3::permutation`. The operands are read as
/// canonical representatives of `ark_bn254::Fr`; the three elements of the
/// permuted state come back as their canonical representatives, which
/// `into_bigint` keeps below the modulus.
#[verifier::external_body]
fn poseidon2_permutation3(x: &[u64; 4], y: &[u64; 4], z: &[u64; 4]) -> (state: (
    [u64; 4],
    [u64; 4],
    [u64; 4],
))
    requires
        limbs_value(x@) < modulus(),
        limbs_value(y@) < modulus(),
        limbs_value(z@) < modulus(),
    ensures
        (limbs_value(state.0@), limbs_value(state.1@), limbs_value(state.2@)) == poseidon2_t3(
            limbs_value(x@),
            limbs_value(y@),
            limbs_value(z@),
        ),
        limbs_value(state.0@) < modulus(),
        limbs_value(state.1@) < modulus(),
        limbs_value(state.2@) < modulus(),
{
    let x = ark_bn254::Fr::from_bigint(ark_ff::BigInt::new(*x)).unwrap();
    let y = ark_bn254::Fr::from_bigint(ark_ff::BigInt::new(*y)).unwrap();
    let z = ark_bn254::Fr::from_bigint(ark_ff::BigInt::new(*z)).unwrap();
    let state = taceo_poseidon2::bn254::t3::permutation(&[x, y, z]);
    (state[0].into_bigint().0, state[1].into_bigint().0, state[2].into_bigint().0)
}

/// The domain separator of the encryption as a field element.
pub fn get_t2_ds() -> (r: FieldElement)
    ensures
        r@ == t2_ds(),
{
    FieldElement::from_limbs([0x0002_0000_0002_4142, 0x8000, 0, 0]).unwrap()
}

/// The two words of the keystream under `key` and `nonce`.
fn keystream_words(key: FieldElement, nonce: FieldElement) -> (r: (FieldElement, FieldElement))
    ensures
        (r.0@, r.1@) == keystream(key@, nonce@),
{
    let separator = get_t2_ds();
    proof {
        use_type_invariant(&separator);
        use_type_invariant(&key);
        use_type_invariant(&nonce);
    }
    let (_, second, third) = poseidon2_permutation3(
        &separator.to_limbs(),
        &key.to_limbs(),
        &nonce.to_limbs(),
    );
    (FieldElement::from_limbs(second).unwrap(), FieldElement::from_limbs(third).unwrap())
}

/// Encrypts a message of two field elements: adds the keystream to it.
pub fn sym_encrypt(key: FieldElement, msg: [FieldElement; 2], nonce: FieldElement) -> (r: [FieldElement; 2])
    ensures
        r[0]@ == field_add(msg[0]@, keystream(key@, nonce@).0),
        r[1]@ == field_add(msg[1]@, keystream(key@, nonce@).1),
{
    let (first, second) = keystream_words(key, nonce);
    [msg[0].add(first), msg[1].add(second)]
}

/// Decrypts a ciphertext of two field elements: takes the keystream from it.
pub fn sym_decrypt(key: FieldElement, ciphertext: [FieldElement; 2], nonce: FieldElement) -> (r: [FieldElement; 2])
    ensures
        r[0]@ == field_sub(ciphertext[0]@, keystream(key@, nonce@).0),
        r[1]@ == field_sub(ciphertext[1]@, keystream(key@, nonce@).1),
{
    let (first, second) = keystream_words(key, nonce);
    [ciphertext[0].sub(first), ciphertext[1].sub(second)]
}

/// Taking a word of the keystream from what it was added to gives the field
/// element back: decryption under the key and the nonce of the encryption
/// recovers the message.
pub proof fn lemma_decrypt_recovers(message: nat, word: nat)
    requires
        message < modulus(),
    ensures
        field_sub(field_add(message, word), word) == message,
{
    let k = lemma_remainder(message as int + word as int);
    lemma_congruent(field_add(message, word) as int - word as int, message as int, k);
    lemma_remainder(message as int);
}

} // verus!
