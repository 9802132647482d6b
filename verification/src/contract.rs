//! What goes to the ledger on chain and comes from it: numbers of 256 bits
//! as four limbs, least significant first, addresses as 20 bytes, and the
//! ciphertexts of transfers.

use crate::ae::{keystream, sym_decrypt, sym_encrypt};
use crate::field::{field_add, field_sub, limbs_value, modulus, FieldElement};
use vstd::prelude::*;

verus! {

/// The number of slots of a batch.
pub const BATCH_SIZE: usize = 96;

/// Why a value was refused.
#[derive(Clone, Copy, Debug, PartialEq, Eq)]
pub enum ContractError {
    /// A number of 256 bits is too large for a `usize`.
    TooLargeForUsize,
    /// A number of 256 bits is not below the modulus of the field.
    OutOfFieldRange,
    /// A number of 256 bits is too large for an address.
    TooLargeForAddress,
    /// A batch does not come with one action index for each slot and two
    /// commitments for each slot.
    InvalidInputLengths,
    /// A party index is not below 3.
    InvalidPartyIndex,
}

impl ContractError {
    /// What went wrong, in words.
    pub fn message(&self) -> (r: &'static str)
        ensures
            r@ == (match *self {
                ContractError::TooLargeForUsize =>
                    "U256 value is too large to fit into a usize"@,
                ContractError::OutOfFieldRange => "U256 value is out of field range"@,
                ContractError::TooLargeForAddress =>
                    "U256 value is too large to fit into an Address"@,
                ContractError::InvalidInputLengths => "Invalid input lengths"@,
                ContractError::InvalidPartyIndex => "invalid party index for decryption share"@,
            }),
    {
        match self {
            ContractError::TooLargeForUsize => "U256 value is too large to fit into a usize",
            ContractError::OutOfFieldRange => "U256 value is out of field range",
            ContractError::TooLargeForAddress => "U256 value is too large to fit into an Address",
            ContractError::InvalidInputLengths => "Invalid input lengths",
            ContractError::InvalidPartyIndex => "invalid party index for decryption share",
        }
    }
}

/// A count as a number of 256 bits.
pub fn usize_to_u256(value: usize) -> (r: [u64; 4])
    ensures
        limbs_value(r@) == value,
{
    [value as u64, 0, 0, 0]
}

/// A number of 256 bits as a count, where it is small enough.
pub fn u256_to_usize(value: [u64; 4]) -> (r: Result<usize, ContractError>)
    ensures
        r.is_ok() == (limbs_value(value@) <= usize::MAX),
        r.is_ok() ==> r.unwrap() == limbs_value(value@),
        r.is_err() ==> r == Err::<usize, ContractError>(ContractError::TooLargeForUsize),
{
    if value[1] != 0 || value[2] != 0 || value[3] != 0 || value[0] > usize::MAX as u64 {
        return Err(ContractError::TooLargeForUsize);
    }
    Ok(value[0] as usize)
}

/// A field element as a number of 256 bits.
pub fn field_to_u256(field: FieldElement) -> (r: [u64; 4])
    ensures
        limbs_value(r@) == field@,
{
    field.to_limbs()
}

/// A number of 256 bits as a field element, where it is below the modulus.
pub fn u256_to_field(value: [u64; 4]) -> (r: Result<FieldElement, ContractError>)
    ensures
        r.is_ok() == (limbs_value(value@) < modulus()),
        r.is_ok() ==> r.unwrap()@ == limbs_value(value@),
        r.is_err() ==> r == Err::<FieldElement, ContractError>(ContractError::OutOfFieldRange),
{
    match FieldElement::from_limbs(value) {
        Some(field) => Ok(field),
        None => Err(ContractError::OutOfFieldRange),
    }
}

/// Byte `k` of a limb, byte 0 being the least significant.
pub open spec fn limb_byte(limb: u64, k: nat) -> u8 {
    ((limb >> ((8 * k) as u64)) & 0xff) as u8
}

/// The 20 bytes of an address, least significant first: the bytes of the
/// first two limbs and the low four bytes of the third.
pub open spec fn address_bytes(value: Seq<u64>) -> Seq<u8> {
    Seq::new(20, |i: int| limb_byte(value[i / 8], (i % 8) as nat))
}

/// A number of 256 bits as an address, where it is below 2^160: its bytes,
/// least significant first.
pub fn u256_to_address(value: [u64; 4]) -> (r: Result<[u8; 20], ContractError>)
    ensures
        r.is_ok() == (limbs_value(value@) < 0x1_0000_0000 * 0x1_0000_0000_0000_0000
            * 0x1_0000_0000_0000_0000),
        r.is_ok() ==> r.unwrap()@ == address_bytes(value@),
        r.is_err() ==> r == Err::<[u8; 20], ContractError>(ContractError::TooLargeForAddress),
{
    if value[3] != 0 || value[2] > 0xffff_ffff {
        return Err(ContractError::TooLargeForAddress);
    }
    let mut address: [u8; 20] = [0u8; 20];
    let mut i: usize = 0;
    while i < 20
        invariant
            i <= 20,
            forall|j: int|
                0 <= j < i ==> address@[j] == limb_byte(value@[j / 8], (j % 8) as nat),
        decreases 20 - i,
    {
        let limb = value[i / 8];
        let shift: u64 = (8 * (i % 8)) as u64;
        address[i] = ((limb >> shift) & 0xff) as u8;
        i += 1;
    }
    assert(address@ =~= address_bytes(value@));
    Ok(address)
}

/// A field element as an address, where it is below 2^160.
pub fn field_to_address(field: FieldElement) -> (r: Result<[u8; 20], ContractError>)
    ensures
        r.is_ok() == (field@ < 0x1_0000_0000 * 0x1_0000_0000_0000_0000
            * 0x1_0000_0000_0000_0000),
        r.is_ok() ==> r.unwrap()@ == address_bytes(field.to_limbs_spec()),
        r.is_err() ==> r == Err::<[u8; 20], ContractError>(ContractError::TooLargeForAddress),
{
    u256_to_address(field.to_limbs())
}

/// What a batch reports to the ledger on chain: the index of the action of
/// each slot, and the commitments to the new balances of the sender and of
/// the receiver of each slot.
#[derive(Clone, Debug, PartialEq, Eq)]
pub struct TransactionInputRust {
    pub action_index: Vec<usize>,
    pub commitment: Vec<FieldElement>,
}

impl TransactionInputRust {
    /// The action indices and the commitments as numbers of 256 bits. Fails
    /// where there are not 96 indices and 192 commitments.
    pub fn to_transaction_input(&self) -> (r: Result<
        (Vec<[u64; 4]>, Vec<[u64; 4]>),
        ContractError,
    >)
        ensures
            r.is_ok() == (self.action_index@.len() == 96 && self.commitment@.len() == 192),
            r.is_err() ==> r == Err::<(Vec<[u64; 4]>, Vec<[u64; 4]>), ContractError>(
                ContractError::InvalidInputLengths,
            ),
            r.is_ok() ==> {
                let (indices, commitments) = r.unwrap();
                &&& indices@.len() == 96
                &&& commitments@.len() == 192
                &&& forall|i: int|
                    0 <= i < 96 ==> limbs_value((#[trigger] indices@[i])@)
                        == self.action_index@[i]
                &&& forall|i: int|
                    0 <= i < 192 ==> limbs_value((#[trigger] commitments@[i])@)
                        == self.commitment@[i]@
            },
    {
        if self.action_index.len() != BATCH_SIZE || self.commitment.len() != BATCH_SIZE * 2 {
            return Err(ContractError::InvalidInputLengths);
        }
        let mut indices: Vec<[u64; 4]> = Vec::with_capacity(BATCH_SIZE);
        let mut i: usize = 0;
        while i < BATCH_SIZE
            invariant
                i <= 96,
                self.action_index@.len() == 96,
                indices@.len() == i,
                forall|j: int|
                    0 <= j < i ==> limbs_value((#[trigger] indices@[j])@)
                        == self.action_index@[j],
            decreases 96 - i,
        {
            indices.push(usize_to_u256(self.action_index[i]));
            i += 1;
        }
        let mut commitments: Vec<[u64; 4]> = Vec::with_capacity(BATCH_SIZE * 2);
        let mut i: usize = 0;
        while i < BATCH_SIZE * 2
            invariant
                i <= 192,
                self.commitment@.len() == 192,
                commitments@.len() == i,
                forall|j: int|
                    0 <= j < i ==> limbs_value((#[trigger] commitments@[j])@)
                        == self.commitment@[j]@,
            decreases 192 - i,
        {
            commitments.push(field_to_u256(self.commitment[i]));
            i += 1;
        }
        Ok((indices, commitments))
    }
}

/// The ciphertext of a transfer: for each of the three parties its share of
/// the amount and of the blinding, encrypted under the key that the sender
/// shares with that party, and the public key of the sender as the
/// coordinates of a point. All are numbers of 256 bits.
#[derive(Clone, Copy, Debug, PartialEq, Eq)]
pub struct Ciphertext {
    pub amount: [[u64; 4]; 3],
    pub r: [[u64; 4]; 3],
    pub sender_pk: ([u64; 4], [u64; 4]),
}

impl Ciphertext {
    /// The coordinates of the sender's public key, for the party with index
    /// `my_index` to derive the shared key from. Fails where the index is not
    /// below 3, and else where a coordinate is not a field element.
    pub fn sender_public_key(&self, my_index: usize) -> (r: Result<
        (FieldElement, FieldElement),
        ContractError,
    >)
        ensures
            r.is_ok() == (my_index < 3 && limbs_value(self.sender_pk.0@) < modulus()
                && limbs_value(self.sender_pk.1@) < modulus()),
            r.is_ok() ==> r.unwrap().0@ == limbs_value(self.sender_pk.0@) && r.unwrap().1@
                == limbs_value(self.sender_pk.1@),
            r.is_err() ==> r == Err::<(FieldElement, FieldElement), ContractError>(
                if my_index >= 3 {
                    ContractError::InvalidPartyIndex
                } else {
                    ContractError::OutOfFieldRange
                },
            ),
    {
        if my_index >= 3 {
            return Err(ContractError::InvalidPartyIndex);
        }
        let x = match u256_to_field(self.sender_pk.0) {
            Ok(x) => x,
            Err(e) => {
                return Err(e);
            },
        };
        let y = match u256_to_field(self.sender_pk.1) {
            Ok(y) => y,
            Err(e) => {
                return Err(e);
            },
        };
        Ok((x, y))
    }

    /// The share of the amount and of the blinding of the party with index
    /// `my_index`, decrypted under the key that it shares with the sender and
    /// the nonce 0. Fails where the index is not below 3, and else where what
    /// is to be decrypted is not a field element.
    pub fn decrypt_share(&self, dh_key: FieldElement, my_index: usize) -> (r: Result<
        [FieldElement; 2],
        ContractError,
    >)
        ensures
            r.is_ok() == (my_index < 3 && limbs_value(self.amount@[my_index as int]@) < modulus()
                && limbs_value(self.r@[my_index as int]@) < modulus()),
            r.is_ok() ==> {
                &&& r.unwrap()[0]@ == field_sub(
                    limbs_value(self.amount@[my_index as int]@),
                    keystream(dh_key@, 0).0,
                )
                &&& r.unwrap()[1]@ == field_sub(
                    limbs_value(self.r@[my_index as int]@),
                    keystream(dh_key@, 0).1,
                )
            },
            r.is_err() ==> r == Err::<[FieldElement; 2], ContractError>(
                if my_index >= 3 {
                    ContractError::InvalidPartyIndex
                } else {
                    ContractError::OutOfFieldRange
                },
            ),
    {
        if my_index >= 3 {
            return Err(ContractError::InvalidPartyIndex);
        }
        let amount = match u256_to_field(self.amount[my_index]) {
            Ok(amount) => amount,
            Err(e) => {
                return Err(e);
            },
        };
        let blinding = match u256_to_field(self.r[my_index]) {
            Ok(blinding) => blinding,
            Err(e) => {
                return Err(e);
            },
        };
        Ok(sym_decrypt(dh_key, [amount, blinding], FieldElement::zero()))
    }

    /// The ciphertext of the three shares of an amount and of its blinding:
    /// each pair encrypted under the key that the sender shares with its
    /// party and the nonce 0.
    pub fn encrypt_shares(
        amount_shares: [FieldElement; 3],
        rand_shares: [FieldElement; 3],
        dh_keys: [FieldElement; 3],
        sender_pk: (FieldElement, FieldElement),
    ) -> (r: Ciphertext)
        ensures
            limbs_value(r.sender_pk.0@) == sender_pk.0@,
            limbs_value(r.sender_pk.1@) == sender_pk.1@,
            forall|i: int|
                0 <= i < 3 ==> limbs_value((#[trigger] r.amount@[i])@) == field_add(
                    amount_shares@[i]@,
                    keystream(dh_keys@[i]@, 0).0,
                ),
            forall|i: int|
                0 <= i < 3 ==> limbs_value((#[trigger] r.r@[i])@) == field_add(
                    rand_shares@[i]@,
                    keystream(dh_keys@[i]@, 0).1,
                ),
    {
        let first = sym_encrypt(dh_keys[0], [amount_shares[0], rand_shares[0]], FieldElement::zero());
        let second = sym_encrypt(
            dh_keys[1],
            [amount_shares[1], rand_shares[1]],
            FieldElement::zero(),
        );
        let third = sym_encrypt(dh_keys[2], [amount_shares[2], rand_shares[2]], FieldElement::zero());
        Ciphertext {
            amount: [field_to_u256(first[0]), field_to_u256(second[0]), field_to_u256(third[0])],
            r: [field_to_u256(first[1]), field_to_u256(second[1]), field_to_u256(third[1])],
            sender_pk: (field_to_u256(sender_pk.0), field_to_u256(sender_pk.1)),
        }
    }
}

} // verus!
