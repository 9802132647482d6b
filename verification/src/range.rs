//! Range proofs by bits. A party's share of a value in binary form is cut to
//! its low bits, and the bits are handed on one by one, to be made shares of
//! field elements again. A value that wrapped round the modulus has high bits
//! set and is not the number that its low bits make.

use crate::field::{field_sub, lemma_remainder, modulus};
use crate::share::ReplicatedShare;
use vstd::arithmetic::div_mod::{
    lemma_div_denominator, lemma_div_of0, lemma_fundamental_div_mod,
    lemma_fundamental_div_mod_converse, lemma_hoist_over_denominator, lemma_mod_multiples_vanish,
    lemma_small_mod,
};
use vstd::arithmetic::power2::{
    lemma2_to64, lemma2_to64_rest, lemma_pow2_adds, lemma_pow2_pos, lemma_pow2_unfold, pow2,
};
use vstd::prelude::*;

verus! {

/// The number of bits that bound a transferred amount.
pub const NUM_AMOUNT_BITS: usize = 64;

/// The number of bits that bound a balance after a debit.
pub const NUM_WITHDRAW_NEW_BITS: usize = 100;

/// A party's share of one bit.
#[derive(Clone, Copy, Debug, PartialEq, Eq)]
pub struct BitShare {
    pub a: bool,
    pub b: bool,
}

/// A party's share of a value in binary form. Each component is a number,
/// given by its digits to the base 2^64, least significant first.
#[derive(Clone, Debug, PartialEq, Eq)]
pub struct BinaryShare {
    pub a: Vec<u64>,
    pub b: Vec<u64>,
}

/// The number with these digits to the base 2^64, least significant first.
pub open spec fn digits_value(digits: Seq<u64>) -> nat
    decreases digits.len(),
{
    if digits.len() == 0 {
        0
    } else {
        digits[0] as nat + 0x1_0000_0000_0000_0000 * digits_value(digits.drop_first())
    }
}

/// Bit `i` of `value`, bit 0 being the least significant.
pub open spec fn bit_of(value: nat, i: nat) -> bool {
    (value / pow2(i)) % 2 == 1
}

/// The number that bits stand for, least significant first.
pub open spec fn bits_value(bits: Seq<bool>) -> nat
    decreases bits.len(),
{
    if bits.len() == 0 {
        0
    } else {
        (if bits[0] {
            1nat
        } else {
            0nat
        }) + 2 * bits_value(bits.drop_first())
    }
}

/// The low `count` bits of `value`, least significant first.
pub open spec fn low_bits_spec(value: nat, count: nat) -> Seq<bool> {
    Seq::new(count, |i: int| bit_of(value, i as nat))
}

/// A bit below 64 of a number is that bit of its lowest digit.
proof fn lemma_bit_of_low_digit(low: nat, rest: nat, i: nat)
    requires
        low < 0x1_0000_0000_0000_0000,
        i < 64,
    ensures
        bit_of(low + 0x1_0000_0000_0000_0000 * rest, i) == bit_of(low, i),
{
    let upper = (63 - i) as nat;
    lemma2_to64();
    lemma_pow2_pos(i);
    lemma_pow2_adds(i, (64 - i) as nat);
    lemma_pow2_unfold((64 - i) as nat);
    let unit = pow2(i) as int;
    let half = pow2(upper) as int;
    let j = 2 * (half * rest);
    assert(j * unit == 0x1_0000_0000_0000_0000 * rest) by (nonlinear_arith)
        requires
            j == 2 * (half * rest),
            unit * (2 * half) == 0x1_0000_0000_0000_0000,
    ;
    lemma_hoist_over_denominator(low as int, j, unit as nat);
    lemma_mod_multiples_vanish(half * rest, low as int / unit, 2);
}

/// A bit from 64 on of a number is a bit of the number without its lowest
/// digit.
proof fn lemma_bit_of_high_digits(low: nat, rest: nat, i: nat)
    requires
        low < 0x1_0000_0000_0000_0000,
        i >= 64,
    ensures
        bit_of(low + 0x1_0000_0000_0000_0000 * rest, i) == bit_of(rest, (i - 64) as nat),
{
    let value = (low + 0x1_0000_0000_0000_0000 * rest) as int;
    lemma2_to64();
    lemma_pow2_pos((i - 64) as nat);
    lemma_pow2_adds(64, (i - 64) as nat);
    lemma_div_denominator(value, pow2(64) as int, pow2((i - 64) as nat) as int);
    lemma_fundamental_div_mod_converse(value, pow2(64) as int, rest as int, low as int);
}

/// A bit of a number given by its digits is a bit of one digit, and is not
/// set beyond the digits.
pub proof fn lemma_bit_of_digits(digits: Seq<u64>, i: nat)
    ensures
        bit_of(digits_value(digits), i) == (i / 64 < digits.len() && bit_of(
            digits[(i / 64) as int] as nat,
            i % 64,
        )),
    decreases digits.len(),
{
    if digits.len() == 0 {
        lemma_pow2_pos(i);
        lemma_div_of0(pow2(i) as int);
    } else {
        let rest = digits.drop_first();
        if i < 64 {
            lemma_bit_of_low_digit(digits[0] as nat, digits_value(rest), i);
        } else {
            lemma_bit_of_high_digits(digits[0] as nat, digits_value(rest), i);
            lemma_bit_of_digits(rest, (i - 64) as nat);
            if i / 64 < digits.len() {
                assert(rest[((i - 64) / 64) as int] == digits[(i / 64) as int]);
            }
        }
    }
}

/// The low bits of a number stand for its remainder by the power of two.
pub proof fn lemma_low_bits_value(value: nat, count: nat)
    ensures
        bits_value(low_bits_spec(value, count)) == value % pow2(count),
    decreases count,
{
    let bits = low_bits_spec(value, count);
    lemma2_to64();
    if count == 0 {
        assert(value % 1 == 0);
    } else {
        let half = value / 2;
        let rest = bits.drop_first();
        let below = (count - 1) as nat;
        assert(rest =~= low_bits_spec(half, below)) by {
            assert forall|i: int| 0 <= i < below implies rest[i] == bit_of(half, i as nat) by {
                lemma_pow2_pos(i as nat);
                lemma_pow2_adds(1, i as nat);
                lemma_div_denominator(value as int, 2, pow2(i as nat) as int);
            }
        }
        lemma_low_bits_value(half, below);
        lemma_pow2_pos(below);
        lemma_pow2_adds(1, below);
        let unit = pow2(below) as int;
        let high = half as int / unit;
        lemma_fundamental_div_mod(value as int, 2);
        lemma_fundamental_div_mod(half as int, unit);
        let low = (value % 2) as int + 2 * (half as int % unit);
        assert(value == high * (2 * unit) + low) by (nonlinear_arith)
            requires
                value == 2 * half + (value % 2),
                half == unit * high + (half as int % unit),
                low == (value % 2) as int + 2 * (half as int % unit),
        ;
        lemma_fundamental_div_mod_converse(value as int, 2 * unit, high, low);
        assert(bit_of(value, 0) == (value % 2 == 1)) by {
            assert(value as int / 1 == value);
        }
    }
}

/// A number passes the range check by `count` bits, that is it is the number
/// that its low bits stand for, if and only if it is below two to the power
/// `count`.
pub proof fn lemma_range_check(value: nat, count: nat)
    ensures
        bits_value(low_bits_spec(value, count)) == value <==> value < pow2(count),
{
    lemma_low_bits_value(value, count);
    lemma_pow2_pos(count);
    if value < pow2(count) {
        lemma_small_mod(value, pow2(count));
    } else {
        vstd::arithmetic::div_mod::lemma_mod_bound(value as int, pow2(count) as int);
    }
}

/// The range check on a debited balance tells a covered debit from an
/// overdraft. With a balance below 2^100 and an amount below 2^64, the balance
/// after the debit passes the check by 100 bits if the amount is covered, and
/// it is then the plain difference; an amount above the balance leaves a
/// number that wrapped round the modulus and fails the check.
pub proof fn lemma_debit_range_check(balance: nat, amount: nat)
    requires
        balance < pow2(100),
        amount < pow2(64),
    ensures
        amount <= balance ==> field_sub(balance, amount) == balance - amount && bits_value(
            low_bits_spec(field_sub(balance, amount), 100),
        ) == field_sub(balance, amount),
        amount > balance ==> bits_value(low_bits_spec(field_sub(balance, amount), 100))
            != field_sub(balance, amount),
{
    lemma2_to64();
    lemma2_to64_rest();
    lemma_pow2_adds(64, 36);
    let after = field_sub(balance, amount);
    lemma_range_check(after, 100);
    let m = modulus() as int;
    if amount <= balance {
        lemma_remainder(balance - amount);
    } else {
        let k = lemma_remainder(balance - amount);
        let shifted = balance - amount + m;
        crate::field::lemma_congruent(shifted, balance - amount, 1);
        lemma_remainder(shifted);
    }
}

/// The low `count` bits of the number with these digits, least significant
/// first.
pub fn low_bits(digits: &Vec<u64>, count: usize) -> (bits: Vec<bool>)
    ensures
        bits@ == low_bits_spec(digits_value(digits@), count as nat),
{
    let mut bits: Vec<bool> = Vec::with_capacity(count);
    let mut i: usize = 0;
    while i < count
        invariant
            i <= count,
            bits@.len() == i,
            forall|j: int| 0 <= j < i ==> bits@[j] == bit_of(digits_value(digits@), j as nat),
        decreases count - i,
    {
        let word = i / 64;
        let offset: u64 = (i % 64) as u64;
        let bit = if word < digits.len() {
            let digit = digits[word];
            proof {
                vstd::bits::lemma_u64_shr_is_div(digit, offset);
                let shifted = digit >> offset;
                assert(shifted & 1 == shifted % 2) by (bit_vector);
            }
            (digit >> offset) & 1 == 1
        } else {
            false
        };
        proof {
            lemma_bit_of_digits(digits@, i as nat);
        }
        bits.push(bit);
        i += 1;
    }
    assert(bits@ =~= low_bits_spec(digits_value(digits@), count as nat));
    bits
}

/// The shares of the low `count` bits that a party's share of a value in
/// binary form holds: bit by bit of both components.
pub open spec fn bit_shares_spec(a: nat, b: nat, count: nat) -> Seq<BitShare> {
    Seq::new(count, |i: int| BitShare { a: bit_of(a, i as nat), b: bit_of(b, i as nat) })
}

/// A party's shares of the low `count` bits of a value that it holds a share
/// of in binary form.
pub fn to_bit_shares(share: &BinaryShare, count: usize) -> (bits: Vec<BitShare>)
    ensures
        bits@ == bit_shares_spec(digits_value(share.a@), digits_value(share.b@), count as nat),
{
    let bits_a = low_bits(&share.a, count);
    let bits_b = low_bits(&share.b, count);
    let mut bits: Vec<BitShare> = Vec::with_capacity(count);
    let mut i: usize = 0;
    while i < count
        invariant
            i <= count,
            bits@.len() == i,
            bits_a@ == low_bits_spec(digits_value(share.a@), count as nat),
            bits_b@ == low_bits_spec(digits_value(share.b@), count as nat),
            forall|j: int|
                0 <= j < i ==> bits@[j] == (BitShare { a: bits_a@[j], b: bits_b@[j] }),
        decreases count - i,
    {
        bits.push(BitShare { a: bits_a[i], b: bits_b[i] });
        i += 1;
    }
    assert(bits@ =~= bit_shares_spec(
        digits_value(share.a@),
        digits_value(share.b@),
        count as nat,
    ));
    bits
}

/// The bits to compose for a deposit: the low 64 bits of the amount.
pub fn decompose_for_deposit(amount: &BinaryShare) -> (bits: Vec<BitShare>)
    ensures
        bits@ == bit_shares_spec(digits_value(amount.a@), digits_value(amount.b@), 64),
{
    to_bit_shares(amount, NUM_AMOUNT_BITS)
}

/// The bits to compose for a withdrawal: the low 100 bits of the balance
/// after the debit.
pub fn decompose_for_withdraw(sender_new: &BinaryShare) -> (bits: Vec<BitShare>)
    ensures
        bits@ == bit_shares_spec(digits_value(sender_new.a@), digits_value(sender_new.b@), 100),
{
    to_bit_shares(sender_new, NUM_WITHDRAW_NEW_BITS)
}

/// The bits to compose for a transfer: the low 64 bits of the amount, then
/// the low 100 bits of the sender's balance after the debit.
pub fn decompose_for_transaction(amount: &BinaryShare, sender_new: &BinaryShare) -> (bits: Vec<
    BitShare,
>)
    ensures
        bits@ == bit_shares_spec(digits_value(amount.a@), digits_value(amount.b@), 64)
            + bit_shares_spec(digits_value(sender_new.a@), digits_value(sender_new.b@), 100),
{
    let mut bits = to_bit_shares(amount, NUM_AMOUNT_BITS);
    let mut sender_bits = to_bit_shares(sender_new, NUM_WITHDRAW_NEW_BITS);
    bits.append(&mut sender_bits);
    bits
}

/// Parts the composed bits of a transfer into those of the amount, the first
/// 64, and those of the sender's balance, the 100 that follow. `None` where
/// there are not 164 of them.
pub fn split_composed_for_transaction(composed: Vec<ReplicatedShare>) -> (r: Option<
    (Vec<ReplicatedShare>, Vec<ReplicatedShare>),
>)
    ensures
        r.is_some() == (composed@.len() == 164),
        r.is_some() ==> r.unwrap().0@ == composed@.take(64) && r.unwrap().1@ == composed@.skip(
            64,
        ),
{
    if composed.len() != NUM_AMOUNT_BITS + NUM_WITHDRAW_NEW_BITS {
        return None;
    }
    let mut decomp_amount = composed;
    let decomp_sender = decomp_amount.split_off(NUM_AMOUNT_BITS);
    assert(decomp_amount@ =~= composed@.take(64));
    assert(decomp_sender@ =~= composed@.skip(64));
    Some((decomp_amount, decomp_sender))
}

} // verus!
