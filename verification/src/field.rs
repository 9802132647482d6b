//! Elements of the scalar field of BN254, the unit of all ledger arithmetic.
//!
//! An element is held as its canonical representative in four 64-bit limbs,
//! least significant first. Its view is that representative as a natural
//! number below [`modulus`]. Addition and subtraction are computed by `ark-ff`.

use ark_ff::PrimeField;
use ark_ff::UniformRand;
use vstd::prelude::*;

verus! {

/// Two to the power 64, the weight of the second limb.
pub open spec fn pow64() -> nat {
    0x1_0000_0000_0000_0000
}

/// The order of the field.
pub open spec fn modulus() -> nat {
    0x2833e84879b9709143e1f593f0000001 + 0x30644e72e131a029b85045b68181585d
        * 0x1_0000_0000_0000_0000 * 0x1_0000_0000_0000_0000
}

/// The number that four limbs stand for, least significant limb first.
pub open spec fn limbs_value(l: Seq<u64>) -> nat
    recommends
        l.len() == 4,
{
    l[0] as nat + l[1] as nat * 0x1_0000_0000_0000_0000 + l[2] as nat * 0x1_0000_0000_0000_0000
        * 0x1_0000_0000_0000_0000 + l[3] as nat * 0x1_0000_0000_0000_0000
        * 0x1_0000_0000_0000_0000 * 0x1_0000_0000_0000_0000
}

/// Addition in the field, on canonical representatives.
pub open spec fn field_add(a: nat, b: nat) -> nat {
    (a + b) % modulus()
}

/// Subtraction in the field, on canonical representatives. It wraps below zero.
pub open spec fn field_sub(a: nat, b: nat) -> nat {
    ((a - b) % (modulus() as int)) as nat
}

/// The modulus is positive, and a remainder by it is canonical.
pub proof fn lemma_remainder_canonical(x: int)
    ensures
        0 < modulus(),
        0 <= x % (modulus() as int) < modulus(),
{
    vstd::arithmetic::div_mod::lemma_mod_bound(x, modulus() as int);
}

/// Two numbers that differ by a multiple of the modulus leave the same
/// remainder.
pub proof fn lemma_congruent(x: int, y: int, k: int)
    requires
        x == y + k * modulus(),
    ensures
        x % (modulus() as int) == y % (modulus() as int),
{
    let m = modulus() as int;
    assert(m * k + y == x) by (nonlinear_arith)
        requires
            x == y + k * m,
    ;
    vstd::arithmetic::div_mod::lemma_mod_multiples_vanish(k, y, m);
}

/// A number differs from its remainder by a multiple of the modulus, and a
/// canonical number is its own remainder.
pub proof fn lemma_remainder(x: int) -> (k: int)
    ensures
        x % (modulus() as int) == x + k * modulus(),
        0 <= x < modulus() ==> x % (modulus() as int) == x,
{
    let m = modulus() as int;
    vstd::arithmetic::div_mod::lemma_fundamental_div_mod(x, m);
    let k = -(x / m);
    assert(x + k * m == x - m * (x / m)) by (nonlinear_arith)
        requires
            k == -(x / m),
    ;
    if 0 <= x < m {
        vstd::arithmetic::div_mod::lemma_small_mod(x as nat, m as nat);
    }
    k
}

/// Four limbs stand for one number only.
pub proof fn lemma_limbs_value_injective(a: Seq<u64>, b: Seq<u64>)
    requires
        a.len() == 4,
        b.len() == 4,
        limbs_value(a) == limbs_value(b),
    ensures
        a =~= b,
{
    let p = pow64() as int;
    let (a0, a1, a2, a3) = (a[0] as int, a[1] as int, a[2] as int, a[3] as int);
    let (b0, b1, b2, b3) = (b[0] as int, b[1] as int, b[2] as int, b[3] as int);
    let ha = a1 + a2 * p + a3 * p * p;
    let hb = b1 + b2 * p + b3 * p * p;
    assert(limbs_value(a) == a0 + ha * p) by (nonlinear_arith)
        requires
            limbs_value(a) == a0 + a1 * p + a2 * p * p + a3 * p * p * p,
            ha == a1 + a2 * p + a3 * p * p,
    ;
    assert(limbs_value(b) == b0 + hb * p) by (nonlinear_arith)
        requires
            limbs_value(b) == b0 + b1 * p + b2 * p * p + b3 * p * p * p,
            hb == b1 + b2 * p + b3 * p * p,
    ;
    lemma_digit_split(a0, ha, b0, hb);
    let ga = a2 + a3 * p;
    let gb = b2 + b3 * p;
    assert(ha == a1 + ga * p) by (nonlinear_arith)
        requires
            ha == a1 + a2 * p + a3 * p * p,
            ga == a2 + a3 * p,
    ;
    assert(hb == b1 + gb * p) by (nonlinear_arith)
        requires
            hb == b1 + b2 * p + b3 * p * p,
            gb == b2 + b3 * p,
    ;
    lemma_digit_split(a1, ga, b1, gb);
    lemma_digit_split(a2, a3, b2, b3);
}

/// A number written as a digit below 2^64 and a rest has one such writing.
proof fn lemma_digit_split(lo_a: int, hi_a: int, lo_b: int, hi_b: int)
    requires
        0 <= lo_a < pow64(),
        0 <= lo_b < pow64(),
        lo_a + hi_a * pow64() == lo_b + hi_b * pow64(),
    ensures
        lo_a == lo_b,
        hi_a == hi_b,
{
    let p = pow64() as int;
    assert(hi_a == hi_b) by (nonlinear_arith)
        requires
            0 <= lo_a < p,
            0 <= lo_b < p,
            lo_a + hi_a * p == lo_b + hi_b * p,
    ;
}

/// An element of the field.
#[derive(Clone, Copy, Debug, PartialEq, Eq)]
pub struct FieldElement {
    limbs: [u64; 4],
}

impl View for FieldElement {
    type V = nat;

    closed spec fn view(&self) -> nat {
        limbs_value(self.limbs@)
    }
}

/// The limbs of the modulus, least significant first.
fn modulus_limbs() -> (m: [u64; 4])
    ensures
        limbs_value(m@) == modulus(),
{
    [0x43e1f593f0000001, 0x2833e84879b97091, 0xb85045b68181585d, 0x30644e72e131a029]
}

/// Whether the number of `a` is below that of `b`.
fn limbs_less(a: &[u64; 4], b: &[u64; 4]) -> (less: bool)
    ensures
        less == (limbs_value(a@) < limbs_value(b@)),
{
    proof {
        lemma_limbs_order(a@, b@);
    }
    if a[3] != b[3] {
        a[3] < b[3]
    } else if a[2] != b[2] {
        a[2] < b[2]
    } else if a[1] != b[1] {
        a[1] < b[1]
    } else {
        a[0] < b[0]
    }
}

/// The order of the numbers is the order of the limbs, read from the most
/// significant one down.
proof fn lemma_limbs_order(a: Seq<u64>, b: Seq<u64>)
    requires
        a.len() == 4,
        b.len() == 4,
    ensures
        limbs_value(a) < limbs_value(b) <==> (if a[3] != b[3] {
            a[3] < b[3]
        } else if a[2] != b[2] {
            a[2] < b[2]
        } else if a[1] != b[1] {
            a[1] < b[1]
        } else {
            a[0] < b[0]
        }),
{
    let p = pow64() as int;
    let (a0, a1, a2, a3) = (a[0] as int, a[1] as int, a[2] as int, a[3] as int);
    let (b0, b1, b2, b3) = (b[0] as int, b[1] as int, b[2] as int, b[3] as int);
    let la = a0 + a1 * p + a2 * p * p;
    let lb = b0 + b1 * p + b2 * p * p;
    assert(0 <= a0 + a1 * p < p * p && 0 <= b0 + b1 * p < p * p) by (nonlinear_arith)
        requires
            0 <= a0 < p,
            0 <= a1 < p,
            0 <= b0 < p,
            0 <= b1 < p,
    ;
    assert(0 <= la < p * p * p && 0 <= lb < p * p * p) by (nonlinear_arith)
        requires
            la == (a0 + a1 * p) + a2 * (p * p),
            lb == (b0 + b1 * p) + b2 * (p * p),
            0 <= a0 + a1 * p < p * p,
            0 <= b0 + b1 * p < p * p,
            0 <= a2 < p,
            0 <= b2 < p,
            p > 0,
    ;
    assert(limbs_value(a) == la + a3 * (p * p * p) && limbs_value(b) == lb + b3 * (p * p * p))
        by (nonlinear_arith)
        requires
            limbs_value(a) == a0 + a1 * p + a2 * p * p + a3 * p * p * p,
            limbs_value(b) == b0 + b1 * p + b2 * p * p + b3 * p * p * p,
            la == a0 + a1 * p + a2 * p * p,
            lb == b0 + b1 * p + b2 * p * p,
    ;
    lemma_high_digit_decides(la, a3, lb, b3, p * p * p);
    assert(la == (a0 + a1 * p) + a2 * (p * p) && lb == (b0 + b1 * p) + b2 * (p * p))
        by (nonlinear_arith)
        requires
            la == a0 + a1 * p + a2 * p * p,
            lb == b0 + b1 * p + b2 * p * p,
    ;
    lemma_high_digit_decides(a0 + a1 * p, a2, b0 + b1 * p, b2, p * p);
    lemma_high_digit_decides(a0, a1, b0, b1, p);
}

/// Of two numbers written as a rest below `base` and a high digit, the one
/// with the smaller high digit is smaller; with equal high digits the rests
/// decide.
proof fn lemma_high_digit_decides(lo_a: int, hi_a: int, lo_b: int, hi_b: int, base: int)
    requires
        0 <= lo_a < base,
        0 <= lo_b < base,
    ensures
        hi_a < hi_b ==> lo_a + hi_a * base < lo_b + hi_b * base,
        hi_a == hi_b ==> (lo_a + hi_a * base < lo_b + hi_b * base <==> lo_a < lo_b),
        hi_a > hi_b ==> lo_a + hi_a * base > lo_b + hi_b * base,
{
    assert(hi_a < hi_b ==> lo_a + hi_a * base < lo_b + hi_b * base) by (nonlinear_arith)
        requires
            0 <= lo_a < base,
            0 <= lo_b < base,
    ;
    assert(hi_a > hi_b ==> lo_a + hi_a * base > lo_b + hi_b * base) by (nonlinear_arith)
        requires
            0 <= lo_a < base,
            0 <= lo_b < base,
    ;
}

/// Adds two field elements with `ark-ff`: the operands are read as canonical
/// representatives of `ark_bn254::Fr` and added there with `+`; the result is
/// the sum's canonical representative, that is the sum of the two numbers
/// reduced by the modulus.
#[verifier::external_body]
fn ark_add(a: &[u64; 4], b: &[u64; 4]) -> (sum: [u64; 4])
    requires
        limbs_value(a@) < modulus(),
        limbs_value(b@) < modulus(),
    ensures
        limbs_value(sum@) == field_add(limbs_value(a@), limbs_value(b@)),
{
    let x = ark_bn254::Fr::from_bigint(ark_ff::BigInt::new(*a)).unwrap();
    let y = ark_bn254::Fr::from_bigint(ark_ff::BigInt::new(*b)).unwrap();
    (x + y).into_bigint().0
}

/// Subtracts two field elements with `ark-ff`: the operands are read as
/// canonical representatives of `ark_bn254::Fr` and subtracted there with `-`;
/// the result is the canonical representative of the difference, which wraps
/// round the modulus where the second number is the larger.
#[verifier::external_body]
fn ark_sub(a: &[u64; 4], b: &[u64; 4]) -> (difference: [u64; 4])
    requires
        limbs_value(a@) < modulus(),
        limbs_value(b@) < modulus(),
    ensures
        limbs_value(difference@) == field_sub(limbs_value(a@), limbs_value(b@)),
{
    let x = ark_bn254::Fr::from_bigint(ark_ff::BigInt::new(*a)).unwrap();
    let y = ark_bn254::Fr::from_bigint(ark_ff::BigInt::new(*b)).unwrap();
    (x - y).into_bigint().0
}

/// The generator of the random field elements: ChaCha with 12 rounds.
#[verifier::external_type_specification]
#[verifier::external_body]
pub struct ExChaCha12Rng(rand_chacha::ChaCha12Rng);

/// Draws a field element with `ark_bn254::Fr::rand` (`ark_ff::UniformRand`)
/// from the generator and hands out its canonical representative, which
/// `into_bigint` keeps below the modulus. Which element comes is not stated.
#[verifier::external_body]
fn ark_random(rng: &mut rand_chacha::ChaCha12Rng) -> (limbs: [u64; 4])
    ensures
        limbs_value(limbs@) < modulus(),
{
    ark_bn254::Fr::rand(rng).into_bigint().0
}

impl FieldElement {
    /// Every element is held as its canonical representative.
    #[verifier::type_invariant]
    pub open spec fn is_canonical(&self) -> bool {
        self@ < modulus()
    }

    /// The element 0.
    pub fn zero() -> (r: Self)
        ensures
            r@ == 0,
    {
        FieldElement { limbs: [0, 0, 0, 0] }
    }

    /// The element 1.
    pub fn one() -> (r: Self)
        ensures
            r@ == 1,
    {
        FieldElement { limbs: [1, 0, 0, 0] }
    }

    /// The element that stands for `value`.
    pub fn from_u64(value: u64) -> (r: Self)
        ensures
            r@ == value,
    {
        FieldElement { limbs: [value, 0, 0, 0] }
    }

    /// The element whose canonical representative has these limbs, least
    /// significant first, or `None` where they stand for a number that is not
    /// below the modulus.
    pub fn from_limbs(limbs: [u64; 4]) -> (r: Option<Self>)
        ensures
            limbs_value(limbs@) < modulus() ==> r.is_some() && r.unwrap()@ == limbs_value(limbs@),
            limbs_value(limbs@) >= modulus() ==> r.is_none(),
    {
        let m = modulus_limbs();
        if limbs_less(&limbs, &m) {
            Some(FieldElement { limbs })
        } else {
            None
        }
    }

    /// The limbs of the canonical representative, least significant first.
    pub closed spec fn to_limbs_spec(&self) -> Seq<u64> {
        self.limbs@
    }

    /// The limbs of the canonical representative, least significant first.
    pub fn to_limbs(&self) -> (limbs: [u64; 4])
        ensures
            limbs_value(limbs@) == self@,
            limbs@ == self.to_limbs_spec(),
    {
        self.limbs
    }

    /// Whether this is the element 0.
    pub fn is_zero(&self) -> (r: bool)
        ensures
            r == (self@ == 0),
    {
        self.limbs[0] == 0 && self.limbs[1] == 0 && self.limbs[2] == 0 && self.limbs[3] == 0
    }

    /// Whether the two elements are the same.
    pub fn is_equal(&self, other: &Self) -> (r: bool)
        ensures
            r == (self@ == other@),
    {
        proof {
            if self@ == other@ {
                lemma_limbs_value_injective(self.limbs@, other.limbs@);
            }
        }
        self.limbs[0] == other.limbs[0] && self.limbs[1] == other.limbs[1] && self.limbs[2]
            == other.limbs[2] && self.limbs[3] == other.limbs[3]
    }

    /// Whether this element's representative is the smaller one.
    pub fn is_less(&self, other: &Self) -> (r: bool)
        ensures
            r == (self@ < other@),
    {
        limbs_less(&self.limbs, &other.limbs)
    }

    /// The sum of the two elements.
    pub fn add(self, rhs: Self) -> (r: Self)
        ensures
            r@ == field_add(self@, rhs@),
    {
        proof {
            use_type_invariant(&self);
            use_type_invariant(&rhs);
        }
        FieldElement { limbs: ark_add(&self.limbs, &rhs.limbs) }
    }

    /// The difference of the two elements.
    pub fn sub(self, rhs: Self) -> (r: Self)
        ensures
            r@ == field_sub(self@, rhs@),
    {
        proof {
            use_type_invariant(&self);
            use_type_invariant(&rhs);
        }
        FieldElement { limbs: ark_sub(&self.limbs, &rhs.limbs) }
    }

    /// A field element drawn from `rng`.
    pub fn random(rng: &mut rand_chacha::ChaCha12Rng) -> (r: Self)
        ensures
            r@ < modulus(),
    {
        FieldElement { limbs: ark_random(rng) }
    }
}

} // verus!
