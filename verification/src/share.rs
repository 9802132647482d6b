//! Replicated three-party secret shares of field elements.
//!
//! A secret `x` is split into three summands `x0 + x1 + x2 = x`. The party with
//! id `i` holds the pair `(a, b) = (x_i, x_{i-1})`, indices taken modulo 3, so
//! each summand is known to two parties and any two parties can rebuild `x`.
//! Sums and differences of shared values are computed on the shares alone.

use crate::field::{
    field_add, field_sub, lemma_congruent, lemma_remainder, lemma_remainder_canonical, modulus,
    FieldElement,
};
use rand_chacha::rand_core::SeedableRng;
use vstd::prelude::*;

verus! {

/// The id of one of the three computing parties.
#[derive(Clone, Copy, Debug, PartialEq, Eq)]
pub enum PartyID {
    ID0,
    ID1,
    ID2,
}

impl PartyID {
    /// The id as a number in 0..3.
    pub open spec fn index(self) -> nat {
        match self {
            PartyID::ID0 => 0,
            PartyID::ID1 => 1,
            PartyID::ID2 => 2,
        }
    }

    /// The id with this number, or `None` where the number is not below 3.
    pub fn try_from_usize(value: usize) -> (r: Option<Self>)
        ensures
            value < 3 ==> r.is_some() && r.unwrap().index() == value,
            value >= 3 ==> r.is_none(),
    {
        if value == 0 {
            Some(PartyID::ID0)
        } else if value == 1 {
            Some(PartyID::ID1)
        } else if value == 2 {
            Some(PartyID::ID2)
        } else {
            None
        }
    }

    /// The id as a number in 0..3.
    pub fn to_usize(self) -> (r: usize)
        ensures
            r == self.index(),
    {
        match self {
            PartyID::ID0 => 0,
            PartyID::ID1 => 1,
            PartyID::ID2 => 2,
        }
    }

    /// The party that follows this one on the ring.
    pub fn next(self) -> (r: Self)
        ensures
            r.index() == (self.index() + 1) % 3,
    {
        match self {
            PartyID::ID0 => PartyID::ID1,
            PartyID::ID1 => PartyID::ID2,
            PartyID::ID2 => PartyID::ID0,
        }
    }

    /// The party that precedes this one on the ring.
    pub fn prev(self) -> (r: Self)
        ensures
            r.index() == (self.index() + 2) % 3,
    {
        match self {
            PartyID::ID0 => PartyID::ID2,
            PartyID::ID1 => PartyID::ID0,
            PartyID::ID2 => PartyID::ID1,
        }
    }
}

/// Going to the next party and back, or back and on, ends where it began.
pub proof fn lemma_ring_neighbours(a: PartyID, b: PartyID)
    ensures
        b.index() == (a.index() + 1) % 3 <==> a.index() == (b.index() + 2) % 3,
{
}

/// The sum of two shares of one party: component by component.
pub open spec fn share_add(x: (nat, nat), y: (nat, nat)) -> (nat, nat) {
    (field_add(x.0, y.0), field_add(x.1, y.1))
}

/// The difference of two shares of one party: component by component.
pub open spec fn share_sub(x: (nat, nat), y: (nat, nat)) -> (nat, nat) {
    (field_sub(x.0, y.0), field_sub(x.1, y.1))
}

/// A share of party `id` after a public constant was added to the secret. The
/// constant goes to the first summand, which party 0 holds as `a` and party 1
/// as `b`; party 2 does not hold it.
pub open spec fn share_add_public(x: (nat, nat), public: nat, id: PartyID) -> (nat, nat) {
    match id {
        PartyID::ID0 => (field_add(x.0, public), x.1),
        PartyID::ID1 => (x.0, field_add(x.1, public)),
        PartyID::ID2 => x,
    }
}

/// The share that party `id` holds of a public value: the value is the first
/// summand, the other two summands are 0.
pub open spec fn trivial_share(id: PartyID, public: nat) -> (nat, nat) {
    match id {
        PartyID::ID0 => (public, 0),
        PartyID::ID1 => (0, public),
        PartyID::ID2 => (0, 0),
    }
}

/// The secret that the shares of the parties 0, 1 and 2 stand for.
pub open spec fn reconstruct(s0: (nat, nat), s1: (nat, nat), s2: (nat, nat)) -> nat {
    (s0.0 + s1.0 + s2.0) % modulus()
}

/// Whether three shares are replicated as they should be: each party's `b` is
/// the `a` of the party before it.
pub open spec fn replicated(s0: (nat, nat), s1: (nat, nat), s2: (nat, nat)) -> bool {
    s0.1 == s2.0 && s1.1 == s0.0 && s2.1 == s1.0
}

/// Whether both components of a share are canonical field elements.
pub open spec fn share_canonical(s: (nat, nat)) -> bool {
    s.0 < modulus() && s.1 < modulus()
}

/// Whether the three shares are a replicated sharing of `secret`.
pub open spec fn is_sharing_of(s0: (nat, nat), s1: (nat, nat), s2: (nat, nat), secret: nat) -> bool {
    &&& share_canonical(s0)
    &&& share_canonical(s1)
    &&& share_canonical(s2)
    &&& replicated(s0, s1, s2)
    &&& reconstruct(s0, s1, s2) == secret
}

/// Adding the shares party by party adds the secrets.
pub proof fn lemma_add_is_homomorphic(
    x0: (nat, nat),
    x1: (nat, nat),
    x2: (nat, nat),
    y0: (nat, nat),
    y1: (nat, nat),
    y2: (nat, nat),
)
    ensures
        reconstruct(share_add(x0, y0), share_add(x1, y1), share_add(x2, y2)) == field_add(
            reconstruct(x0, x1, x2),
            reconstruct(y0, y1, y2),
        ),
        replicated(x0, x1, x2) && replicated(y0, y1, y2) ==> replicated(
            share_add(x0, y0),
            share_add(x1, y1),
            share_add(x2, y2),
        ),
        share_canonical(share_add(x0, y0)),
        share_canonical(share_add(x1, y1)),
        share_canonical(share_add(x2, y2)),
{
    let m = modulus() as int;
    let (a0, a1, a2) = (x0.0 as int, x1.0 as int, x2.0 as int);
    let (b0, b1, b2) = (y0.0 as int, y1.0 as int, y2.0 as int);
    let k0 = lemma_remainder(a0 + b0);
    let k1 = lemma_remainder(a1 + b1);
    let k2 = lemma_remainder(a2 + b2);
    let kx = lemma_remainder(a0 + a1 + a2);
    let ky = lemma_remainder(b0 + b1 + b2);
    let total = a0 + a1 + a2 + b0 + b1 + b2;
    let left: int = (field_add(x0.0, y0.0) + field_add(x1.0, y1.0) + field_add(x2.0, y2.0)) as int;
    let right: int = (reconstruct(x0, x1, x2) + reconstruct(y0, y1, y2)) as int;
    assert(left == total + (k0 + k1 + k2) * m) by (nonlinear_arith)
        requires
            left == (a0 + b0 + k0 * m) + (a1 + b1 + k1 * m) + (a2 + b2 + k2 * m),
            total == a0 + a1 + a2 + b0 + b1 + b2,
    ;
    assert(right == total + (kx + ky) * m) by (nonlinear_arith)
        requires
            right == (a0 + a1 + a2 + kx * m) + (b0 + b1 + b2 + ky * m),
            total == a0 + a1 + a2 + b0 + b1 + b2,
    ;
    lemma_congruent(left, total, k0 + k1 + k2);
    lemma_congruent(right, total, kx + ky);
    lemma_remainder_canonical(a0 + b0);
    lemma_remainder_canonical(a1 + b1);
    lemma_remainder_canonical(a2 + b2);
    lemma_remainder_canonical(x0.1 as int + y0.1 as int);
    lemma_remainder_canonical(x1.1 as int + y1.1 as int);
    lemma_remainder_canonical(x2.1 as int + y2.1 as int);
}

/// Subtracting the shares party by party subtracts the secrets.
pub proof fn lemma_sub_is_homomorphic(
    x0: (nat, nat),
    x1: (nat, nat),
    x2: (nat, nat),
    y0: (nat, nat),
    y1: (nat, nat),
    y2: (nat, nat),
)
    ensures
        reconstruct(share_sub(x0, y0), share_sub(x1, y1), share_sub(x2, y2)) == field_sub(
            reconstruct(x0, x1, x2),
            reconstruct(y0, y1, y2),
        ),
        replicated(x0, x1, x2) && replicated(y0, y1, y2) ==> replicated(
            share_sub(x0, y0),
            share_sub(x1, y1),
            share_sub(x2, y2),
        ),
        share_canonical(share_sub(x0, y0)),
        share_canonical(share_sub(x1, y1)),
        share_canonical(share_sub(x2, y2)),
{
    let m = modulus() as int;
    let (a0, a1, a2) = (x0.0 as int, x1.0 as int, x2.0 as int);
    let (b0, b1, b2) = (y0.0 as int, y1.0 as int, y2.0 as int);
    let k0 = lemma_remainder(a0 - b0);
    let k1 = lemma_remainder(a1 - b1);
    let k2 = lemma_remainder(a2 - b2);
    let kx = lemma_remainder(a0 + a1 + a2);
    let ky = lemma_remainder(b0 + b1 + b2);
    let total = a0 + a1 + a2 - b0 - b1 - b2;
    lemma_remainder_canonical(a0 - b0);
    lemma_remainder_canonical(a1 - b1);
    lemma_remainder_canonical(a2 - b2);
    lemma_remainder_canonical(x0.1 as int - y0.1 as int);
    lemma_remainder_canonical(x1.1 as int - y1.1 as int);
    lemma_remainder_canonical(x2.1 as int - y2.1 as int);
    let left: int = (field_sub(x0.0, y0.0) + field_sub(x1.0, y1.0) + field_sub(x2.0, y2.0)) as int;
    let right: int = reconstruct(x0, x1, x2) as int - reconstruct(y0, y1, y2) as int;
    assert(left == total + (k0 + k1 + k2) * m) by (nonlinear_arith)
        requires
            left == (a0 - b0 + k0 * m) + (a1 - b1 + k1 * m) + (a2 - b2 + k2 * m),
            total == a0 + a1 + a2 - b0 - b1 - b2,
    ;
    assert(right == total + (kx - ky) * m) by (nonlinear_arith)
        requires
            right == (a0 + a1 + a2 + kx * m) - (b0 + b1 + b2 + ky * m),
            total == a0 + a1 + a2 - b0 - b1 - b2,
    ;
    lemma_congruent(left, total, k0 + k1 + k2);
    lemma_congruent(right, total, kx - ky);
}

/// The trivial shares that the three parties make of one public value are a
/// sharing of it.
pub proof fn lemma_trivial_shares(public: nat)
    requires
        public < modulus(),
    ensures
        is_sharing_of(
            trivial_share(PartyID::ID0, public),
            trivial_share(PartyID::ID1, public),
            trivial_share(PartyID::ID2, public),
            public,
        ),
{
    lemma_remainder(public as int);
    lemma_remainder_canonical(0);
}

/// Where every party adds the same public constant to its share, the constant
/// is added to the secret once, and the shares stay replicated.
pub proof fn lemma_add_public_is_homomorphic(
    x0: (nat, nat),
    x1: (nat, nat),
    x2: (nat, nat),
    public: nat,
)
    ensures
        reconstruct(
            share_add_public(x0, public, PartyID::ID0),
            share_add_public(x1, public, PartyID::ID1),
            share_add_public(x2, public, PartyID::ID2),
        ) == field_add(reconstruct(x0, x1, x2), public),
        replicated(x0, x1, x2) ==> replicated(
            share_add_public(x0, public, PartyID::ID0),
            share_add_public(x1, public, PartyID::ID1),
            share_add_public(x2, public, PartyID::ID2),
        ),
        share_canonical(x0) ==> share_canonical(share_add_public(x0, public, PartyID::ID0)),
        share_canonical(x1) ==> share_canonical(share_add_public(x1, public, PartyID::ID1)),
{
    lemma_remainder_canonical(x0.0 as int + public as int);
    lemma_remainder_canonical(x1.1 as int + public as int);
    let m = modulus() as int;
    let k0 = lemma_remainder(x0.0 as int + public as int);
    let kx = lemma_remainder(x0.0 as int + x1.0 as int + x2.0 as int);
    let total: int = x0.0 as int + x1.0 as int + x2.0 as int + public as int;
    let left: int = (field_add(x0.0, public) + x1.0 + x2.0) as int;
    let right: int = (reconstruct(x0, x1, x2) + public) as int;
    assert(left == total + k0 * m);
    assert(right == total + kx * m);
    lemma_congruent(left, total, k0);
    lemma_congruent(right, total, kx);
}

/// The share that one party holds of a secret field element.
#[derive(Clone, Copy, Debug, PartialEq, Eq)]
pub struct ReplicatedShare {
    /// The summand of this party.
    pub a: FieldElement,
    /// The summand of the party before it.
    pub b: FieldElement,
}

impl View for ReplicatedShare {
    type V = (nat, nat);

    open spec fn view(&self) -> (nat, nat) {
        (self.a@, self.b@)
    }
}

impl ReplicatedShare {
    /// The share with these two components.
    pub fn new(a: FieldElement, b: FieldElement) -> (r: Self)
        ensures
            r.a == a,
            r.b == b,
    {
        ReplicatedShare { a, b }
    }

    /// The share of 0 in which both summands are 0.
    pub fn zero_share() -> (r: Self)
        ensures
            r@ == (0nat, 0nat),
    {
        ReplicatedShare { a: FieldElement::zero(), b: FieldElement::zero() }
    }

    /// The share that party `id` holds of a public value.
    pub fn promote_to_trivial_share(id: PartyID, public_value: FieldElement) -> (r: Self)
        ensures
            r@ == trivial_share(id, public_value@),
    {
        match id {
            PartyID::ID0 => ReplicatedShare { a: public_value, b: FieldElement::zero() },
            PartyID::ID1 => ReplicatedShare { a: FieldElement::zero(), b: public_value },
            PartyID::ID2 => ReplicatedShare::zero_share(),
        }
    }

    /// This party's share of the sum of the two secrets.
    pub fn add(self, rhs: Self) -> (r: Self)
        ensures
            r@ == share_add(self@, rhs@),
    {
        ReplicatedShare { a: self.a.add(rhs.a), b: self.b.add(rhs.b) }
    }

    /// This party's share of the difference of the two secrets.
    pub fn sub(self, rhs: Self) -> (r: Self)
        ensures
            r@ == share_sub(self@, rhs@),
    {
        ReplicatedShare { a: self.a.sub(rhs.a), b: self.b.sub(rhs.b) }
    }

    /// The share of party `id` of the secret plus a public constant.
    pub fn add_public(self, public_value: FieldElement, id: PartyID) -> (r: Self)
        ensures
            r@ == share_add_public(self@, public_value@, id),
    {
        match id {
            PartyID::ID0 => ReplicatedShare { a: self.a.add(public_value), b: self.b },
            PartyID::ID1 => ReplicatedShare { a: self.a, b: self.b.add(public_value) },
            PartyID::ID2 => self,
        }
    }
}

/// Makes the generator that `rand_chacha::ChaCha12Rng::from_seed`
/// (`rand_core::SeedableRng`) gives for a seed of 32 bytes.
#[verifier::external_body]
fn chacha_from_seed(seed: [u8; 32]) -> (rng: rand_chacha::ChaCha12Rng) {
    rand_chacha::ChaCha12Rng::from_seed(seed)
}

/// What one party keeps between the steps of the protocol: its id and the two
/// generators of its correlated randomness. The first generator is seeded by
/// the party itself, the second by the party before it, so that what a party
/// draws as `b` is what the party before it draws as `a`.
pub struct Rep3State {
    id: PartyID,
    own: rand_chacha::ChaCha12Rng,
    prev: rand_chacha::ChaCha12Rng,
}

/// A source of a party's fresh random shares: its part of the randomness
/// that the three parties draw together, so that what they draw at the same
/// step is a sharing of a random secret.
pub trait Rep3Randomness {
    /// This party's share of a fresh random secret.
    fn rand(&mut self) -> (r: ReplicatedShare);
}

impl Rep3State {
    /// The state of party `id` with its own seed and the seed that the party
    /// before it chose.
    pub fn new(id: PartyID, own_seed: [u8; 32], prev_seed: [u8; 32]) -> (r: Self)
        ensures
            r.party() == id,
    {
        Rep3State { id, own: chacha_from_seed(own_seed), prev: chacha_from_seed(prev_seed) }
    }

    /// The id of the party that holds this state.
    pub closed spec fn party(&self) -> PartyID {
        self.id
    }

    /// The id of the party that holds this state.
    pub fn id(&self) -> (r: PartyID)
        ensures
            r == self.party(),
    {
        self.id
    }
}

impl Rep3Randomness for Rep3State {
    /// Draws the first summand from the party's own generator and the second
    /// from the generator of the party before it. Both are field elements in
    /// canonical form, whatever the generators give; the id stays.
    fn rand(&mut self) -> (r: ReplicatedShare)
        ensures
            share_canonical(r@),
            final(self).party() == old(self).party(),
    {
        let a = FieldElement::random(&mut self.own);
        let b = FieldElement::random(&mut self.prev);
        ReplicatedShare { a, b }
    }
}

/// Splits `value` into the shares of the parties 0, 1 and 2. Two summands are
/// drawn from `rng`, the third makes up the difference.
pub fn share_field_element(value: FieldElement, rng: &mut rand_chacha::ChaCha12Rng) -> (r: [ReplicatedShare; 3])
    ensures
        is_sharing_of(r[0]@, r[1]@, r[2]@, value@),
{
    let a = FieldElement::random(rng);
    let b = FieldElement::random(rng);
    let c = value.sub(a).sub(b);
    proof {
        use_type_invariant(&a);
        use_type_invariant(&b);
        use_type_invariant(&c);
        use_type_invariant(&value);
        let m = modulus() as int;
        let (av, bv, vv) = (a@ as int, b@ as int, value@ as int);
        let k0 = lemma_remainder(vv - av);
        let k1 = lemma_remainder(field_sub(value@, a@) as int - bv);
        let kv = lemma_remainder(vv);
        let sum: int = (a@ + b@ + c@) as int;
        assert(sum == vv + (k0 + k1) * m) by (nonlinear_arith)
            requires
                sum == av + bv + ((vv - av + k0 * m) - bv + k1 * m),
        ;
        lemma_congruent(sum, vv, k0 + k1);
    }
    [
        ReplicatedShare { a: a, b: c },
        ReplicatedShare { a: b, b: a },
        ReplicatedShare { a: c, b: b },
    ]
}

/// The secret that the shares of the parties 0, 1 and 2 stand for.
pub fn combine_field_element(
    share0: ReplicatedShare,
    share1: ReplicatedShare,
    share2: ReplicatedShare,
) -> (r: FieldElement)
    ensures
        r@ == reconstruct(share0@, share1@, share2@),
{
    proof {
        let m = modulus() as int;
        let k = lemma_remainder(share0.a@ as int + share1.a@ as int);
        lemma_congruent(
            (field_add(share0.a@, share1.a@) + share2.a@) as int,
            (share0.a@ + share1.a@ + share2.a@) as int,
            k,
        );
    }
    share0.a.add(share1.a).add(share2.a)
}

} // verus!
