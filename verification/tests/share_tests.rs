use private_deposit::field::FieldElement;
use private_deposit::share::{
    combine_field_element, share_field_element, PartyID, Rep3Randomness, Rep3State,
    ReplicatedShare,
};
use rand_chacha::rand_core::SeedableRng;

fn fe(x: u64) -> FieldElement {
    FieldElement::from_u64(x)
}

fn trivial(x: u64) -> [ReplicatedShare; 3] {
    [
        ReplicatedShare::promote_to_trivial_share(PartyID::ID0, fe(x)),
        ReplicatedShare::promote_to_trivial_share(PartyID::ID1, fe(x)),
        ReplicatedShare::promote_to_trivial_share(PartyID::ID2, fe(x)),
    ]
}

fn replicated(s: &[ReplicatedShare; 3]) -> bool {
    s[0].b == s[2].a && s[1].b == s[0].a && s[2].b == s[1].a
}

#[test]
fn party_ids_go_round_the_ring() {
    assert_eq!(PartyID::ID0.next(), PartyID::ID1);
    assert_eq!(PartyID::ID1.next(), PartyID::ID2);
    assert_eq!(PartyID::ID2.next(), PartyID::ID0);
    assert_eq!(PartyID::ID0.prev(), PartyID::ID2);
    assert_eq!(PartyID::ID1.prev(), PartyID::ID0);
    assert_eq!(PartyID::ID2.prev(), PartyID::ID1);
    assert_eq!(PartyID::try_from_usize(0), Some(PartyID::ID0));
    assert_eq!(PartyID::try_from_usize(2), Some(PartyID::ID2));
    assert_eq!(PartyID::try_from_usize(3), None);
    assert_eq!(PartyID::ID1.to_usize(), 1);
}

#[test]
fn trivial_shares_rebuild_the_public_value() {
    let s = trivial(100);
    assert_eq!(s[0], ReplicatedShare::new(fe(100), fe(0)));
    assert_eq!(s[1], ReplicatedShare::new(fe(0), fe(100)));
    assert_eq!(s[2], ReplicatedShare::new(fe(0), fe(0)));
    assert!(replicated(&s));
    assert_eq!(combine_field_element(s[0], s[1], s[2]), fe(100));
}

#[test]
fn splitting_and_combining_gives_the_value_back() {
    let mut rng = rand_chacha::ChaCha12Rng::from_seed([1u8; 32]);
    let s = share_field_element(fe(123456789), &mut rng);
    assert!(replicated(&s));
    assert_ne!(s[0].a, fe(123456789));
    assert_eq!(combine_field_element(s[0], s[1], s[2]), fe(123456789));
}

#[test]
fn sums_and_differences_of_shares_share_the_sum_and_the_difference() {
    let mut rng = rand_chacha::ChaCha12Rng::from_seed([2u8; 32]);
    let x = share_field_element(fe(1000), &mut rng);
    let y = share_field_element(fe(58), &mut rng);
    let sum = [x[0].add(y[0]), x[1].add(y[1]), x[2].add(y[2])];
    let difference = [x[0].sub(y[0]), x[1].sub(y[1]), x[2].sub(y[2])];
    assert!(replicated(&sum));
    assert!(replicated(&difference));
    assert_eq!(combine_field_element(sum[0], sum[1], sum[2]), fe(1058));
    assert_eq!(combine_field_element(difference[0], difference[1], difference[2]), fe(942));
}

#[test]
fn a_public_constant_goes_to_one_summand() {
    let mut rng = rand_chacha::ChaCha12Rng::from_seed([3u8; 32]);
    let x = share_field_element(fe(10), &mut rng);
    let c = fe(0xDEADBEEF);
    let y = [
        x[0].add_public(c, PartyID::ID0),
        x[1].add_public(c, PartyID::ID1),
        x[2].add_public(c, PartyID::ID2),
    ];
    assert_eq!(y[0].a, x[0].a.add(c));
    assert_eq!(y[0].b, x[0].b);
    assert_eq!(y[1].a, x[1].a);
    assert_eq!(y[1].b, x[1].b.add(c));
    assert_eq!(y[2], x[2]);
    assert!(replicated(&y));
    assert_eq!(combine_field_element(y[0], y[1], y[2]), fe(10 + 0xDEADBEEF));
}

#[test]
fn correlated_randomness_is_replicated() {
    let seeds = [[10u8; 32], [11u8; 32], [12u8; 32]];
    let mut s0 = Rep3State::new(PartyID::ID0, seeds[0], seeds[2]);
    let mut s1 = Rep3State::new(PartyID::ID1, seeds[1], seeds[0]);
    let mut s2 = Rep3State::new(PartyID::ID2, seeds[2], seeds[1]);
    assert_eq!(s1.id(), PartyID::ID1);
    for _ in 0..4 {
        let r = [s0.rand(), s1.rand(), s2.rand()];
        assert!(replicated(&r));
        assert_ne!(r[0].a, r[1].a);
    }
    assert_eq!(s2.id(), PartyID::ID2);
}

#[test]
fn zero_share_is_zero() {
    let z = ReplicatedShare::zero_share();
    assert_eq!(z.a, fe(0));
    assert_eq!(z.b, fe(0));
    assert_eq!(combine_field_element(z, z, z), fe(0));
}
