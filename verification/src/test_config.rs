//! Random ledgers and keys to try the protocols on.

use crate::data_structure::{DepositValue, DepositValuePlain, LedgerKey, PrivateDeposit};
use crate::field::FieldElement;
use rand::Rng;
use vstd::prelude::*;

verus! {

/// Draws a number below `bound` with `rand::Rng::gen_range` on the range
/// from 0 up to, and without, `bound`. The range must not be empty.
#[verifier::external_body]
fn random_below(rng: &mut rand_chacha::ChaCha12Rng, bound: u64) -> (r: u64)
    requires
        bound > 0,
    ensures
        r < bound,
{
    rng.gen_range(0..bound)
}

/// Where the random ledgers and keys come from.
pub struct TestConfig {}

impl TestConfig {
    /// A ledger in the clear with `num_items` random keys, each with a random
    /// amount below 2^32 - 1 and a random blinding; the key, the amount and
    /// the blinding of an entry are drawn in this order. `None` where a key
    /// was drawn twice.
    pub fn get_random_plain_map(num_items: usize, rng: &mut rand_chacha::ChaCha12Rng) -> (r: Option<
        PrivateDeposit<FieldElement, DepositValuePlain>,
    >)
        ensures
            num_items == 0 ==> r.is_some(),
            r.is_some() ==> {
                let ledger = r.unwrap();
                &&& ledger@.dom().finite()
                &&& ledger@.len() == num_items
                &&& forall|k: nat| #[trigger]
                    ledger@.contains_key(k) ==> ledger@[k].amount@ < 0xffff_ffff
            },
    {
        let mut ledger: PrivateDeposit<FieldElement, DepositValuePlain> =
            PrivateDeposit::with_capacity(num_items);
        let mut i: usize = 0;
        while i < num_items
            invariant
                i <= num_items,
                ledger@.dom().finite(),
                ledger@.len() == i,
                forall|k: nat| #[trigger]
                    ledger@.contains_key(k) ==> ledger@[k].amount@ < 0xffff_ffff,
            decreases num_items - i,
        {
            let key = FieldElement::random(rng);
            let amount = FieldElement::from_u64(random_below(rng, 0xffff_ffff));
            let blinding = FieldElement::random(rng);
            if ledger.contains_key(&key) {
                return None;
            }
            ledger.insert(key, DepositValue::new(amount, blinding));
            i += 1;
        }
        Some(ledger)
    }

    /// A key of the ledger, drawn among its keys in the canonical order, or
    /// `None` where the ledger has no key.
    pub fn get_random_map_key<K: LedgerKey, V>(
        map: &PrivateDeposit<K, V>,
        rng: &mut rand_chacha::ChaCha12Rng,
    ) -> (r: Option<K>)
        ensures
            r.is_some() == (map@ != Map::<nat, V>::empty()),
            r.is_some() ==> map@.contains_key(r.unwrap().ordinal()),
    {
        if map.is_empty() {
            return None;
        }
        let keys = map.keys();
        let index = random_below(rng, keys.len() as u64) as usize;
        let key = keys[index];
        proof {
            let ordinals = Seq::new(keys@.len(), |i: int| keys@[i].ordinal());
            assert(ordinals[index as int] == key.ordinal());
            assert(ordinals.contains(key.ordinal()));
        }
        Some(key)
    }
}

} // verus!
