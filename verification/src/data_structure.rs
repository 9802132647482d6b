//! The ledger: a map from keys to values, kept in the canonical order of its
//! keys, so that every party that holds the same keys lays them out alike.

use crate::field::{field_add, field_sub, FieldElement};
use crate::share::{
    is_sharing_of, share_add, share_field_element, share_sub, Rep3Randomness, ReplicatedShare,
};
use vstd::prelude::*;

verus! {

/// A key of the ledger. Keys are told apart and ordered by their ordinal.
pub trait LedgerKey: Copy {
    /// The place of the key in the canonical order.
    spec fn ordinal(&self) -> nat;

    /// Whether the two keys are the same key.
    fn same_key(&self, other: &Self) -> (r: bool)
        ensures
            r == (self.ordinal() == other.ordinal()),
    ;

    /// Whether this key comes before the other in the canonical order.
    fn key_before(&self, other: &Self) -> (r: bool)
        ensures
            r == (self.ordinal() < other.ordinal()),
    ;
}

impl LedgerKey for FieldElement {
    open spec fn ordinal(&self) -> nat {
        self@
    }

    fn same_key(&self, other: &Self) -> (r: bool) {
        self.is_equal(other)
    }

    fn key_before(&self, other: &Self) -> (r: bool) {
        self.is_less(other)
    }
}

impl LedgerKey for u64 {
    open spec fn ordinal(&self) -> nat {
        *self as nat
    }

    fn same_key(&self, other: &Self) -> (r: bool) {
        *self == *other
    }

    fn key_before(&self, other: &Self) -> (r: bool) {
        *self < *other
    }
}

/// The ordinal of the key of entry `i`.
pub open spec fn key_at<K: LedgerKey, V>(entries: Seq<(K, V)>, i: int) -> nat {
    entries[i].0.ordinal()
}

/// Whether the keys of the entries increase strictly; no key then occurs twice.
pub open spec fn strictly_sorted<K: LedgerKey, V>(entries: Seq<(K, V)>) -> bool {
    forall|i: int, j: int|
        0 <= i < j < entries.len() ==> #[trigger] key_at(entries, i) < #[trigger] key_at(
            entries,
            j,
        )
}

/// Whether some entry has the key with ordinal `k`.
pub open spec fn has_key<K: LedgerKey, V>(entries: Seq<(K, V)>, k: nat) -> bool {
    exists|i: int| 0 <= i < entries.len() && #[trigger] key_at(entries, i) == k
}

/// The index of an entry with the key with ordinal `k`.
pub open spec fn slot_of<K: LedgerKey, V>(entries: Seq<(K, V)>, k: nat) -> int {
    choose|i: int| 0 <= i < entries.len() && #[trigger] key_at(entries, i) == k
}

/// The map that the entries stand for, from the ordinal of a key to its value.
pub open spec fn entries_map<K: LedgerKey, V>(entries: Seq<(K, V)>) -> Map<nat, V> {
    Map::new(|k: nat| has_key(entries, k), |k: nat| entries[slot_of(entries, k)].1)
}

/// Whether `keys` lists the keys of `ledger` in the canonical order: every key
/// once, in increasing order.
pub open spec fn is_canonical_order<V>(keys: Seq<nat>, ledger: Map<nat, V>) -> bool {
    &&& forall|i: int, j: int| 0 <= i < j < keys.len() ==> keys[i] < keys[j]
    &&& forall|k: nat| ledger.contains_key(k) <==> keys.contains(k)
}

/// In sorted entries the entry of a key is found at its own index.
pub proof fn lemma_slot<K: LedgerKey, V>(entries: Seq<(K, V)>, i: int)
    requires
        strictly_sorted(entries),
        0 <= i < entries.len(),
    ensures
        has_key(entries, key_at(entries, i)),
        slot_of(entries, key_at(entries, i)) == i,
        entries_map(entries).contains_key(key_at(entries, i)),
        entries_map(entries)[key_at(entries, i)] == entries[i].1,
{
    let k = key_at(entries, i);
    let j = slot_of(entries, k);
    assert(0 <= j < entries.len() && key_at(entries, j) == k);
    if j < i {
        assert(key_at(entries, j) < key_at(entries, i));
    }
    if i < j {
        assert(key_at(entries, i) < key_at(entries, j));
    }
}

/// A new entry put at the place that the order gives it adds its key to the
/// map and keeps the entries sorted.
pub proof fn lemma_insert_entry<K: LedgerKey, V>(entries: Seq<(K, V)>, i: int, entry: (K, V))
    requires
        strictly_sorted(entries),
        0 <= i <= entries.len(),
        forall|j: int| 0 <= j < i ==> #[trigger] key_at(entries, j) < entry.0.ordinal(),
        forall|j: int| i <= j < entries.len() ==> #[trigger] key_at(entries, j) > entry.0.ordinal(),
    ensures
        strictly_sorted(entries.insert(i, entry)),
        entries_map(entries.insert(i, entry)) == entries_map(entries).insert(
            entry.0.ordinal(),
            entry.1,
        ),
        !has_key(entries, entry.0.ordinal()),
{
    let after = entries.insert(i, entry);
    let k = entry.0.ordinal();
    assert forall|a: int, b: int| 0 <= a < b < after.len() implies #[trigger] key_at(after, a)
        < #[trigger] key_at(after, b) by {
        let a0 = if a < i {
            a
        } else {
            a - 1
        };
        let b0 = if b < i {
            b
        } else {
            b - 1
        };
        if a != i {
            assert(key_at(after, a) == key_at(entries, a0));
        }
        if b != i {
            assert(key_at(after, b) == key_at(entries, b0));
        }
        if a != i && b != i {
            assert(key_at(entries, a0) < key_at(entries, b0));
        }
    }
    assert(key_at(after, i) == k);
    assert forall|q: nat| #[trigger] has_key(after, q) <==> (q == k || has_key(entries, q)) by {
        if has_key(after, q) {
            let a = choose|a: int| 0 <= a < after.len() && #[trigger] key_at(after, a) == q;
            if a < i {
                assert(key_at(entries, a) == q);
            } else if a > i {
                assert(key_at(entries, a - 1) == q);
            }
        }
        if has_key(entries, q) {
            let a = choose|a: int| 0 <= a < entries.len() && #[trigger] key_at(entries, a) == q;
            if a < i {
                assert(key_at(after, a) == q);
            } else {
                assert(key_at(after, a + 1) == q);
            }
        }
    }
    assert forall|q: nat| has_key(after, q) implies #[trigger] entries_map(after)[q]
        == entries_map(entries).insert(k, entry.1)[q] by {
        let a = slot_of(after, q);
        lemma_slot(after, a);
        if a < i {
            lemma_slot(entries, a);
        } else if a > i {
            lemma_slot(entries, a - 1);
        }
    }
    assert(entries_map(after) =~= entries_map(entries).insert(k, entry.1));
}

/// Taking an entry out takes its key out of the map and nothing else.
pub proof fn lemma_remove_entry<K: LedgerKey, V>(entries: Seq<(K, V)>, i: int)
    requires
        strictly_sorted(entries),
        0 <= i < entries.len(),
    ensures
        strictly_sorted(entries.remove(i)),
        entries_map(entries.remove(i)) == entries_map(entries).remove(key_at(entries, i)),
{
    let after = entries.remove(i);
    let k = key_at(entries, i);
    assert forall|a: int| 0 <= a < after.len() implies #[trigger] key_at(after, a) == key_at(
        entries,
        if a < i {
            a
        } else {
            a + 1
        },
    ) by {}
    assert forall|a: int, b: int| 0 <= a < b < after.len() implies #[trigger] key_at(after, a)
        < #[trigger] key_at(after, b) by {
        let a0 = if a < i {
            a
        } else {
            a + 1
        };
        let b0 = if b < i {
            b
        } else {
            b + 1
        };
        assert(key_at(entries, a0) < key_at(entries, b0));
    }
    assert forall|q: nat| #[trigger] has_key(after, q) <==> (q != k && has_key(entries, q)) by {
        if has_key(after, q) {
            let a = choose|a: int| 0 <= a < after.len() && #[trigger] key_at(after, a) == q;
            let a0 = if a < i {
                a
            } else {
                a + 1
            };
            assert(key_at(entries, a0) == q);
            if a0 < i {
                assert(key_at(entries, a0) < key_at(entries, i));
            } else {
                assert(key_at(entries, i) < key_at(entries, a0));
            }
        }
        if q != k && has_key(entries, q) {
            let a = choose|a: int| 0 <= a < entries.len() && #[trigger] key_at(entries, a) == q;
            if a < i {
                assert(key_at(after, a) == q);
            } else {
                assert(key_at(after, a - 1) == q);
            }
        }
    }
    assert forall|q: nat| has_key(after, q) implies #[trigger] entries_map(after)[q]
        == entries_map(entries).remove(k)[q] by {
        let a = slot_of(after, q);
        lemma_slot(after, a);
        if a < i {
            lemma_slot(entries, a);
        } else {
            lemma_slot(entries, a + 1);
        }
    }
    assert(entries_map(after) =~= entries_map(entries).remove(k));
}

/// The map of sorted entries has as many keys as there are entries.
pub proof fn lemma_entries_count<K: LedgerKey, V>(entries: Seq<(K, V)>)
    requires
        strictly_sorted(entries),
    ensures
        entries_map(entries).dom().finite(),
        entries_map(entries).dom().len() == entries.len(),
    decreases entries.len(),
{
    if entries.len() == 0 {
        assert(entries_map(entries).dom() =~= Set::<nat>::empty());
    } else {
        let last = entries.len() - 1;
        let shorter = entries.remove(last);
        lemma_remove_entry(entries, last);
        lemma_entries_count(shorter);
        lemma_slot(entries, last);
        let k = key_at(entries, last);
        assert(entries_map(entries).dom() =~= entries_map(shorter).dom().insert(k));
    }
}

/// The keys of sorted entries, in their order, are the canonical order of the
/// map.
pub proof fn lemma_entries_order<K: LedgerKey, V>(entries: Seq<(K, V)>)
    requires
        strictly_sorted(entries),
    ensures
        is_canonical_order(
            Seq::new(entries.len(), |i: int| key_at(entries, i)),
            entries_map(entries),
        ),
{
    let keys = Seq::new(entries.len(), |i: int| key_at(entries, i));
    assert forall|i: int, j: int| 0 <= i < j < keys.len() implies keys[i] < keys[j] by {
        assert(key_at(entries, i) < key_at(entries, j));
    }
    assert forall|k: nat| entries_map(entries).contains_key(k) <==> keys.contains(k) by {
        if has_key(entries, k) {
            let a = slot_of(entries, k);
            assert(keys[a] == k);
        }
        if keys.contains(k) {
            let a = choose|a: int| 0 <= a < keys.len() && keys[a] == k;
            assert(key_at(entries, a) == k);
        }
    }
}

/// A map has one canonical order only.
pub proof fn lemma_canonical_order_unique<V, W>(
    first: Seq<nat>,
    second: Seq<nat>,
    ledger: Map<nat, V>,
    other: Map<nat, W>,
)
    requires
        is_canonical_order(first, ledger),
        is_canonical_order(second, other),
        ledger.dom() == other.dom(),
    ensures
        first == second,
    decreases first.len(),
{
    if first.len() == 0 {
        if second.len() > 0 {
            assert(second.contains(second[0]));
            assert(other.dom().contains(second[0]));
            assert(first.contains(second[0]));
        }
        assert(first =~= second);
    } else {
        let n = first.len() - 1;
        let top = first[n];
        assert(first.contains(top));
        assert(other.dom().contains(top));
        assert(second.contains(top));
        let at = choose|a: int| 0 <= a < second.len() && second[a] == top;
        if at < second.len() - 1 {
            let bigger = second[second.len() - 1];
            assert(second.contains(bigger));
            assert(ledger.dom().contains(bigger));
            assert(first.contains(bigger));
            let b = choose|b: int| 0 <= b < first.len() && first[b] == bigger;
            assert(b < n ==> first[b] < first[n]);
            assert(false);
        }
        let first_rest = first.drop_last();
        let second_rest = second.drop_last();
        let ledger_rest = ledger.remove(top);
        let other_rest = other.remove(top);
        assert forall|k: nat| ledger_rest.contains_key(k) <==> first_rest.contains(k) by {
            if ledger_rest.contains_key(k) {
                assert(first.contains(k));
                let a = choose|a: int| 0 <= a < first.len() && first[a] == k;
                assert(first_rest[a] == k);
            }
            if first_rest.contains(k) {
                let a = choose|a: int| 0 <= a < first_rest.len() && first_rest[a] == k;
                assert(first[a] == k);
                assert(first[a] < first[n]);
                assert(first.contains(k));
            }
        }
        assert forall|k: nat| other_rest.contains_key(k) <==> second_rest.contains(k) by {
            if other_rest.contains_key(k) {
                assert(second.contains(k));
                let a = choose|a: int| 0 <= a < second.len() && second[a] == k;
                assert(second_rest[a] == k);
            }
            if second_rest.contains(k) {
                let a = choose|a: int| 0 <= a < second_rest.len() && second_rest[a] == k;
                assert(second[a] == k);
                assert(second[a] < second[at]);
                assert(second.contains(k));
            }
        }
        assert(ledger_rest.dom() =~= other_rest.dom());
        lemma_canonical_order_unique(first_rest, second_rest, ledger_rest, other_rest);
        assert(first =~= first_rest.push(top));
        assert(second =~= second_rest.push(top));
    }
}

/// Entries that have the keys of sorted entries, place by place, are sorted
/// too and stand for a map with the same keys.
pub proof fn lemma_same_keys<K: LedgerKey, V, W>(entries: Seq<(K, V)>, other: Seq<(K, W)>)
    requires
        strictly_sorted(entries),
        other.len() == entries.len(),
        forall|i: int| 0 <= i < entries.len() ==> (#[trigger] other[i]).0 == entries[i].0,
    ensures
        strictly_sorted(other),
        entries_map(other).dom() == entries_map(entries).dom(),
        forall|i: int|
            0 <= i < entries.len() ==> #[trigger] key_at(other, i) == key_at(entries, i),
{
    assert forall|i: int| 0 <= i < entries.len() implies #[trigger] key_at(other, i) == key_at(
        entries,
        i,
    ) by {
        assert(other[i].0 == entries[i].0);
    }
    assert forall|a: int, b: int| 0 <= a < b < other.len() implies #[trigger] key_at(other, a)
        < #[trigger] key_at(other, b) by {
        assert(key_at(entries, a) < key_at(entries, b));
    }
    assert forall|k: nat| has_key(other, k) <==> has_key(entries, k) by {
        if has_key(other, k) {
            let a = slot_of(other, k);
            assert(key_at(entries, a) == k);
        }
        if has_key(entries, k) {
            let a = slot_of(entries, k);
            assert(key_at(other, a) == k);
        }
    }
    assert(entries_map(other).dom() =~= entries_map(entries).dom());
}

/// A ledger: at most one value for each key.
#[derive(Debug)]
pub struct PrivateDeposit<K: LedgerKey, V> {
    inner: Vec<(K, V)>,
}

impl<K: LedgerKey, V> View for PrivateDeposit<K, V> {
    type V = Map<nat, V>;

    closed spec fn view(&self) -> Map<nat, V> {
        entries_map(self.inner@)
    }
}

impl<K: LedgerKey, V> PrivateDeposit<K, V> {
    /// The entries are kept in the canonical order of their keys.
    #[verifier::type_invariant]
    closed spec fn well_formed(&self) -> bool {
        strictly_sorted(self.inner@)
    }

    /// The entries as they are held, in the canonical order of their keys.
    pub closed spec fn entries(&self) -> Seq<(K, V)> {
        self.inner@
    }

    /// The empty ledger.
    pub fn new() -> (r: Self)
        ensures
            r@ == Map::<nat, V>::empty(),
            r.entries().len() == 0,
    {
        let r = PrivateDeposit { inner: Vec::new() };
        assert(r@ =~= Map::<nat, V>::empty());
        r
    }

    /// The empty ledger, with room for `capacity` entries.
    pub fn with_capacity(capacity: usize) -> (r: Self)
        ensures
            r@ == Map::<nat, V>::empty(),
            r.entries().len() == 0,
    {
        let r = PrivateDeposit { inner: Vec::with_capacity(capacity) };
        assert(r@ =~= Map::<nat, V>::empty());
        r
    }

    /// The index of the first entry whose key is not before `key`, and whether
    /// that entry has the key.
    fn locate(&self, key: &K) -> (r: (usize, bool))
        ensures
            r.0 <= self.inner@.len(),
            forall|j: int| 0 <= j < r.0 ==> #[trigger] key_at(self.inner@, j) < key.ordinal(),
            forall|j: int|
                r.0 <= j < self.inner@.len() ==> #[trigger] key_at(self.inner@, j)
                    >= key.ordinal(),
            r.1 == has_key(self.inner@, key.ordinal()),
            r.1 ==> r.0 < self.inner@.len() && key_at(self.inner@, r.0 as int) == key.ordinal(),
            r.1 == self@.contains_key(key.ordinal()),
    {
        proof {
            use_type_invariant(&*self);
        }
        let mut lo: usize = 0;
        let mut hi: usize = self.inner.len();
        while lo < hi
            invariant
                lo <= hi <= self.inner@.len(),
                strictly_sorted(self.inner@),
                forall|j: int| 0 <= j < lo ==> #[trigger] key_at(self.inner@, j) < key.ordinal(),
                forall|j: int|
                    hi <= j < self.inner@.len() ==> #[trigger] key_at(self.inner@, j)
                        >= key.ordinal(),
            decreases hi - lo,
        {
            let mid: usize = lo + (hi - lo) / 2;
            if self.inner[mid].0.key_before(key) {
                assert forall|j: int| 0 <= j < mid + 1 implies #[trigger] key_at(self.inner@, j)
                    < key.ordinal() by {
                    if j < mid {
                        assert(key_at(self.inner@, j) < key_at(self.inner@, mid as int));
                    }
                }
                lo = mid + 1;
            } else {
                assert forall|j: int| mid <= j < self.inner@.len() implies #[trigger] key_at(
                    self.inner@,
                    j,
                ) >= key.ordinal() by {
                    if mid < j {
                        assert(key_at(self.inner@, mid as int) < key_at(self.inner@, j));
                    }
                }
                hi = mid;
            }
        }
        let found = lo < self.inner.len() && self.inner[lo].0.same_key(key);
        proof {
            if found {
                assert(key_at(self.inner@, lo as int) == key.ordinal());
            }
            if has_key(self.inner@, key.ordinal()) {
                let a = slot_of(self.inner@, key.ordinal());
                assert(key_at(self.inner@, a) == key.ordinal());
                if a > lo {
                    assert(key_at(self.inner@, lo as int) < key_at(self.inner@, a));
                    assert(key_at(self.inner@, lo as int) >= key.ordinal());
                }
            }
        }
        (lo, found)
    }

    /// Sets the value of `key` and hands out the value that it had.
    pub fn insert(&mut self, key: K, value: V) -> (r: Option<V>)
        ensures
            final(self)@ == old(self)@.insert(key.ordinal(), value),
            r == (if old(self)@.contains_key(key.ordinal()) {
                Some(old(self)@[key.ordinal()])
            } else {
                None
            }),
    {
        proof {
            use_type_invariant(&*self);
        }
        let (at, found) = self.locate(&key);
        let mut entries = Vec::new();
        std::mem::swap(&mut entries, &mut self.inner);
        let ghost before = entries@;
        let r = if found {
            let old_entry = entries.remove(at);
            proof {
                lemma_slot(before, at as int);
                lemma_remove_entry(before, at as int);
                assert forall|j: int| 0 <= j < at implies #[trigger] key_at(entries@, j)
                    < key.ordinal() by {
                    assert(key_at(before, j) < key.ordinal());
                }
                assert forall|j: int| at <= j < entries@.len() implies #[trigger] key_at(
                    entries@,
                    j,
                ) > key.ordinal() by {
                    assert(key_at(before, at as int) < key_at(before, j + 1));
                }
                lemma_insert_entry(entries@, at as int, (key, value));
                assert(entries_map(before).remove(key.ordinal()).insert(key.ordinal(), value)
                    =~= entries_map(before).insert(key.ordinal(), value));
            }
            entries.insert(at, (key, value));
            Some(old_entry.1)
        } else {
            proof {
                assert forall|j: int| at <= j < entries@.len() implies #[trigger] key_at(
                    entries@,
                    j,
                ) > key.ordinal() by {
                    if key_at(entries@, j) == key.ordinal() {
                        assert(has_key(entries@, key.ordinal()));
                    }
                }
                lemma_insert_entry(entries@, at as int, (key, value));
            }
            entries.insert(at, (key, value));
            None
        };
        self.inner = entries;
        r
    }

    /// The value of `key`, if it has one.
    pub fn get(&self, key: &K) -> (r: Option<&V>)
        ensures
            r == (if self@.contains_key(key.ordinal()) {
                Some(&self@[key.ordinal()])
            } else {
                None
            }),
    {
        proof {
            use_type_invariant(&*self);
        }
        let (at, found) = self.locate(key);
        if found {
            proof {
                lemma_slot(self.inner@, at as int);
            }
            Some(&self.inner[at].1)
        } else {
            None
        }
    }

    /// The number of keys.
    pub fn len(&self) -> (r: usize)
        ensures
            self@.dom().finite(),
            r == self@.len(),
            r == self.entries().len(),
    {
        proof {
            use_type_invariant(&*self);
            lemma_entries_count(self.inner@);
        }
        self.inner.len()
    }

    /// Whether the ledger has no key.
    pub fn is_empty(&self) -> (r: bool)
        ensures
            r == (self@ == Map::<nat, V>::empty()),
            r == (self.entries().len() == 0),
    {
        proof {
            use_type_invariant(&*self);
            if self.inner@.len() == 0 {
                assert(self@ =~= Map::<nat, V>::empty());
            } else {
                lemma_slot(self.inner@, 0);
            }
        }
        self.inner.len() == 0
    }

    /// Takes every key out.
    pub fn clear(&mut self)
        ensures
            final(self)@ == Map::<nat, V>::empty(),
    {
        self.inner = Vec::new();
        assert(self@ =~= Map::<nat, V>::empty());
    }

    /// Takes `key` out and hands out the value that it had.
    pub fn remove(&mut self, key: &K) -> (r: Option<V>)
        ensures
            final(self)@ == old(self)@.remove(key.ordinal()),
            r == (if old(self)@.contains_key(key.ordinal()) {
                Some(old(self)@[key.ordinal()])
            } else {
                None
            }),
    {
        proof {
            use_type_invariant(&*self);
        }
        let (at, found) = self.locate(key);
        if found {
            let mut entries = Vec::new();
            std::mem::swap(&mut entries, &mut self.inner);
            proof {
                lemma_slot(entries@, at as int);
                lemma_remove_entry(entries@, at as int);
            }
            let old_entry = entries.remove(at);
            self.inner = entries;
            Some(old_entry.1)
        } else {
            assert(self@ =~= self@.remove(key.ordinal()));
            None
        }
    }

    /// Whether `key` has a value.
    pub fn contains_key(&self, key: &K) -> (r: bool)
        ensures
            r == self@.contains_key(key.ordinal()),
    {
        let (_, found) = self.locate(key);
        found
    }

    /// The keys, in the canonical order.
    pub fn keys(&self) -> (r: Vec<K>)
        ensures
            r@.len() == self.entries().len(),
            forall|i: int| 0 <= i < r@.len() ==> r@[i] == #[trigger] self.entries()[i].0,
            is_canonical_order(Seq::new(r@.len(), |i: int| r@[i].ordinal()), self@),
    {
        proof {
            use_type_invariant(&*self);
        }
        let mut keys: Vec<K> = Vec::with_capacity(self.inner.len());
        let mut i: usize = 0;
        while i < self.inner.len()
            invariant
                i <= self.inner@.len(),
                keys@.len() == i,
                forall|j: int| 0 <= j < i ==> keys@[j] == #[trigger] self.inner@[j].0,
            decreases self.inner@.len() - i,
        {
            keys.push(self.inner[i].0);
            i += 1;
        }
        proof {
            lemma_entries_order(self.inner@);
            assert(Seq::new(keys@.len(), |i: int| keys@[i].ordinal()) =~= Seq::new(
                self.inner@.len(),
                |i: int| key_at(self.inner@, i),
            ));
        }
        keys
    }

    /// The values, in the canonical order of their keys.
    pub fn values(&self) -> (r: Vec<&V>)
        ensures
            r@.len() == self.entries().len(),
            forall|i: int| 0 <= i < r@.len() ==> *r@[i] == #[trigger] self.entries()[i].1,
            forall|i: int|
                0 <= i < r@.len() ==> *r@[i] == self@[#[trigger] key_at(self.entries(), i)],
    {
        proof {
            use_type_invariant(&*self);
        }
        let mut values: Vec<&V> = Vec::with_capacity(self.inner.len());
        let mut i: usize = 0;
        while i < self.inner.len()
            invariant
                i <= self.inner@.len(),
                values@.len() == i,
                strictly_sorted(self.inner@),
                forall|j: int| 0 <= j < i ==> *values@[j] == #[trigger] self.inner@[j].1,
            decreases self.inner@.len() - i,
        {
            values.push(&self.inner[i].1);
            i += 1;
        }
        proof {
            assert forall|i: int| 0 <= i < values@.len() implies *values@[i] == self@[#[trigger] key_at(
                self.entries(),
                i,
            )] by {
                lemma_slot(self.inner@, i);
            }
        }
        values
    }

    /// The keys with their values, in the canonical order of the keys.
    pub fn iter(&self) -> (r: Vec<(K, &V)>)
        ensures
            r@.len() == self.entries().len(),
            forall|i: int|
                0 <= i < r@.len() ==> r@[i].0 == (#[trigger] self.entries()[i]).0 && *r@[i].1
                    == self.entries()[i].1,
            forall|i: int|
                0 <= i < r@.len() ==> *r@[i].1 == self@[#[trigger] key_at(self.entries(), i)],
            is_canonical_order(Seq::new(r@.len(), |i: int| r@[i].0.ordinal()), self@),
    {
        proof {
            use_type_invariant(&*self);
        }
        let mut pairs: Vec<(K, &V)> = Vec::with_capacity(self.inner.len());
        let mut i: usize = 0;
        while i < self.inner.len()
            invariant
                i <= self.inner@.len(),
                pairs@.len() == i,
                forall|j: int|
                    0 <= j < i ==> pairs@[j].0 == (#[trigger] self.inner@[j]).0 && *pairs@[j].1
                        == self.inner@[j].1,
            decreases self.inner@.len() - i,
        {
            pairs.push((self.inner[i].0, &self.inner[i].1));
            i += 1;
        }
        proof {
            lemma_entries_order(self.inner@);
            assert(Seq::new(pairs@.len(), |i: int| pairs@[i].0.ordinal()) =~= Seq::new(
                self.inner@.len(),
                |i: int| key_at(self.inner@, i),
            ));
            assert forall|i: int| 0 <= i < pairs@.len() implies *pairs@[i].1 == self@[#[trigger] key_at(
                self.entries(),
                i,
            )] by {
                lemma_slot(self.inner@, i);
            }
        }
        pairs
    }

    /// The entries, in the canonical order of their keys.
    pub fn into_inner(self) -> (r: Vec<(K, V)>)
        ensures
            r@ == self.entries(),
            strictly_sorted(r@),
            entries_map(r@) == self@,
    {
        proof {
            use_type_invariant(&self);
        }
        self.inner
    }

    /// The entries, in the canonical order of their keys.
    pub fn inner(&self) -> (r: &Vec<(K, V)>)
        ensures
            r@ == self.entries(),
            strictly_sorted(r@),
            entries_map(r@) == self@,
    {
        proof {
            use_type_invariant(&*self);
        }
        &self.inner
    }
}

impl<K: LedgerKey, V: Clone> Clone for PrivateDeposit<K, V> {
    /// A ledger with the same keys, in which the value of each key is a clone
    /// of the value that it has here.
    fn clone(&self) -> (r: Self)
        ensures
            r@.dom() == self@.dom(),
            forall|k: nat| #[trigger] self@.contains_key(k) ==> cloned(self@[k], r@[k]),
    {
        proof {
            use_type_invariant(&*self);
        }
        let mut entries: Vec<(K, V)> = Vec::with_capacity(self.inner.len());
        let mut i: usize = 0;
        while i < self.inner.len()
            invariant
                i <= self.inner@.len(),
                entries@.len() == i,
                forall|j: int|
                    0 <= j < i ==> (#[trigger] entries@[j]).0 == self.inner@[j].0 && cloned(
                        self.inner@[j].1,
                        entries@[j].1,
                    ),
            decreases self.inner@.len() - i,
        {
            let value = self.inner[i].1.clone();
            entries.push((self.inner[i].0, value));
            i += 1;
        }
        proof {
            lemma_same_keys(self.inner@, entries@);
            assert forall|k: nat| #[trigger]
                entries_map(self.inner@).contains_key(k) implies cloned(
                entries_map(self.inner@)[k],
                entries_map(entries@)[k],
            ) by {
                let a = slot_of(self.inner@, k);
                lemma_slot(self.inner@, a);
                assert(key_at(entries@, a) == k);
                lemma_slot(entries@, a);
                assert(entries@[a].0 == self.inner@[a].0);
            }
        }
        PrivateDeposit { inner: entries }
    }
}

impl<K: LedgerKey, V> Default for PrivateDeposit<K, V> {
    fn default() -> (r: Self)
        ensures
            r@ == Map::<nat, V>::empty(),
    {
        PrivateDeposit::new()
    }
}

/// What can be added to and taken from a balance: a field element in the
/// clear, or a party's share of one.
pub trait Amount: Copy + View {
    /// The sum of two amounts, on their views.
    spec fn sum(a: Self::V, b: Self::V) -> Self::V;

    /// The difference of two amounts, on their views.
    spec fn difference(a: Self::V, b: Self::V) -> Self::V;

    /// The sum of the two amounts.
    fn plus(self, rhs: Self) -> (r: Self)
        ensures
            r@ == Self::sum(self@, rhs@),
    ;

    /// The difference of the two amounts.
    fn minus(self, rhs: Self) -> (r: Self)
        ensures
            r@ == Self::difference(self@, rhs@),
    ;
}

impl Amount for FieldElement {
    open spec fn sum(a: nat, b: nat) -> nat {
        field_add(a, b)
    }

    open spec fn difference(a: nat, b: nat) -> nat {
        field_sub(a, b)
    }

    fn plus(self, rhs: Self) -> (r: Self) {
        self.add(rhs)
    }

    fn minus(self, rhs: Self) -> (r: Self) {
        self.sub(rhs)
    }
}

impl Amount for ReplicatedShare {
    open spec fn sum(a: (nat, nat), b: (nat, nat)) -> (nat, nat) {
        share_add(a, b)
    }

    open spec fn difference(a: (nat, nat), b: (nat, nat)) -> (nat, nat) {
        share_sub(a, b)
    }

    fn plus(self, rhs: Self) -> (r: Self) {
        self.add(rhs)
    }

    fn minus(self, rhs: Self) -> (r: Self) {
        self.sub(rhs)
    }
}

/// The balance of one key: the amount and the blinding of its commitment.
#[derive(Clone, Copy, Debug, PartialEq, Eq)]
pub struct DepositValue<V> {
    pub amount: V,
    pub blinding: V,
}

/// A balance in the clear.
pub type DepositValuePlain = DepositValue<FieldElement>;

/// One party's share of a balance.
pub type DepositValueShare = DepositValue<ReplicatedShare>;

impl<V: View> View for DepositValue<V> {
    type V = DepositValue<V::V>;

    open spec fn view(&self) -> DepositValue<V::V> {
        DepositValue { amount: self.amount@, blinding: self.blinding@ }
    }
}

impl<V> DepositValue<V> {
    /// The balance with this amount and this blinding.
    pub fn new(amount: V, blinding: V) -> (r: Self)
        ensures
            r.amount == amount,
            r.blinding == blinding,
    {
        Self { amount, blinding }
    }
}

/// Why an operation on the ledger failed.
#[derive(Clone, Copy, Debug, PartialEq, Eq)]
pub enum LedgerError {
    /// The key that was to be debited has no balance.
    KeyNotFound,
}

impl LedgerError {
    /// What went wrong, in words.
    pub fn message(&self) -> (r: &'static str)
        ensures
            r@ == "Key not found in ledger"@,
    {
        match self {
            LedgerError::KeyNotFound => "Key not found in ledger",
        }
    }
}

/// The views of the balances of a ledger.
pub open spec fn balances_of<V: View>(ledger: Map<nat, DepositValue<V>>) -> Map<
    nat,
    DepositValue<V::V>,
> {
    ledger.map_values(|entry: DepositValue<V>| entry@)
}

/// The balance of `key` after `amount` was deposited: the amount is added to
/// what was there, or stands alone where the key is new.
pub open spec fn deposited_amount<V: Amount>(
    ledger: Map<nat, DepositValue<V::V>>,
    key: nat,
    amount: V::V,
) -> V::V {
    if ledger.contains_key(key) {
        V::sum(ledger[key].amount, amount)
    } else {
        amount
    }
}

/// The ledger after `amount` was deposited to `key` under a new blinding.
pub open spec fn deposit_spec<V: Amount>(
    ledger: Map<nat, DepositValue<V::V>>,
    key: nat,
    amount: V::V,
    blinding: V::V,
) -> Map<nat, DepositValue<V::V>> {
    ledger.insert(
        key,
        DepositValue { amount: deposited_amount::<V>(ledger, key, amount), blinding },
    )
}

/// The ledger after `amount` was withdrawn from `key` under a new blinding, or
/// `None` where the key has no balance. The difference is taken in the field:
/// nothing here stops it from wrapping.
pub open spec fn withdraw_spec<V: Amount>(
    ledger: Map<nat, DepositValue<V::V>>,
    key: nat,
    amount: V::V,
    blinding: V::V,
) -> Option<Map<nat, DepositValue<V::V>>> {
    if ledger.contains_key(key) {
        Some(
            ledger.insert(
                key,
                DepositValue { amount: V::difference(ledger[key].amount, amount), blinding },
            ),
        )
    } else {
        None
    }
}

/// The ledger after `amount` went from `sender` to `receiver`: a withdrawal
/// followed by a deposit, or `None` where the sender has no balance.
pub open spec fn transaction_spec<V: Amount>(
    ledger: Map<nat, DepositValue<V::V>>,
    sender: nat,
    receiver: nat,
    amount: V::V,
    sender_blinding: V::V,
    receiver_blinding: V::V,
) -> Option<Map<nat, DepositValue<V::V>>> {
    match withdraw_spec::<V>(ledger, sender, amount, sender_blinding) {
        Some(debited) => Some(deposit_spec::<V>(debited, receiver, amount, receiver_blinding)),
        None => None,
    }
}

/// Setting a value and then taking the views is taking the views and then
/// setting the view of the value.
pub proof fn lemma_balances_insert<V: View>(
    ledger: Map<nat, DepositValue<V>>,
    key: nat,
    entry: DepositValue<V>,
)
    ensures
        balances_of(ledger.insert(key, entry)) == balances_of(ledger).insert(key, entry@),
{
    assert(balances_of(ledger.insert(key, entry)) =~= balances_of(ledger).insert(key, entry@));
}

impl<K: LedgerKey, V: Amount> PrivateDeposit<K, DepositValue<V>> {
    /// The views of the balances.
    pub open spec fn balances(&self) -> Map<nat, DepositValue<V::V>> {
        balances_of(self@)
    }

    /// The balance of `key`, if it has one.
    pub fn read(&self, key: &K) -> (r: Option<&DepositValue<V>>)
        ensures
            r == (if self@.contains_key(key.ordinal()) {
                Some(&self@[key.ordinal()])
            } else {
                None
            }),
    {
        self.get(key)
    }

    /// Adds `amount` to the balance of `key`, or makes it the balance of a new
    /// key, and sets the blinding. Hands out the balance before, if there was
    /// one, and the balance after.
    pub fn deposit_with_blinding(&mut self, key: K, amount: V, new_blinding: V) -> (r: (
        Option<DepositValue<V>>,
        DepositValue<V>,
    ))
        ensures
            final(self)@ == old(self)@.insert(key.ordinal(), r.1),
            final(self).balances() == deposit_spec::<V>(
                old(self).balances(),
                key.ordinal(),
                amount@,
                new_blinding@,
            ),
            r.0 == (if old(self)@.contains_key(key.ordinal()) {
                Some(old(self)@[key.ordinal()])
            } else {
                None
            }),
            r.1@ == final(self).balances()[key.ordinal()],
            r.1.blinding == new_blinding,
    {
        let old_value = match self.read(&key) {
            Some(value) => Some(*value),
            None => None,
        };
        let new_amount = match &old_value {
            Some(old_entry) => old_entry.amount.plus(amount),
            None => amount,
        };
        let new_value = DepositValue::new(new_amount, new_blinding);
        proof {
            lemma_balances_insert(self@, key.ordinal(), new_value);
        }
        self.insert(key, new_value);
        (old_value, new_value)
    }

    /// Takes `amount` from the balance of `key` and sets the blinding. Hands
    /// out the balance before and the balance after. Fails, and changes
    /// nothing, where the key has no balance.
    pub fn withdraw_with_blinding(&mut self, key: K, amount: V, new_blinding: V) -> (r: Result<
        (DepositValue<V>, DepositValue<V>),
        LedgerError,
    >)
        ensures
            r.is_ok() == old(self)@.contains_key(key.ordinal()),
            r.is_err() ==> r == Err::<(DepositValue<V>, DepositValue<V>), LedgerError>(
                LedgerError::KeyNotFound,
            ) && final(self)@ == old(self)@,
            withdraw_spec::<V>(old(self).balances(), key.ordinal(), amount@, new_blinding@) == (
            if r.is_ok() {
                Some(final(self).balances())
            } else {
                None
            }),
            r.is_ok() ==> {
                &&& final(self)@ == old(self)@.insert(key.ordinal(), r.unwrap().1)
                &&& r.unwrap().0 == old(self)@[key.ordinal()]
                &&& r.unwrap().1@ == final(self).balances()[key.ordinal()]
                &&& r.unwrap().1.blinding == new_blinding
            },
    {
        let old_value = match self.get(&key) {
            Some(value) => *value,
            None => {
                return Err(LedgerError::KeyNotFound);
            },
        };
        let new_amount = old_value.amount.minus(amount);
        let new_value = DepositValue::new(new_amount, new_blinding);
        proof {
            lemma_balances_insert(self@, key.ordinal(), new_value);
        }
        self.insert(key, new_value);
        Ok((old_value, new_value))
    }

    /// Moves `amount` from `sender` to `receiver`: a withdrawal, then a
    /// deposit. Hands out the sender's balance before and after and the
    /// receiver's balance before, if there was one, and after. Fails, and
    /// changes nothing, where the sender has no balance.
    pub fn transaction_with_blinding(
        &mut self,
        sender: K,
        receiver: K,
        amount: V,
        sender_new_blinding: V,
        receiver_new_blinding: V,
    ) -> (r: Result<
        (DepositValue<V>, DepositValue<V>, Option<DepositValue<V>>, DepositValue<V>),
        LedgerError,
    >)
        ensures
            r.is_ok() == old(self)@.contains_key(sender.ordinal()),
            r.is_err() ==> r == Err::<
                (DepositValue<V>, DepositValue<V>, Option<DepositValue<V>>, DepositValue<V>),
                LedgerError,
            >(LedgerError::KeyNotFound) && final(self)@ == old(self)@,
            transaction_spec::<V>(
                old(self).balances(),
                sender.ordinal(),
                receiver.ordinal(),
                amount@,
                sender_new_blinding@,
                receiver_new_blinding@,
            ) == (if r.is_ok() {
                Some(final(self).balances())
            } else {
                None
            }),
            r.is_ok() ==> {
                let (sender_old, sender_new, receiver_old, receiver_new) = r.unwrap();
                let debited = old(self)@.insert(sender.ordinal(), sender_new);
                &&& final(self)@ == debited.insert(receiver.ordinal(), receiver_new)
                &&& sender_old == old(self)@[sender.ordinal()]
                &&& sender_new.blinding == sender_new_blinding
                &&& sender_new.amount@ == V::difference(sender_old.amount@, amount@)
                &&& receiver_old == (if debited.contains_key(receiver.ordinal()) {
                    Some(debited[receiver.ordinal()])
                } else {
                    None
                })
                &&& receiver_new.blinding == receiver_new_blinding
                &&& receiver_new@ == final(self).balances()[receiver.ordinal()]
            },
    {
        let (sender_old, sender_new) = match self.withdraw_with_blinding(
            sender,
            amount,
            sender_new_blinding,
        ) {
            Ok(pair) => pair,
            Err(e) => {
                return Err(e);
            },
        };
        let (receiver_old, receiver_new) = self.deposit_with_blinding(
            receiver,
            amount,
            receiver_new_blinding,
        );
        Ok((sender_old, sender_new, receiver_old, receiver_new))
    }
}

/// Whether three ledgers of shares hold a sharing of every amount of `plain`,
/// under the keys of `plain`.
pub open spec fn amounts_shared(
    party0: Map<nat, DepositValue<(nat, nat)>>,
    party1: Map<nat, DepositValue<(nat, nat)>>,
    party2: Map<nat, DepositValue<(nat, nat)>>,
    plain: Map<nat, DepositValue<nat>>,
) -> bool {
    &&& party0.dom() == plain.dom()
    &&& party1.dom() == plain.dom()
    &&& party2.dom() == plain.dom()
    &&& forall|k: nat| #[trigger]
        plain.contains_key(k) ==> is_sharing_of(
            party0[k].amount,
            party1[k].amount,
            party2[k].amount,
            plain[k].amount,
        )
}

/// Whether three ledgers of shares hold a sharing of every blinding of
/// `plain`, under the keys of `plain`.
pub open spec fn blindings_shared(
    party0: Map<nat, DepositValue<(nat, nat)>>,
    party1: Map<nat, DepositValue<(nat, nat)>>,
    party2: Map<nat, DepositValue<(nat, nat)>>,
    plain: Map<nat, DepositValue<nat>>,
) -> bool {
    &&& party0.dom() == plain.dom()
    &&& party1.dom() == plain.dom()
    &&& party2.dom() == plain.dom()
    &&& forall|k: nat| #[trigger]
        plain.contains_key(k) ==> is_sharing_of(
            party0[k].blinding,
            party1[k].blinding,
            party2[k].blinding,
            plain[k].blinding,
        )
}

impl<K: LedgerKey> PrivateDeposit<K, DepositValuePlain> {
    /// Splits the ledger into the ledgers of the parties 0, 1 and 2. The keys
    /// are taken in the canonical order, and for each key the amount is split
    /// first and the blinding second, so the three ledgers hold the same keys
    /// in the same places.
    pub fn share(&self, rng: &mut rand_chacha::ChaCha12Rng) -> (r: [PrivateDeposit<
        K,
        DepositValueShare,
    >; 3])
        ensures
            amounts_shared(r[0].balances(), r[1].balances(), r[2].balances(), self.balances()),
            blindings_shared(r[0].balances(), r[1].balances(), r[2].balances(), self.balances()),
            forall|p: int|
                0 <= p < 3 ==> (#[trigger] r[p]).entries().len() == self.entries().len(),
            forall|p: int, i: int|
                0 <= p < 3 && 0 <= i < self.entries().len() ==> (#[trigger] r[p].entries()[i]).0
                    == self.entries()[i].0,
    {
        proof {
            use_type_invariant(&*self);
        }
        let n = self.inner.len();
        let mut party0: Vec<(K, DepositValueShare)> = Vec::with_capacity(n);
        let mut party1: Vec<(K, DepositValueShare)> = Vec::with_capacity(n);
        let mut party2: Vec<(K, DepositValueShare)> = Vec::with_capacity(n);
        let mut i: usize = 0;
        while i < n
            invariant
                n == self.inner@.len(),
                i <= n,
                party0@.len() == i,
                party1@.len() == i,
                party2@.len() == i,
                forall|j: int| 0 <= j < i ==> (#[trigger] party0@[j]).0 == self.inner@[j].0,
                forall|j: int| 0 <= j < i ==> (#[trigger] party1@[j]).0 == self.inner@[j].0,
                forall|j: int| 0 <= j < i ==> (#[trigger] party2@[j]).0 == self.inner@[j].0,
                forall|j: int|
                    #![trigger self.inner@[j]]
                    0 <= j < i ==> {
                        &&& is_sharing_of(
                            party0@[j].1.amount@,
                            party1@[j].1.amount@,
                            party2@[j].1.amount@,
                            self.inner@[j].1.amount@,
                        )
                        &&& is_sharing_of(
                            party0@[j].1.blinding@,
                            party1@[j].1.blinding@,
                            party2@[j].1.blinding@,
                            self.inner@[j].1.blinding@,
                        )
                    },
            decreases n - i,
        {
            let key = self.inner[i].0;
            let value = self.inner[i].1;
            let amounts = share_field_element(value.amount, rng);
            let blindings = share_field_element(value.blinding, rng);
            party0.push((key, DepositValue::new(amounts[0], blindings[0])));
            party1.push((key, DepositValue::new(amounts[1], blindings[1])));
            party2.push((key, DepositValue::new(amounts[2], blindings[2])));
            i += 1;
        }
        proof {
            lemma_same_keys(self.inner@, party0@);
            lemma_same_keys(self.inner@, party1@);
            lemma_same_keys(self.inner@, party2@);
            let plain = balances_of(entries_map(self.inner@));
            let b0 = balances_of(entries_map(party0@));
            let b1 = balances_of(entries_map(party1@));
            let b2 = balances_of(entries_map(party2@));
            assert(b0.dom() =~= plain.dom());
            assert(b1.dom() =~= plain.dom());
            assert(b2.dom() =~= plain.dom());
            assert forall|k: nat| #[trigger] plain.contains_key(k) implies is_sharing_of(
                b0[k].amount,
                b1[k].amount,
                b2[k].amount,
                plain[k].amount,
            ) && is_sharing_of(b0[k].blinding, b1[k].blinding, b2[k].blinding, plain[k].blinding) by {
                let a = slot_of(self.inner@, k);
                lemma_slot(self.inner@, a);
                assert(key_at(party0@, a) == k);
                assert(key_at(party1@, a) == k);
                assert(key_at(party2@, a) == k);
                lemma_slot(party0@, a);
                lemma_slot(party1@, a);
                lemma_slot(party2@, a);
                assert(party0@[a].0 == self.inner@[a].0);
            }
        }
        let ledger0 = PrivateDeposit { inner: party0 };
        let ledger1 = PrivateDeposit { inner: party1 };
        let ledger2 = PrivateDeposit { inner: party2 };
        [ledger0, ledger1, ledger2]
    }
}

impl<K: LedgerKey> PrivateDeposit<K, DepositValueShare> {
    /// Deposits `amount` to `key` under a fresh blinding drawn from the
    /// party's randomness. Hands out the balance before, if there was one, and
    /// the balance after.
    pub fn deposit<S: Rep3Randomness>(
        &mut self,
        key: K,
        amount: ReplicatedShare,
        rep3_state: &mut S,
    ) -> (r: (
        Option<DepositValueShare>,
        DepositValueShare,
    ))
        ensures
            final(self)@ == old(self)@.insert(key.ordinal(), r.1),
            final(self).balances() == deposit_spec::<ReplicatedShare>(
                old(self).balances(),
                key.ordinal(),
                amount@,
                r.1.blinding@,
            ),
            r.0 == (if old(self)@.contains_key(key.ordinal()) {
                Some(old(self)@[key.ordinal()])
            } else {
                None
            }),
            r.1@ == final(self).balances()[key.ordinal()],
    {
        let new_blinding = rep3_state.rand();
        self.deposit_with_blinding(key, amount, new_blinding)
    }

    /// Withdraws `amount` from `key` under a fresh blinding drawn from the
    /// party's randomness. Hands out the balance before and the balance after.
    /// Fails where the key has no balance: the ledger is then unchanged, but
    /// the blinding was drawn.
    pub fn withdraw<S: Rep3Randomness>(
        &mut self,
        key: K,
        amount: ReplicatedShare,
        rep3_state: &mut S,
    ) -> (r:
        Result<(DepositValueShare, DepositValueShare), LedgerError>)
        ensures
            r.is_ok() == old(self)@.contains_key(key.ordinal()),
            r.is_err() ==> r == Err::<(DepositValueShare, DepositValueShare), LedgerError>(
                LedgerError::KeyNotFound,
            ) && final(self)@ == old(self)@,
            r.is_ok() ==> {
                &&& final(self)@ == old(self)@.insert(key.ordinal(), r.unwrap().1)
                &&& Some(final(self).balances()) == withdraw_spec::<ReplicatedShare>(
                    old(self).balances(),
                    key.ordinal(),
                    amount@,
                    r.unwrap().1.blinding@,
                )
                &&& r.unwrap().0 == old(self)@[key.ordinal()]
                &&& r.unwrap().1@ == final(self).balances()[key.ordinal()]
            },
    {
        let new_blinding = rep3_state.rand();
        self.withdraw_with_blinding(key, amount, new_blinding)
    }

    /// Moves `amount` from `sender` to `receiver` under two fresh blindings
    /// drawn from the party's randomness, the sender's first. Hands out the
    /// sender's balance before and after and the receiver's balance before, if
    /// there was one, and after. Fails where the sender has no balance: the
    /// ledger is then unchanged, but the blindings were drawn.
    pub fn transaction<S: Rep3Randomness>(
        &mut self,
        sender: K,
        receiver: K,
        amount: ReplicatedShare,
        rep3_state: &mut S,
    ) -> (r: Result<
        (DepositValueShare, DepositValueShare, Option<DepositValueShare>, DepositValueShare),
        LedgerError,
    >)
        ensures
            r.is_ok() == old(self)@.contains_key(sender.ordinal()),
            r.is_err() ==> r == Err::<
                (
                    DepositValueShare,
                    DepositValueShare,
                    Option<DepositValueShare>,
                    DepositValueShare,
                ),
                LedgerError,
            >(LedgerError::KeyNotFound) && final(self)@ == old(self)@,
            r.is_ok() ==> {
                let (sender_old, sender_new, receiver_old, receiver_new) = r.unwrap();
                let debited = old(self)@.insert(sender.ordinal(), sender_new);
                &&& final(self)@ == debited.insert(receiver.ordinal(), receiver_new)
                &&& Some(final(self).balances()) == transaction_spec::<ReplicatedShare>(
                    old(self).balances(),
                    sender.ordinal(),
                    receiver.ordinal(),
                    amount@,
                    sender_new.blinding@,
                    receiver_new.blinding@,
                )
                &&& sender_old == old(self)@[sender.ordinal()]
                &&& sender_new.amount@ == share_sub(sender_old.amount@, amount@)
                &&& receiver_old == (if debited.contains_key(receiver.ordinal()) {
                    Some(debited[receiver.ordinal()])
                } else {
                    None
                })
                &&& receiver_new@ == final(self).balances()[receiver.ordinal()]
            },
    {
        let sender_new_blinding = rep3_state.rand();
        let receiver_new_blinding = rep3_state.rand();
        self.transaction_with_blinding(
            sender,
            receiver,
            amount,
            sender_new_blinding,
            receiver_new_blinding,
        )
    }
}

} // verus!
