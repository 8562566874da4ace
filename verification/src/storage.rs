//! The storage of one contract: an ordered map from 32-byte slot keys to
//! 256-bit values.

use crate::primitives::{
    lemma_precedes_asymmetric, lemma_precedes_irreflexive, lemma_precedes_transitive,
    lemma_same_bytes, KeyOrder, B256, U256,
};
use vstd::prelude::*;

verus! {

/// Whether the keys of the entries are strictly ascending.
pub open spec fn ascending_keys(s: Seq<(B256, U256)>) -> bool {
    forall|i: int, j: int|
        #![trigger s[i], s[j]]
        0 <= i < j < s.len() ==> s[i].0.precedes(s[j].0)
}

/// The map that a list of entries stands for: its keys are the keys of the
/// entries, and each key has the value of an entry that holds it. With
/// ascending keys there is one such entry per key.
pub open spec fn slots_of(s: Seq<(B256, U256)>) -> Map<Seq<u8>, U256> {
    Map::new(
        |k: Seq<u8>| exists|i: int| 0 <= i < s.len() && (#[trigger] s[i]).0@ == k,
        |k: Seq<u8>| s[choose|i: int| 0 <= i < s.len() && (#[trigger] s[i]).0@ == k].1,
    )
}

/// The part of a storage map that counts when two ledgers are compared: a
/// slot that holds zero is the same as a slot that was never set.
pub open spec fn nonzero_slots(m: Map<Seq<u8>, U256>) -> Map<Seq<u8>, U256> {
    Map::new(|k: Seq<u8>| m.dom().contains(k) && m[k].value() != 0, |k: Seq<u8>| m[k])
}

/// The storage map that a snapshot's list of (slot, value) pairs stands for:
/// pairs with value zero are left out, each remaining slot number is filed
/// under its big-endian form, and of two pairs with the same slot the later
/// one counts.
pub open spec fn snapshot_slots(pairs: Seq<(U256, U256)>) -> Map<Seq<u8>, U256>
    decreases pairs.len(),
{
    if pairs.len() == 0 {
        Map::empty()
    } else {
        let rest = snapshot_slots(pairs.drop_last());
        let (slot, value) = pairs.last();
        if value.value() == 0 {
            rest
        } else {
            rest.insert(slot.be_bytes(), value)
        }
    }
}

/// With ascending keys, entry `i` is the one that the map holds under its
/// key.
pub proof fn lemma_slot_at(s: Seq<(B256, U256)>, i: int)
    requires
        ascending_keys(s),
        0 <= i < s.len(),
    ensures
        slots_of(s).dom().contains(s[i].0@),
        slots_of(s)[s[i].0@] == s[i].1,
{
    let k = s[i].0@;
    let j = choose|j: int| 0 <= j < s.len() && (#[trigger] s[j]).0@ == k;
    lemma_same_bytes(s[j].0, s[i].0);
    if j < i {
        lemma_precedes_asymmetric(s[j].0, s[i].0);
    } else if i < j {
        lemma_precedes_asymmetric(s[i].0, s[j].0);
    }
}

/// With ascending keys, the map has one key per entry.
pub proof fn lemma_slots_len(s: Seq<(B256, U256)>)
    requires
        ascending_keys(s),
    ensures
        slots_of(s).dom().finite(),
        slots_of(s).dom().len() == s.len(),
    decreases s.len(),
{
    if s.len() == 0 {
        assert(slots_of(s).dom() =~= Set::empty());
    } else {
        let t = s.drop_last();
        let last = s.last();
        assert(ascending_keys(t)) by {
            assert forall|i: int, j: int| #![trigger t[i], t[j]] 0 <= i < j < t.len() implies t[i].0.precedes(
                t[j].0,
            ) by {
                assert(s[i].0.precedes(s[j].0));
            }
        }
        lemma_slots_len(t);
        assert(!slots_of(t).dom().contains(last.0@)) by {
            if slots_of(t).dom().contains(last.0@) {
                let j = choose|j: int| 0 <= j < t.len() && (#[trigger] t[j]).0@ == last.0@;
                assert(s[j].0.precedes(s[s.len() - 1].0));
                lemma_precedes_asymmetric(s[j].0, last.0);
                lemma_same_bytes(s[j].0, last.0);
            }
        }
        assert(slots_of(s).dom() =~= slots_of(t).dom().insert(last.0@)) by {
            assert forall|k: Seq<u8>| slots_of(s).dom().contains(k) implies slots_of(
                t,
            ).dom().insert(last.0@).contains(k) by {
                let j = choose|j: int| 0 <= j < s.len() && (#[trigger] s[j]).0@ == k;
                if j < t.len() {
                    assert(t[j].0@ == k);
                }
            }
            assert forall|k: Seq<u8>| slots_of(t).dom().insert(last.0@).contains(
                k,
            ) implies slots_of(s).dom().contains(k) by {
                if k == last.0@ {
                    assert(s[s.len() - 1].0@ == k);
                } else {
                    let j = choose|j: int| 0 <= j < t.len() && (#[trigger] t[j]).0@ == k;
                    assert(s[j].0@ == k);
                }
            }
        }
    }
}

/// Without its last entry, an ascending list stands for the map without
/// the key of that entry.
pub proof fn lemma_slots_drop_last(s: Seq<(B256, U256)>)
    requires
        ascending_keys(s),
        s.len() > 0,
    ensures
        ascending_keys(s.drop_last()),
        slots_of(s.drop_last()) == slots_of(s).remove(s.last().0@),
{
    let t = s.drop_last();
    let last = s.last();
    assert(ascending_keys(t)) by {
        assert forall|i: int, j: int| #![trigger t[i], t[j]] 0 <= i < j < t.len() implies t[i].0.precedes(
            t[j].0,
        ) by {
            assert(s[i].0.precedes(s[j].0));
        }
    }
    let lhs = slots_of(t);
    let rhs = slots_of(s).remove(last.0@);
    assert forall|k: Seq<u8>| #[trigger] lhs.dom().contains(k) implies rhs.dom().contains(k)
        && lhs[k] == rhs[k] by {
        let i = choose|i: int| 0 <= i < t.len() && (#[trigger] t[i]).0@ == k;
        assert(s[i].0.precedes(s[s.len() - 1].0));
        lemma_precedes_asymmetric(s[i].0, last.0);
        if k == last.0@ {
            lemma_same_bytes(s[i].0, last.0);
        }
        lemma_slot_at(s, i);
        lemma_slot_at(t, i);
    }
    assert forall|k: Seq<u8>| #[trigger] rhs.dom().contains(k) implies lhs.dom().contains(k) by {
        let i = choose|i: int| 0 <= i < s.len() && (#[trigger] s[i]).0@ == k;
        assert(i < t.len());
        assert(t[i].0@ == k);
    }
    assert(lhs.dom() =~= rhs.dom());
    assert(lhs =~= rhs);
}

/// An ascending list of entries is given by the map it stands for: two
/// such lists that stand for the same map are the same list.
pub proof fn lemma_same_slots_same_entries(s: Seq<(B256, U256)>, t: Seq<(B256, U256)>)
    requires
        ascending_keys(s),
        ascending_keys(t),
        slots_of(s) == slots_of(t),
    ensures
        s == t,
    decreases s.len(),
{
    lemma_slots_len(s);
    lemma_slots_len(t);
    if s.len() == 0 {
        assert(s =~= t);
    } else {
        let n = s.len() - 1;
        lemma_slot_at(s, n);
        lemma_slot_at(t, n);
        let j = choose|j: int| 0 <= j < t.len() && (#[trigger] t[j]).0@ == s[n].0@;
        let i = choose|i: int| 0 <= i < s.len() && (#[trigger] s[i]).0@ == t[n].0@;
        lemma_same_bytes(t[j].0, s[n].0);
        lemma_same_bytes(s[i].0, t[n].0);
        lemma_precedes_irreflexive(s[n].0);
        if j < n {
            assert(t[j].0.precedes(t[n].0));
            if i < n {
                assert(s[i].0.precedes(s[n].0));
                lemma_precedes_transitive(s[n].0, t[n].0, s[n].0);
            }
        }
        assert(s[n].0 == t[n].0);
        assert(s[n] == t[n]);
        lemma_slots_drop_last(s);
        lemma_slots_drop_last(t);
        lemma_same_slots_same_entries(s.drop_last(), t.drop_last());
        assert(s =~= s.drop_last().push(s[n]));
        assert(t =~= t.drop_last().push(t[n]));
    }
}

/// An ordered map from slot keys to values. No key occurs twice, and the
/// entries are kept in ascending order of their keys, so that two maps with
/// the same contents are the same value.
#[derive(Debug, PartialEq, Eq)]
pub struct StorageMap {
    entries: Vec<(B256, U256)>,
}

impl View for StorageMap {
    type V = Map<Seq<u8>, U256>;

    closed spec fn view(&self) -> Map<Seq<u8>, U256> {
        slots_of(self.entries@)
    }
}

impl Clone for StorageMap {
    fn clone(&self) -> (r: StorageMap)
        ensures
            r@ == self@,
            r.entries_spec() == self.entries_spec(),
    {
        proof {
            use_type_invariant(self);
        }
        let mut entries: Vec<(B256, U256)> = Vec::new();
        let mut i: usize = 0;
        while i < self.entries.len()
            invariant
                i <= self.entries@.len(),
                entries@ == self.entries@.take(i as int),
            decreases self.entries@.len() - i,
        {
            entries.push(self.entries[i]);
            proof {
                assert(entries@ =~= self.entries@.take(i + 1));
            }
            i += 1;
        }
        proof {
            assert(entries@ =~= self.entries@);
        }
        StorageMap { entries }
    }
}

impl StorageMap {
    #[verifier::type_invariant]
    spec fn ordered(&self) -> bool {
        ascending_keys(self.entries@)
    }

    /// The entries of the map, in ascending order of their keys.
    pub closed spec fn entries_spec(&self) -> Seq<(B256, U256)> {
        self.entries@
    }

    /// An empty map.
    pub fn new() -> (r: StorageMap)
        ensures
            r@ == Map::<Seq<u8>, U256>::empty(),
            r.entries_spec() == Seq::<(B256, U256)>::empty(),
    {
        let r = StorageMap { entries: Vec::new() };
        assert(r@ =~= Map::<Seq<u8>, U256>::empty());
        r
    }

    /// The number of slots in the map.
    pub fn len(&self) -> (r: usize)
        ensures
            self@.dom().finite(),
            r == self@.dom().len(),
            r == self.entries_spec().len(),
            ascending_keys(self.entries_spec()),
            self@ == slots_of(self.entries_spec()),
    {
        proof {
            use_type_invariant(self);
            lemma_slots_len(self.entries@);
        }
        self.entries.len()
    }

    /// Whether the map holds no slot.
    pub fn is_empty(&self) -> (r: bool)
        ensures
            r == (self@ == Map::<Seq<u8>, U256>::empty()),
    {
        proof {
            use_type_invariant(self);
            if self.entries@.len() == 0 {
                assert(self@ =~= Map::<Seq<u8>, U256>::empty());
            } else {
                lemma_slot_at(self.entries@, 0);
            }
        }
        self.entries.len() == 0
    }

    /// Entry `i` in ascending order of the keys; `None` where the map has no
    /// more than `i` entries.
    pub fn entry(&self, i: usize) -> (r: Option<(B256, U256)>)
        ensures
            r == (if i < self.entries_spec().len() {
                Some(self.entries_spec()[i as int])
            } else {
                None
            }),
            r matches Some(e) ==> self@.dom().contains(e.0@) && self@[e.0@] == e.1,
    {
        proof {
            use_type_invariant(self);
        }
        if i < self.entries.len() {
            proof {
                lemma_slot_at(self.entries@, i as int);
            }
            Some(self.entries[i])
        } else {
            None
        }
    }

    /// Where `key` stands among the entries, or would stand: the index of
    /// the first entry whose key does not come before `key`, and whether
    /// that entry holds `key` itself.
    fn position(&self, key: &B256) -> (r: (usize, bool))
        ensures
            r.0 <= self.entries@.len(),
            forall|i: int| 0 <= i < r.0 ==> (#[trigger] self.entries@[i]).0.precedes(*key),
            r.1 ==> r.0 < self.entries@.len() && self.entries@[r.0 as int].0 == *key,
            !r.1 ==> forall|i: int|
                r.0 <= i < self.entries@.len() ==> key.precedes((#[trigger] self.entries@[i]).0),
    {
        proof {
            use_type_invariant(self);
        }
        let mut lo: usize = 0;
        let mut hi: usize = self.entries.len();
        while lo < hi
            invariant
                lo <= hi <= self.entries@.len(),
                ascending_keys(self.entries@),
                forall|i: int| 0 <= i < lo ==> (#[trigger] self.entries@[i]).0.precedes(*key),
                forall|i: int|
                    hi <= i < self.entries@.len() ==> key.precedes((#[trigger] self.entries@[i]).0),
            decreases hi - lo,
        {
            let mid: usize = lo + (hi - lo) / 2;
            match self.entries[mid].0.compare(key) {
                KeyOrder::Less => {
                    proof {
                        assert forall|i: int| 0 <= i < mid + 1 implies (#[trigger] self.entries@[i]).0.precedes(
                            *key,
                        ) by {
                            if i < mid {
                                assert(self.entries@[i].0.precedes(self.entries@[mid as int].0));
                                lemma_precedes_transitive(
                                    self.entries@[i].0,
                                    self.entries@[mid as int].0,
                                    *key,
                                );
                            }
                        }
                    }
                    lo = mid + 1;
                },
                KeyOrder::Equal => {
                    return (mid, true);
                },
                KeyOrder::Greater => {
                    proof {
                        assert forall|i: int| mid <= i < self.entries@.len() implies key.precedes(
                            (#[trigger] self.entries@[i]).0,
                        ) by {
                            if mid < i {
                                assert(self.entries@[mid as int].0.precedes(self.entries@[i].0));
                                lemma_precedes_transitive(
                                    *key,
                                    self.entries@[mid as int].0,
                                    self.entries@[i].0,
                                );
                            }
                        }
                    }
                    hi = mid;
                },
            }
        }
        (lo, false)
    }

    /// The value under `key`, if the map holds that key.
    pub fn get(&self, key: &B256) -> (r: Option<U256>)
        ensures
            r == (if self@.dom().contains(key@) {
                Some(self@[key@])
            } else {
                None
            }),
    {
        proof {
            use_type_invariant(self);
        }
        let (at, found) = self.position(key);
        if found {
            proof {
                lemma_slot_at(self.entries@, at as int);
            }
            Some(self.entries[at].1)
        } else {
            proof {
                if self@.dom().contains(key@) {
                    let j = choose|j: int|
                        0 <= j < self.entries@.len() && (#[trigger] self.entries@[j]).0@ == key@;
                    lemma_same_bytes(self.entries@[j].0, *key);
                    lemma_precedes_irreflexive(*key);
                }
            }
            None
        }
    }

    /// Puts `value` under `key`, in place of what the map held there.
    pub fn insert(&mut self, key: B256, value: U256)
        ensures
            final(self)@ == old(self)@.insert(key@, value),
    {
        proof {
            use_type_invariant(&*self);
        }
        let (at, found) = self.position(&key);
        let ghost before = self.entries@;
        let mut entries: Vec<(B256, U256)> = Vec::new();
        core::mem::swap(&mut self.entries, &mut entries);
        if found {
            entries[at] = (key, value);
        } else {
            entries.insert(at, (key, value));
        }
        proof {
            let after = entries@;
            lemma_precedes_irreflexive(key);
            assert(ascending_keys(after)) by {
                assert forall|i: int, j: int|
                    #![trigger after[i], after[j]]
                    0 <= i < j < after.len() implies after[i].0.precedes(after[j].0) by {
                    if found {
                        assert(before[i].0.precedes(before[j].0));
                    } else {
                        let bi = if i < at { i } else { i - 1 };
                        let bj = if j < at { j } else { j - 1 };
                        if i != at && j != at {
                            assert(before[bi].0.precedes(before[bj].0));
                        } else if i == at {
                            assert(key.precedes(before[bj].0));
                        } else {
                            assert(before[bi].0.precedes(key));
                        }
                    }
                }
            }
            let lhs = slots_of(after);
            let rhs = slots_of(before).insert(key@, value);
            assert forall|k: Seq<u8>| #[trigger]
                lhs.dom().contains(k) implies rhs.dom().contains(k) by {
                let j = choose|j: int| 0 <= j < after.len() && (#[trigger] after[j]).0@ == k;
                if j != at {
                    let bj = if found || j < at { j } else { j - 1 };
                    assert(before[bj] == after[j]);
                    assert(before[bj].0@ == k);
                }
            }
            assert forall|k: Seq<u8>| #[trigger]
                rhs.dom().contains(k) implies lhs.dom().contains(k) && lhs[k] == rhs[k] by {
                if k == key@ {
                    assert(after[at as int].0@ == k);
                    lemma_slot_at(after, at as int);
                } else {
                    assert(slots_of(before).dom().contains(k));
                    let j = choose|j: int| 0 <= j < before.len() && (#[trigger] before[j]).0@ == k;
                    let aj = if found || j < at { j } else { j + 1 };
                    if found && j == at {
                        lemma_same_bytes(before[j].0, key);
                    }
                    assert(after[aj] == before[j]);
                    lemma_slot_at(after, aj);
                    lemma_slot_at(before, j);
                }
            }
            assert(lhs.dom() =~= rhs.dom());
            assert forall|k: Seq<u8>| lhs.dom().contains(k) implies #[trigger] lhs[k] == rhs[k] by {
                assert(rhs.dom().contains(k));
            }
            assert(lhs =~= rhs);
        }
        self.entries = entries;
    }

    /// Whether every slot of `self` that holds a non-zero value is in
    /// `other` with the same value.
    fn nonzero_within(&self, other: &StorageMap) -> (r: bool)
        ensures
            r == (forall|k: Seq<u8>| #[trigger]
                nonzero_slots(self@).dom().contains(k) ==> other@.dom().contains(k) && other@[k]
                    == self@[k]),
    {
        proof {
            use_type_invariant(self);
        }
        let mut i: usize = 0;
        while i < self.entries.len()
            invariant
                i <= self.entries@.len(),
                ascending_keys(self.entries@),
                forall|j: int|
                    0 <= j < i && (#[trigger] self.entries@[j]).1.value() != 0
                        ==> other@.dom().contains(self.entries@[j].0@) && other@[self.entries@[j].0@]
                        == self.entries@[j].1,
            decreases self.entries@.len() - i,
        {
            let (key, value) = self.entries[i];
            proof {
                lemma_slot_at(self.entries@, i as int);
            }
            if !value.is_zero() {
                match other.get(&key) {
                    Some(theirs) => {
                        if theirs != value {
                            assert(nonzero_slots(self@).dom().contains(key@));
                            return false;
                        }
                    },
                    None => {
                        assert(nonzero_slots(self@).dom().contains(key@));
                        return false;
                    },
                }
            }
            i += 1;
        }
        proof {
            assert forall|k: Seq<u8>| #[trigger]
                nonzero_slots(self@).dom().contains(k) implies other@.dom().contains(k)
                && other@[k] == self@[k] by {
                let j = choose|j: int|
                    0 <= j < self.entries@.len() && (#[trigger] self.entries@[j]).0@ == k;
                lemma_slot_at(self.entries@, j);
            }
        }
        true
    }

    /// Whether the two maps agree once slots that hold zero are left out of
    /// both.
    pub fn same_nonzero_slots(&self, other: &StorageMap) -> (r: bool)
        ensures
            r == (nonzero_slots(self@) == nonzero_slots(other@)),
    {
        let forth = self.nonzero_within(other);
        let back = other.nonzero_within(self);
        proof {
            let a = nonzero_slots(self@);
            let b = nonzero_slots(other@);
            if forth && back {
                assert forall|k: Seq<u8>| a.dom().contains(k) implies b.dom().contains(k) by {
                    assert(nonzero_slots(self@).dom().contains(k));
                }
                assert forall|k: Seq<u8>| b.dom().contains(k) implies a.dom().contains(k) by {
                    assert(nonzero_slots(other@).dom().contains(k));
                }
                assert(a =~= b);
            }
            if a == b {
                assert forall|k: Seq<u8>| #[trigger]
                    nonzero_slots(self@).dom().contains(k) implies other@.dom().contains(k)
                    && other@[k] == self@[k] by {
                    assert(b.dom().contains(k));
                    assert(a[k] == b[k]);
                }
                assert forall|k: Seq<u8>| #[trigger]
                    nonzero_slots(other@).dom().contains(k) implies self@.dom().contains(k)
                    && self@[k] == other@[k] by {
                    assert(a.dom().contains(k));
                    assert(a[k] == b[k]);
                }
            }
        }
        forth && back
    }

    /// The storage that a snapshot's list of (slot, value) pairs stands for.
    pub fn from_snapshot(pairs: &Vec<(U256, U256)>) -> (r: StorageMap)
        ensures
            r@ == snapshot_slots(pairs@),
    {
        let mut map = StorageMap::new();
        let mut i: usize = 0;
        while i < pairs.len()
            invariant
                i <= pairs@.len(),
                map@ == snapshot_slots(pairs@.take(i as int)),
            decreases pairs@.len() - i,
        {
            let (slot, value) = pairs[i];
            proof {
                assert(pairs@.take(i + 1).drop_last() =~= pairs@.take(i as int));
            }
            if !value.is_zero() {
                map.insert(B256::from_u256(slot), value);
            }
            i += 1;
        }
        proof {
            assert(pairs@.take(pairs@.len() as int) =~= pairs@);
        }
        map
    }
}

} // verus!
