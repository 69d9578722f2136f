//! An ordered mapping from text keys to object ids, kept as a list sorted
//! by key so that walking it, and its stored form, are reproducible.

use crate::identity::VcsObjectId;
use crate::text::{key_lt, lemma_key_order, text_eq, text_lt};
use vstd::prelude::*;

verus! {

/// The entries of a mapping as plain values: key and id, in key order.
pub type Entries = Seq<(Seq<char>, VcsObjectId)>;

/// Whether the keys strictly increase, so that none occurs twice.
pub open spec fn keys_sorted(entries: Entries) -> bool {
    forall|i: int, j: int|
        0 <= i < j < entries.len() ==> key_lt((#[trigger] entries[i]).0, (#[trigger] entries[j]).0)
}

/// Whether some entry has the key.
pub open spec fn has_key(entries: Entries, key: Seq<char>) -> bool {
    exists|i: int| 0 <= i < entries.len() && (#[trigger] entries[i]).0 == key
}

/// The position of an entry with the key.
pub open spec fn key_index(entries: Entries, key: Seq<char>) -> int {
    choose|i: int| 0 <= i < entries.len() && (#[trigger] entries[i]).0 == key
}

/// The mapping that the entries stand for.
pub open spec fn entries_map(entries: Entries) -> Map<Seq<char>, VcsObjectId> {
    Map::new(|key: Seq<char>| has_key(entries, key), |key: Seq<char>| entries[key_index(entries,
        key)].1)
}

/// In a sorted list the entry at a position is the one its key maps to.
pub proof fn lemma_entry_at(entries: Entries, i: int)
    requires
        keys_sorted(entries),
        0 <= i < entries.len(),
    ensures
        has_key(entries, entries[i].0),
        key_index(entries, entries[i].0) == i,
        entries_map(entries)[entries[i].0] == entries[i].1,
{
    let key = entries[i].0;
    let c = key_index(entries, key);
    lemma_key_order(key, key, key);
    if c < i {
        assert(key_lt(entries[c].0, entries[i].0));
    } else if i < c {
        assert(key_lt(entries[i].0, entries[c].0));
    }
}

/// Two sorted lists that stand for the same mapping are the same list.
pub proof fn lemma_sorted_entries_unique(a: Entries, b: Entries)
    requires
        keys_sorted(a),
        keys_sorted(b),
        entries_map(a) == entries_map(b),
    ensures
        a == b,
    decreases a.len(),
{
    if a.len() == 0 {
        if b.len() > 0 {
            lemma_entry_at(b, 0);
            assert(entries_map(b).contains_key(b[0].0));
            assert(has_key(a, b[0].0));
        }
        assert(a =~= b);
    } else {
        let n = a.len() - 1;
        lemma_entry_at(a, n);
        assert(entries_map(b).contains_key(a[n].0));
        assert(has_key(b, a[n].0));
        let m = key_index(b, a[n].0);
        lemma_entry_at(b, m);
        // the last key of `a` is the greatest key of both lists
        if m < b.len() - 1 {
            let last = b.len() - 1;
            lemma_entry_at(b, last);
            assert(entries_map(b).contains_key(b[last].0));
            assert(entries_map(a).contains_key(b[last].0));
            assert(has_key(a, b[last].0));
            let k = key_index(a, b[last].0);
            lemma_key_order(a[n].0, b[last].0, a[n].0);
            assert(key_lt(b[m].0, b[last].0));
            if k < n {
                assert(key_lt(a[k].0, a[n].0));
            }
            assert(false);
        }
        let a0 = a.drop_last();
        let b0 = b.drop_last();
        assert(keys_sorted(a0)) by {
            assert forall|i: int, j: int| 0 <= i < j < a0.len() implies key_lt(
                (#[trigger] a0[i]).0,
                (#[trigger] a0[j]).0,
            ) by {
                assert(key_lt(a[i].0, a[j].0));
            }
        }
        assert(keys_sorted(b0)) by {
            assert forall|i: int, j: int| 0 <= i < j < b0.len() implies key_lt(
                (#[trigger] b0[i]).0,
                (#[trigger] b0[j]).0,
            ) by {
                assert(key_lt(b[i].0, b[j].0));
            }
        }
        assert(entries_map(a0) =~= entries_map(b0)) by {
            assert forall|key: Seq<char>| has_key(a0, key) <==> has_key(b0, key) by {
                lemma_key_order(key, key, key);
                if has_key(a0, key) {
                    let i = key_index(a0, key);
                    assert(a[i].0 == key);
                    lemma_entry_at(a, i);
                    assert(entries_map(b).contains_key(key));
                    let j = key_index(b, key);
                    if j == m {
                        assert(key_lt(a[i].0, a[n].0));
                    }
                    assert(b0[j].0 == key);
                }
                if has_key(b0, key) {
                    let j = key_index(b0, key);
                    assert(b[j].0 == key);
                    lemma_entry_at(b, j);
                    assert(entries_map(a).contains_key(key));
                    let i = key_index(a, key);
                    if i == n {
                        assert(key_lt(b[j].0, b[m].0));
                    }
                    assert(a0[i].0 == key);
                }
            }
            assert forall|key: Seq<char>| has_key(a0, key) implies entries_map(a0)[key]
                == entries_map(b0)[key] by {
                let i = key_index(a0, key);
                lemma_entry_at(a0, i);
                assert(a[i].0 == key);
                lemma_entry_at(a, i);
                let j = key_index(b0, key);
                lemma_entry_at(b0, j);
                assert(b[j].0 == key);
                lemma_entry_at(b, j);
            }
        }
        lemma_sorted_entries_unique(a0, b0);
        assert(a =~= a0.push(a[n]));
        assert(b =~= b0.push(b[m]));
    }
}

/// An ordered mapping from keys to ids.
#[derive(Debug, PartialEq, Eq)]
pub struct IdMap {
    entries: Vec<(String, VcsObjectId)>,
}

impl View for IdMap {
    type V = Entries;

    closed spec fn view(&self) -> Entries {
        self.entries@.map_values(|entry: (String, VcsObjectId)| (entry.0@, entry.1))
    }
}

impl IdMap {
    /// The keys are strictly sorted.
    #[verifier::type_invariant]
    pub closed spec fn inv(&self) -> bool {
        keys_sorted(self@)
    }

    /// Creates an empty mapping.
    pub fn new() -> (map: Self)
        ensures
            map@ == Entries::empty(),
    {
        let map = IdMap { entries: Vec::new() };
        assert(map@ =~= Entries::empty());
        map
    }

    /// The mapping itself, of which the keys are sorted.
    pub fn sorted(&self) -> (map: &Self)
        ensures
            map@ == self@,
            keys_sorted(self@),
    {
        proof {
            use_type_invariant(self);
        }
        self
    }

    /// The number of entries.
    pub fn len(&self) -> (count: usize)
        ensures
            count == self@.len(),
            keys_sorted(self@),
    {
        proof {
            use_type_invariant(self);
        }
        self.entries.len()
    }

    /// The key of the entry at a position.
    pub fn key(&self, index: usize) -> (key: &String)
        requires
            index < self@.len(),
        ensures
            key@ == self@[index as int].0,
    {
        &self.entries[index].0
    }

    /// The id of the entry at a position.
    pub fn id(&self, index: usize) -> (id: VcsObjectId)
        requires
            index < self@.len(),
        ensures
            id == self@[index as int].1,
    {
        self.entries[index].1
    }

    /// The position of the first entry whose key is not before `key`.
    fn lower_bound(&self, key: &str) -> (at: usize)
        ensures
            at <= self@.len(),
            forall|k: int| 0 <= k < at ==> key_lt((#[trigger] self@[k]).0, key@),
            at < self@.len() ==> !key_lt(self@[at as int].0, key@),
    {
        let mut at: usize = 0;
        while at < self.entries.len()
            invariant
                at <= self.entries.len(),
                self.entries@.len() == self@.len(),
                forall|k: int| 0 <= k < at ==> key_lt((#[trigger] self@[k]).0, key@),
            decreases self.entries.len() - at,
        {
            assert(self@[at as int].0 == self.entries@[at as int].0@);
            if !text_lt(self.entries[at].0.as_str(), key) {
                return at;
            }
            at += 1;
        }
        at
    }

    /// The position of the entry with the key, if there is one.
    pub fn position(&self, key: &str) -> (found: Option<usize>)
        ensures
            keys_sorted(self@),
            match found {
                Some(i) => i < self@.len() && self@[i as int].0 == key@ && has_key(self@, key@)
                    && entries_map(self@)[key@] == self@[i as int].1,
                None => !has_key(self@, key@),
            },
    {
        proof {
            use_type_invariant(self);
        }
        let at = self.lower_bound(key);
        if at < self.entries.len() {
            assert(self@[at as int].0 == self.entries@[at as int].0@);
            if text_eq(self.entries[at].0.as_str(), key) {
                proof {
                    lemma_entry_at(self@, at as int);
                }
                return Some(at);
            }
        }
        proof {
            if has_key(self@, key@) {
                let i = key_index(self@, key@);
                lemma_key_order(key@, key@, key@);
                if i < at {
                    assert(key_lt(self@[i].0, key@));
                } else {
                    lemma_key_order(self@[at as int].0, key@, key@);
                    if i > at {
                        assert(key_lt(self@[at as int].0, self@[i].0));
                    }
                }
            }
        }
        None
    }

    /// Whether there is an entry with the key.
    pub fn contains(&self, key: &str) -> (found: bool)
        ensures
            found == entries_map(self@).contains_key(key@),
            keys_sorted(self@),
    {
        self.position(key).is_some()
    }

    /// The id that the key maps to.
    pub fn get(&self, key: &str) -> (id: &VcsObjectId)
        requires
            entries_map(self@).contains_key(key@),
        ensures
            *id == entries_map(self@)[key@],
    {
        match self.position(key) {
            Some(i) => &self.entries[i].1,
            None => unreached(),
        }
    }

    /// Adds an entry, or gives the entry of that key another id.
    pub fn insert(&mut self, key: String, id: VcsObjectId)
        ensures
            entries_map(final(self)@) == entries_map(old(self)@).insert(key@, id),
            keys_sorted(final(self)@),
    {
        proof {
            use_type_invariant(&*self);
        }
        let ghost before = self@;
        let at = self.lower_bound(key.as_str());
        let mut entries: Vec<(String, VcsObjectId)> = Vec::new();
        assert(self.entries@.len() == self@.len());
        let same = at < self.entries.len() && text_eq(self.entries[at].0.as_str(), key.as_str());
        assert(at < self@.len() ==> self@[at as int].0 == self.entries@[at as int].0@);
        proof {
            lemma_empty_sorted();
        }
        core::mem::swap(&mut self.entries, &mut entries);
        if same {
            entries.remove(at);
        }
        entries.insert(at, (key, id));
        let ghost after = entries@.map_values(|entry: (String, VcsObjectId)| (entry.0@, entry.1));
        proof {
            if same {
                assert(after =~= before.update(at as int, (key@, id)));
                lemma_update_entry(before, at as int, id);
            } else {
                assert(after =~= before.insert(at as int, (key@, id)));
                if at < before.len() {
                    lemma_key_order(before[at as int].0, key@, key@);
                }
                lemma_insert_entry(before, at as int, key@, id);
            }
        }
        self.entries = entries;
    }

    /// Adds an entry whose key comes after every key of the mapping.
    pub fn push_last(&mut self, key: String, id: VcsObjectId)
        requires
            old(self)@.len() > 0 ==> key_lt(old(self)@.last().0, key@),
        ensures
            final(self)@ == old(self)@.push((key@, id)),
    {
        proof {
            use_type_invariant(&*self);
            lemma_empty_sorted();
        }
        let ghost before = self@;
        let mut entries: Vec<(String, VcsObjectId)> = Vec::new();
        core::mem::swap(&mut self.entries, &mut entries);
        entries.push((key, id));
        let ghost after = entries@.map_values(|entry: (String, VcsObjectId)| (entry.0@, entry.1));
        proof {
            assert(after =~= before.push((key@, id)));
            assert forall|i: int, j: int| 0 <= i < j < after.len() implies key_lt(
                (#[trigger] after[i]).0,
                (#[trigger] after[j]).0,
            ) by {
                if j < before.len() {
                    assert(key_lt(before[i].0, before[j].0));
                } else if i < before.len() - 1 {
                    assert(key_lt(before[i].0, before[before.len() - 1].0));
                    lemma_key_order(before[i].0, before.last().0, key@);
                }
            }
        }
        self.entries = entries;
    }

    /// Empties the mapping.
    pub fn clear(&mut self)
        ensures
            final(self)@ == Entries::empty(),
    {
        proof {
            lemma_empty_sorted();
        }
        let entries: Vec<(String, VcsObjectId)> = Vec::new();
        self.entries = entries;
        assert(self@ =~= Entries::empty());
    }
}

/// The empty list is sorted and stands for the empty mapping.
pub proof fn lemma_empty_sorted()
    ensures
        keys_sorted(Entries::empty()),
        keys_sorted(
            Seq::<(String, VcsObjectId)>::empty().map_values(
                |entry: (String, VcsObjectId)| (entry.0@, entry.1),
            ),
        ),
        entries_map(Entries::empty()) == Map::<Seq<char>, VcsObjectId>::empty(),
{
    assert(entries_map(Entries::empty()) =~= Map::<Seq<char>, VcsObjectId>::empty());
}

/// Giving the entry at a position another id changes what its key maps to
/// and nothing else.
pub proof fn lemma_update_entry(entries: Entries, at: int, id: VcsObjectId)
    requires
        keys_sorted(entries),
        0 <= at < entries.len(),
    ensures
        keys_sorted(entries.update(at, (entries[at].0, id))),
        entries_map(entries.update(at, (entries[at].0, id))) == entries_map(entries).insert(
            entries[at].0,
            id,
        ),
{
    let key = entries[at].0;
    let after = entries.update(at, (key, id));
    assert forall|i: int, j: int| 0 <= i < j < after.len() implies key_lt(
        (#[trigger] after[i]).0,
        (#[trigger] after[j]).0,
    ) by {
        assert(key_lt(entries[i].0, entries[j].0));
    }
    assert forall|k: Seq<char>| has_key(after, k) <==> (has_key(entries, k) || k == key) by {
        if has_key(after, k) {
            let i = key_index(after, k);
            assert(entries[i].0 == k);
        }
        if has_key(entries, k) {
            let i = key_index(entries, k);
            assert(after[i].0 == k);
        }
        if k == key {
            assert(after[at].0 == k);
        }
    }
    assert forall|k: Seq<char>| has_key(after, k) implies entries_map(after)[k] == entries_map(
        entries,
    ).insert(key, id)[k] by {
        let i = key_index(after, k);
        lemma_entry_at(after, i);
        if k != key {
            assert(entries[i].0 == k);
            lemma_entry_at(entries, i);
        } else {
            lemma_entry_at(after, at);
        }
    }
    assert(entries_map(after) =~= entries_map(entries).insert(key, id));
}

/// Inserting a new key between the keys before it and the keys after it
/// adds that key to the mapping and changes nothing else.
pub proof fn lemma_insert_entry(entries: Entries, at: int, key: Seq<char>, id: VcsObjectId)
    requires
        keys_sorted(entries),
        0 <= at <= entries.len(),
        forall|k: int| 0 <= k < at ==> key_lt((#[trigger] entries[k]).0, key),
        at < entries.len() ==> key_lt(key, entries[at].0),
    ensures
        keys_sorted(entries.insert(at, (key, id))),
        entries_map(entries.insert(at, (key, id))) == entries_map(entries).insert(key, id),
{
    let after = entries.insert(at, (key, id));
    assert forall|i: int, j: int| 0 <= i < j < after.len() implies key_lt(
        (#[trigger] after[i]).0,
        (#[trigger] after[j]).0,
    ) by {
        if j < at {
            assert(key_lt(entries[i].0, entries[j].0));
        } else if j == at {
            assert(key_lt(entries[i].0, key));
        } else if i < at {
            assert(key_lt(entries[i].0, key));
            if j - 1 > at {
                assert(key_lt(entries[at].0, entries[j - 1].0));
                lemma_key_order(key, entries[at].0, entries[j - 1].0);
            }
            lemma_key_order(entries[i].0, key, entries[j - 1].0);
        } else if i == at {
            if j - 1 > at {
                assert(key_lt(entries[at].0, entries[j - 1].0));
                lemma_key_order(key, entries[at].0, entries[j - 1].0);
            }
        } else {
            assert(key_lt(entries[i - 1].0, entries[j - 1].0));
        }
    }
    assert forall|k: Seq<char>| has_key(after, k) <==> (has_key(entries, k) || k == key) by {
        if has_key(after, k) {
            let i = key_index(after, k);
            if i < at {
                assert(entries[i].0 == k);
            } else if i > at {
                assert(entries[i - 1].0 == k);
            }
        }
        if has_key(entries, k) {
            let i = key_index(entries, k);
            if i < at {
                assert(after[i].0 == k);
            } else {
                assert(after[i + 1].0 == k);
            }
        }
        if k == key {
            assert(after[at].0 == k);
        }
    }
    assert forall|k: Seq<char>| has_key(after, k) implies entries_map(after)[k] == entries_map(
        entries,
    ).insert(key, id)[k] by {
        let i = key_index(after, k);
        lemma_entry_at(after, i);
        if k != key {
            if i < at {
                assert(entries[i].0 == k);
                lemma_entry_at(entries, i);
            } else {
                assert(entries[i - 1].0 == k);
                lemma_entry_at(entries, i - 1);
            }
        } else {
            lemma_entry_at(after, at);
        }
    }
    assert(entries_map(after) =~= entries_map(entries).insert(key, id));
}

} // verus!
