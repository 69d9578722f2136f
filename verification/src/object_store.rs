//! The content-addressed object store: canonical bytes kept under the
//! SHA-1 digest of those bytes.

use crate::identity::{get_vcs_object_id, ids_equal, object_id, sha1_digest, Bytes, VcsObjectId};
use vstd::prelude::*;

verus! {

/// What a store holds, as plain values: for each id the bytes kept under
/// it.
pub type Objects = Map<VcsObjectId, Seq<u8>>;

/// Whether every object is kept under the digest of its bytes.
pub open spec fn addressed(objects: Objects) -> bool {
    forall|id: VcsObjectId| #[trigger] objects.contains_key(id) ==> id == object_id(objects[id])
}

/// The store after each of the given objects has been put into it.
pub open spec fn spec_put_all(objects: Objects, contents: Seq<Seq<u8>>) -> Objects
    decreases contents.len(),
{
    if contents.len() == 0 {
        objects
    } else {
        spec_put_all(objects, contents.drop_last()).insert(
            object_id(contents.last()),
            contents.last(),
        )
    }
}

/// Putting two lists of objects one after the other is putting their
/// concatenation.
pub proof fn lemma_put_all_append(objects: Objects, first: Seq<Seq<u8>>, second: Seq<Seq<u8>>)
    ensures
        spec_put_all(spec_put_all(objects, first), second) == spec_put_all(objects, first + second),
    decreases second.len(),
{
    if second.len() == 0 {
        assert(first + second =~= first);
    } else {
        lemma_put_all_append(objects, first, second.drop_last());
        assert((first + second).drop_last() =~= first + second.drop_last());
        assert((first + second).last() == second.last());
    }
}

/// The objects as a list of pairs.
type Items = Seq<(VcsObjectId, Seq<u8>)>;

spec fn has_id(items: Items, id: VcsObjectId) -> bool {
    exists|i: int| 0 <= i < items.len() && (#[trigger] items[i]).0 == id
}

spec fn id_index(items: Items, id: VcsObjectId) -> int {
    choose|i: int| 0 <= i < items.len() && (#[trigger] items[i]).0 == id
}

spec fn distinct_ids(items: Items) -> bool {
    forall|i: int, j: int|
        0 <= i < j < items.len() ==> (#[trigger] items[i]).0 != (#[trigger] items[j]).0
}

spec fn items_map(items: Items) -> Objects {
    Map::new(|id: VcsObjectId| has_id(items, id), |id: VcsObjectId| items[id_index(items, id)].1)
}

proof fn lemma_item_at(items: Items, i: int)
    requires
        distinct_ids(items),
        0 <= i < items.len(),
    ensures
        has_id(items, items[i].0),
        id_index(items, items[i].0) == i,
        items_map(items)[items[i].0] == items[i].1,
{
    let c = id_index(items, items[i].0);
    if c < i {
        assert(items[c].0 != items[i].0);
    } else if i < c {
        assert(items[i].0 != items[c].0);
    }
}

/// The object store.
#[derive(Debug, PartialEq, Eq)]
pub struct ObjectStore {
    entries: Vec<(VcsObjectId, Bytes)>,
}

impl View for ObjectStore {
    type V = Objects;

    closed spec fn view(&self) -> Objects {
        items_map(self.items())
    }
}

impl ObjectStore {
    closed spec fn items(&self) -> Items {
        self.entries@.map_values(|entry: (VcsObjectId, Bytes)| (entry.0, entry.1@))
    }

    /// No id occurs twice, and every object is kept under the digest of
    /// its bytes.
    #[verifier::type_invariant]
    closed spec fn inv(&self) -> bool {
        &&& items_map(self.items()).dom().finite()
        &&& items_map(self.items()).dom().len() == self.items().len()
        &&& distinct_ids(self.items())
        &&& forall|i: int|
            0 <= i < self.items().len() ==> (#[trigger] self.items()[i]).0@ == sha1_digest(
                self.items()[i].1,
            )
    }

    /// The number of objects in the store.
    pub open spec fn count(&self) -> nat {
        self@.dom().len()
    }

    /// The ids of the objects in the order in which they came into the
    /// store.
    pub closed spec fn ids(&self) -> Seq<VcsObjectId> {
        self.entries@.map_values(|entry: (VcsObjectId, Bytes)| entry.0)
    }

    /// Creates an empty store.
    pub fn new() -> (store: Self)
        ensures
            store@ == Objects::empty(),
            store.count() == 0,
            store.ids() == Seq::<VcsObjectId>::empty(),
    {
        let entries: Vec<(VcsObjectId, Bytes)> = Vec::new();
        proof {
            let none = entries@.map_values(|entry: (VcsObjectId, Bytes)| (entry.0, entry.1@));
            assert(items_map(none) =~= Objects::empty());
            assert(items_map(none).dom() =~= Set::<VcsObjectId>::empty());
        }
        let store = ObjectStore { entries };
        assert(store@ =~= Objects::empty());
        assert(store.ids() =~= Seq::<VcsObjectId>::empty());
        store
    }

    /// The number of objects in the store.
    pub fn len(&self) -> (count: usize)
        ensures
            count == self.count(),
            count == self.ids().len(),
            self@.dom().finite(),
            addressed(self@),
    {
        proof {
            use_type_invariant(self);
            assert forall|id: VcsObjectId| #[trigger] self@.contains_key(id) implies id
                == object_id(self@[id]) by {
                let i = id_index(self.items(), id);
                lemma_item_at(self.items(), i);
                crate::identity::lemma_id_of(id);
            }
        }
        self.entries.len()
    }

    /// The id of the object at a position, in the order in which the
    /// objects came.
    pub fn id_at(&self, index: usize) -> (id: VcsObjectId)
        requires
            index < self.ids().len(),
        ensures
            id == self.ids()[index as int],
            self@.contains_key(id),
    {
        proof {
            use_type_invariant(self);
            lemma_item_at(self.items(), index as int);
        }
        self.entries[index].0
    }

    /// The bytes of the object at a position.
    pub fn content_at(&self, index: usize) -> (content: &Bytes)
        requires
            index < self.ids().len(),
        ensures
            self@.contains_key(self.ids()[index as int]),
            content@ == self@[self.ids()[index as int]],
    {
        proof {
            use_type_invariant(self);
            lemma_item_at(self.items(), index as int);
        }
        &self.entries[index].1
    }

    fn position(&self, id: &VcsObjectId) -> (found: Option<usize>)
        ensures
            match found {
                Some(i) => i < self.items().len() && self.items()[i as int].0 == *id
                    && self@.contains_key(*id) && self@[*id] == self.items()[i as int].1,
                None => !self@.contains_key(*id),
            },
    {
        proof {
            use_type_invariant(self);
        }
        let mut i: usize = 0;
        while i < self.entries.len()
            invariant
                i <= self.entries.len(),
                self.entries@.len() == self.items().len(),
                distinct_ids(self.items()),
                forall|k: int| 0 <= k < i ==> (#[trigger] self.items()[k]).0 != *id,
            decreases self.entries.len() - i,
        {
            assert(self.items()[i as int].0 == self.entries@[i as int].0);
            if ids_equal(&self.entries[i].0, id) {
                proof {
                    lemma_item_at(self.items(), i as int);
                }
                return Some(i);
            }
            i += 1;
        }
        None
    }

    /// Whether an object is kept under the id.
    pub fn contains(&self, id: &VcsObjectId) -> (found: bool)
        ensures
            found == self@.contains_key(*id),
    {
        self.position(id).is_some()
    }

    /// The bytes kept under the id.
    pub fn get(&self, id: &VcsObjectId) -> (content: Option<&Bytes>)
        ensures
            match content {
                Some(content) => self@.contains_key(*id) && content@ == self@[*id],
                None => !self@.contains_key(*id),
            },
    {
        match self.position(id) {
            Some(i) => {
                assert(self.items()[i as int].1 == self.entries@[i as int].1@);
                Some(&self.entries[i].1)
            },
            None => None,
        }
    }

    /// Keeps the bytes under their digest and returns it. Bytes that are
    /// already there are written over with themselves.
    pub fn put(&mut self, content: Bytes) -> (id: VcsObjectId)
        ensures
            id == object_id(content@),
            final(self)@ == old(self)@.insert(id, content@),
            final(self).count() == old(self).count() + (if old(self)@.contains_key(id) {
                0nat
            } else {
                1nat
            }),
            final(self).ids() == (if old(self)@.contains_key(id) {
                old(self).ids()
            } else {
                old(self).ids().push(id)
            }),
    {
        proof {
            use_type_invariant(&*self);
        }
        let id = get_vcs_object_id(&content);
        let found = self.position(&id);
        let ghost before = self.items();
        let ghost came = self.ids();
        let ghost bytes = content@;
        let mut entries: Vec<(VcsObjectId, Bytes)> = Vec::new();
        proof {
            let none = Seq::<(VcsObjectId, Bytes)>::empty().map_values(
                |entry: (VcsObjectId, Bytes)| (entry.0, entry.1@),
            );
            assert(distinct_ids(none));
            assert(items_map(none) =~= Objects::empty());
            assert(items_map(none).dom() =~= Set::<VcsObjectId>::empty());
        }
        core::mem::swap(&mut self.entries, &mut entries);
        let ghost after;
        match found {
            Some(i) => {
                entries.remove(i);
                entries.insert(i, (id, content));
                proof {
                    after = entries@.map_values(|entry: (VcsObjectId, Bytes)| (entry.0, entry.1@));
                    assert(after =~= before.update(i as int, (id, bytes)));
                    assert forall|a: int, b: int| 0 <= a < b < after.len() implies (
                    #[trigger] after[a]).0 != (#[trigger] after[b]).0 by {
                        assert(before[a].0 != before[b].0);
                    }
                    assert forall|k: VcsObjectId| has_id(after, k) <==> has_id(before, k) by {
                        if has_id(after, k) {
                            let j = id_index(after, k);
                            assert(before[j].0 == k);
                        }
                        if has_id(before, k) {
                            let j = id_index(before, k);
                            assert(after[j].0 == k);
                        }
                    }
                    assert forall|k: VcsObjectId| has_id(after, k) implies items_map(after)[k]
                        == items_map(before).insert(id, bytes)[k] by {
                        let j = id_index(after, k);
                        lemma_item_at(after, j);
                        lemma_item_at(before, j);
                    }
                    assert(items_map(after) =~= items_map(before).insert(id, bytes));
                    assert(items_map(after).dom() =~= items_map(before).dom());
                    assert(entries@.map_values(|entry: (VcsObjectId, Bytes)| entry.0) =~= came);
                }
            },
            None => {
                entries.push((id, content));
                proof {
                    after = entries@.map_values(|entry: (VcsObjectId, Bytes)| (entry.0, entry.1@));
                    assert(after =~= before.push((id, bytes)));
                    assert forall|a: int, b: int| 0 <= a < b < after.len() implies (
                    #[trigger] after[a]).0 != (#[trigger] after[b]).0 by {
                        if b < before.len() {
                            assert(before[a].0 != before[b].0);
                        } else {
                            assert(before[a].0 == after[a].0);
                            if before[a].0 == id {
                                assert(has_id(before, id));
                            }
                        }
                    }
                    assert forall|k: VcsObjectId| has_id(after, k) <==> (has_id(before, k) || k
                        == id) by {
                        if has_id(after, k) {
                            let j = id_index(after, k);
                            if j < before.len() {
                                assert(before[j].0 == k);
                            }
                        }
                        if has_id(before, k) {
                            let j = id_index(before, k);
                            assert(after[j].0 == k);
                        }
                        if k == id {
                            assert(after[before.len() as int].0 == k);
                        }
                    }
                    assert forall|k: VcsObjectId| has_id(after, k) implies items_map(after)[k]
                        == items_map(before).insert(id, bytes)[k] by {
                        let j = id_index(after, k);
                        lemma_item_at(after, j);
                        if j < before.len() {
                            assert(before[j] == after[j]);
                            lemma_item_at(before, j);
                        }
                    }
                    assert(items_map(after) =~= items_map(before).insert(id, bytes));
                    assert(items_map(after).dom() =~= items_map(before).dom().insert(id));
                    assert(entries@.map_values(|entry: (VcsObjectId, Bytes)| entry.0)
                        =~= came.push(id));
                }
            },
        }
        self.entries = entries;
        id
    }
}

} // verus!
