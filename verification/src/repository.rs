//! The control data of a repository: HEAD, the index, the heads and the
//! object store, and the typed access to stored objects.

use crate::errors::{ErrorView, VcsError, VcsResult};
use crate::id_map::Entries;
use crate::identity::Bytes;
use crate::identity::VcsObjectId;
use crate::object_store::{spec_put_all, Objects, ObjectStore};
use crate::objects::{
    Blob, BlobView, Commit, CommitView, Index, NodeView, ObjectView, RefStorage, StateView, Tree,
    VcsObjects, VcsRepositoryState,
};
use crate::traits::{read_entries, read_object, read_state, VcsSerialize};
use vstd::prelude::*;

verus! {

/// The control data of a repository.
#[derive(Debug, PartialEq, Eq)]
pub struct Repository {
    pub state: VcsRepositoryState,
    pub index: Index,
    pub heads: RefStorage,
    pub objects: ObjectStore,
}

/// The control data as plain values.
pub struct RepositoryView {
    pub state: StateView,
    pub index: Entries,
    pub heads: Entries,
    pub objects: Objects,
}

impl View for Repository {
    type V = RepositoryView;

    open spec fn view(&self) -> RepositoryView {
        RepositoryView {
            state: self.state@,
            index: self.index@,
            heads: self.heads@,
            objects: self.objects@,
        }
    }
}

/// The bytes of a list of byte vectors.
pub open spec fn contents_view(contents: Seq<Bytes>) -> Seq<Seq<u8>> {
    contents.map_values(|content: Bytes| content@)
}

impl Repository {
    /// The control data that the files of a control directory stand for:
    /// HEAD, the index and the heads from their stored forms, and a store
    /// that holds each of the given objects under the digest of its bytes.
    /// Fails with `Serialization` where one of the three stored forms
    /// cannot be read.
    pub fn open(
        state: &Bytes,
        index: &Bytes,
        heads: &Bytes,
        objects: Vec<Bytes>,
    ) -> (opened: VcsResult<Repository>)
        ensures
            match opened {
                Ok(repo) => {
                    &&& read_state(state@) == Some(repo@.state)
                    &&& read_entries(index@) == Some(repo@.index)
                    &&& read_entries(heads@) == Some(repo@.heads)
                    &&& repo@.objects == spec_put_all(Map::empty(), contents_view(objects@))
                },
                Err(error) => error@ == ErrorView::Serialization && (read_state(state@) is None
                    || read_entries(index@) is None || read_entries(heads@) is None),
            },
    {
        let state = match VcsRepositoryState::read_from(state) {
            Ok(state) => state,
            Err(error) => {
                return Err(error);
            },
        };
        let index = match Index::read_from(index) {
            Ok(index) => index,
            Err(error) => {
                return Err(error);
            },
        };
        let heads = match RefStorage::read_from(heads) {
            Ok(heads) => heads,
            Err(error) => {
                return Err(error);
            },
        };
        let ghost all = contents_view(objects@);
        let mut store = ObjectStore::new();
        let mut i: usize = 0;
        assert(all.take(0) =~= Seq::<Seq<u8>>::empty());
        while i < objects.len()
            invariant
                i <= objects.len(),
                all == contents_view(objects@),
                store@ == spec_put_all(Map::empty(), all.take(i as int)),
            decreases objects.len() - i,
        {
            proof {
                assert(all.take(i + 1).drop_last() =~= all.take(i as int));
                assert(all.take(i + 1).last() == objects@[i as int]@);
            }
            store.put(objects[i].clone());
            i += 1;
        }
        assert(all.take(i as int) =~= all);
        Ok(Repository { state, index, heads, objects: store })
    }
}

/// Whether every id that an object refers to is the id of an object of
/// the store: a commit's tree and parent, and the id of each node of a
/// tree.
pub open spec fn refers_inside(object: ObjectView, objects: Objects) -> bool {
    match object {
        ObjectView::Commit(commit) => objects.contains_key(commit.tree) && (commit.parent is Some
            ==> objects.contains_key(commit.parent.unwrap())),
        ObjectView::Blob(_) => true,
        ObjectView::Tree(nodes) => nodes_inside(nodes, objects),
    }
}

/// Whether the id of each node is the id of an object of the store.
pub open spec fn nodes_inside(nodes: Seq<NodeView>, objects: Objects) -> bool {
    forall|i: int| 0 <= i < nodes.len() ==> objects.contains_key((#[trigger] nodes[i]).id)
}

/// Whether the store is closed: every id that an object of the store
/// refers to is the id of an object of the store.
pub open spec fn store_closed(objects: Objects) -> bool {
    forall|id: VcsObjectId| #[trigger]
        objects.contains_key(id) ==> match read_object(objects[id]) {
            Some(object) => refers_inside(object, objects),
            None => true,
        }
}

/// Whether every id of a mapping is the id of an object of the store.
pub open spec fn ids_inside(map: Map<Seq<char>, VcsObjectId>, objects: Objects) -> bool {
    forall|key: Seq<char>| #[trigger] map.contains_key(key) ==> objects.contains_key(map[key])
}

/// Whether a store holds all that another holds, under the same ids or
/// not.
pub open spec fn store_grown(before: Objects, after: Objects) -> bool {
    forall|id: VcsObjectId| before.contains_key(id) ==> #[trigger] after.contains_key(id)
}

/// A closed store stays closed when an object that refers to nothing
/// outside the store is put into it.
pub proof fn lemma_put_keeps_closed(objects: Objects, id: VcsObjectId, content: Seq<u8>)
    requires
        store_closed(objects),
        match read_object(content) {
            Some(object) => refers_inside(object, objects.insert(id, content)),
            None => true,
        },
    ensures
        store_closed(objects.insert(id, content)),
        store_grown(objects, objects.insert(id, content)),
{
    let after = objects.insert(id, content);
    assert forall|other: VcsObjectId| #[trigger] after.contains_key(other) implies match
        read_object(after[other]) { Some(object) => refers_inside(object, after), None => true, } by
        {
        if other != id {
            assert(objects.contains_key(other));
            if let Some(object) = read_object(objects[other]) {
                lemma_refers_inside_grown(object, objects, after);
            }
        }
    }
}

/// What refers to nothing outside a store refers to nothing outside a
/// store that has grown from it.
pub proof fn lemma_refers_inside_grown(object: ObjectView, before: Objects, after: Objects)
    requires
        refers_inside(object, before),
        store_grown(before, after),
    ensures
        refers_inside(object, after),
{
    if let ObjectView::Tree(nodes) = object {
        assert forall|i: int| 0 <= i < nodes.len() implies after.contains_key(
            (#[trigger] nodes[i]).id,
        ) by {
            assert(before.contains_key(nodes[i].id));
        }
    }
}

/// A tree that is loaded from a closed store has all its nodes' ids in
/// the store.
pub proof fn lemma_loaded_tree_inside(objects: Objects, id: VcsObjectId)
    requires
        store_closed(objects),
        spec_load_tree(objects, id) is Ok,
    ensures
        nodes_inside(spec_load_tree(objects, id)->Ok_0, objects),
{
    assert(objects.contains_key(id));
}

/// The object kept under an id: `Io` where there is none, `Serialization`
/// where the bytes are not the canonical form of an object.
pub open spec fn spec_load(objects: Objects, id: VcsObjectId) -> Result<ObjectView, ErrorView> {
    if !objects.contains_key(id) {
        Err(ErrorView::Io)
    } else {
        match read_object(objects[id]) {
            Some(object) => Ok(object),
            None => Err(ErrorView::Serialization),
        }
    }
}

/// The tree kept under an id; `Serialization` where the object is not a
/// tree.
pub open spec fn spec_load_tree(
    objects: Objects,
    id: VcsObjectId,
) -> Result<Seq<NodeView>, ErrorView> {
    match spec_load(objects, id) {
        Ok(ObjectView::Tree(nodes)) => Ok(nodes),
        Ok(_) => Err(ErrorView::Serialization),
        Err(error) => Err(error),
    }
}

/// The commit kept under an id; `Serialization` where the object is not a
/// commit.
pub open spec fn spec_load_commit(
    objects: Objects,
    id: VcsObjectId,
) -> Result<CommitView, ErrorView> {
    match spec_load(objects, id) {
        Ok(ObjectView::Commit(commit)) => Ok(commit),
        Ok(_) => Err(ErrorView::Serialization),
        Err(error) => Err(error),
    }
}

/// The blob kept under an id; `Serialization` where the object is not a
/// blob.
pub open spec fn spec_load_blob(objects: Objects, id: VcsObjectId) -> Result<BlobView, ErrorView> {
    match spec_load(objects, id) {
        Ok(ObjectView::Blob(blob)) => Ok(blob),
        Ok(_) => Err(ErrorView::Serialization),
        Err(error) => Err(error),
    }
}

/// Loads the object kept under an id.
pub fn load_object(objects: &ObjectStore, id: &VcsObjectId) -> (object: VcsResult<VcsObjects>)
    ensures
        match object {
            Ok(object) => spec_load(objects@, *id) == Ok::<ObjectView, ErrorView>(object@),
            Err(error) => spec_load(objects@, *id) == Err::<ObjectView, ErrorView>(error@),
        },
{
    match objects.get(id) {
        Some(content) => VcsObjects::read_from(content),
        None => Err(VcsError::Io),
    }
}

/// Loads the tree kept under an id.
pub fn load_tree(objects: &ObjectStore, id: &VcsObjectId) -> (tree: VcsResult<Tree>)
    ensures
        match tree {
            Ok(tree) => spec_load_tree(objects@, *id) == Ok::<Seq<NodeView>, ErrorView>(tree@),
            Err(error) => spec_load_tree(objects@, *id) == Err::<Seq<NodeView>, ErrorView>(error@),
        },
{
    match load_object(objects, id) {
        Ok(VcsObjects::Tree(tree)) => Ok(tree),
        Ok(_) => Err(VcsError::Serialization),
        Err(error) => Err(error),
    }
}

/// Loads the commit kept under an id.
pub fn load_commit(objects: &ObjectStore, id: &VcsObjectId) -> (commit: VcsResult<Commit>)
    ensures
        match commit {
            Ok(commit) => spec_load_commit(objects@, *id) == Ok::<CommitView, ErrorView>(commit@),
            Err(error) => spec_load_commit(objects@, *id) == Err::<CommitView, ErrorView>(error@),
        },
{
    match load_object(objects, id) {
        Ok(VcsObjects::Commit(commit)) => Ok(commit),
        Ok(_) => Err(VcsError::Serialization),
        Err(error) => Err(error),
    }
}

/// Loads the blob kept under an id.
pub fn load_blob(objects: &ObjectStore, id: &VcsObjectId) -> (blob: VcsResult<Blob>)
    ensures
        match blob {
            Ok(blob) => spec_load_blob(objects@, *id) == Ok::<BlobView, ErrorView>(blob@),
            Err(error) => spec_load_blob(objects@, *id) == Err::<BlobView, ErrorView>(error@),
        },
{
    match load_object(objects, id) {
        Ok(VcsObjects::Blob(blob)) => Ok(blob),
        Ok(_) => Err(VcsError::Serialization),
        Err(error) => Err(error),
    }
}

} // verus!
