//! The stored objects (blobs, trees, commits) and the HEAD state.

use crate::id_map::{entries_map, keys_sorted, lemma_empty_sorted, Entries, IdMap};
use crate::identity::{ids_equal, VcsObjectId};
use crate::text::{copy_text, text_eq};
use vstd::prelude::*;

verus! {

/// An instant: seconds and nanoseconds since the Unix epoch.
#[derive(Debug, Clone, Copy, PartialEq, Eq, Structural)]
pub struct Timestamp {
    pub secs: u64,
    pub nanos: u32,
}

/// A file's contents together with its name relative to the repository.
#[derive(Debug, PartialEq, Eq)]
pub struct Blob {
    pub file_name: String,
    pub data: Vec<u8>,
}

/// A blob as plain values.
pub struct BlobView {
    pub file_name: Seq<char>,
    pub data: Seq<u8>,
}

impl View for Blob {
    type V = BlobView;

    open spec fn view(&self) -> BlobView {
        BlobView { file_name: self.file_name@, data: self.data@ }
    }
}

impl Clone for Blob {
    fn clone(&self) -> (copy: Self)
        ensures
            copy@ == self@,
    {
        Blob { file_name: copy_text(self.file_name.as_str()), data: self.data.clone() }
    }
}

/// A named point in history.
#[derive(Debug, PartialEq, Eq)]
pub struct Commit {
    pub tree: VcsObjectId,
    pub parent: Option<VcsObjectId>,
    pub branch: String,
    pub time: Timestamp,
    pub message: String,
}

/// A commit as plain values.
pub struct CommitView {
    pub tree: VcsObjectId,
    pub parent: Option<VcsObjectId>,
    pub branch: Seq<char>,
    pub time: Timestamp,
    pub message: Seq<char>,
}

impl View for Commit {
    type V = CommitView;

    open spec fn view(&self) -> CommitView {
        CommitView {
            tree: self.tree,
            parent: self.parent,
            branch: self.branch@,
            time: self.time,
            message: self.message@,
        }
    }
}

impl Clone for Commit {
    fn clone(&self) -> (copy: Self)
        ensures
            copy@ == self@,
    {
        Commit {
            tree: self.tree,
            parent: self.parent,
            branch: copy_text(self.branch.as_str()),
            time: self.time,
            message: copy_text(self.message.as_str()),
        }
    }
}

/// What a tree node refers to.
#[derive(Debug, Clone, Copy, PartialEq, Eq, Structural)]
pub enum TreeNodeType {
    Tree,
    Blob,
}

/// One entry of a tree: a file (blob) or a directory (tree), the id of the
/// object that holds it, and its path.
#[derive(Debug, PartialEq, Eq)]
pub struct TreeNode {
    pub object_type: TreeNodeType,
    pub id: VcsObjectId,
    pub path: String,
}

/// A tree node as plain values.
pub struct NodeView {
    pub is_blob: bool,
    pub id: VcsObjectId,
    pub path: Seq<char>,
}

impl View for TreeNode {
    type V = NodeView;

    open spec fn view(&self) -> NodeView {
        NodeView { is_blob: self.object_type == TreeNodeType::Blob, id: self.id, path: self.path@ }
    }
}

impl Clone for TreeNode {
    fn clone(&self) -> (copy: Self)
        ensures
            copy@ == self@,
    {
        TreeNode { object_type: self.object_type, id: self.id, path: copy_text(self.path.as_str()) }
    }
}

impl TreeNode {
    /// A node for a blob or for a tree, with the id of the object and its
    /// path.
    pub fn new(id: VcsObjectId, path: String, is_blob: bool) -> (node: Self)
        ensures
            node@ == (NodeView { is_blob, id, path: path@ }),
    {
        Self {
            object_type: if is_blob {
                TreeNodeType::Blob
            } else {
                TreeNodeType::Tree
            },
            id,
            path,
        }
    }

    /// Returns true if the node corresponds to a Blob object.
    pub fn is_blob(&self) -> (blob: bool)
        ensures
            blob == self@.is_blob,
    {
        match self.object_type {
            TreeNodeType::Blob => true,
            TreeNodeType::Tree => false,
        }
    }

    /// Returns true if the node corresponds to a Tree object.
    pub fn is_tree(&self) -> (tree: bool)
        ensures
            tree == !self@.is_blob,
    {
        !self.is_blob()
    }
}

/// The index of the first node with the given path and kind.
pub open spec fn find_node(nodes: Seq<NodeView>, path: Seq<char>, is_blob: bool) -> Option<int>
    decreases nodes.len(),
{
    if nodes.len() == 0 {
        None
    } else {
        match find_node(nodes.drop_last(), path, is_blob) {
            Some(i) => Some(i),
            None => if nodes.last().path == path && nodes.last().is_blob == is_blob {
                Some(nodes.len() - 1)
            } else {
                None
            },
        }
    }
}

/// `find_node` gives the first node that matches, and `None` only where
/// none does.
pub proof fn lemma_find_node(nodes: Seq<NodeView>, path: Seq<char>, is_blob: bool)
    ensures
        match find_node(nodes, path, is_blob) {
            Some(i) => 0 <= i < nodes.len() && nodes[i].path == path && nodes[i].is_blob == is_blob
                && forall|k: int|
                0 <= k < i ==> !((#[trigger] nodes[k]).path == path && nodes[k].is_blob == is_blob),
            None => forall|k: int|
                0 <= k < nodes.len() ==> !((#[trigger] nodes[k]).path == path && nodes[k].is_blob
                    == is_blob),
        },
    decreases nodes.len(),
{
    if nodes.len() > 0 {
        lemma_find_node(nodes.drop_last(), path, is_blob);
        assert forall|k: int| 0 <= k < nodes.len() - 1 implies nodes.drop_last()[k] == nodes[k] by
            {}
    }
}

/// A directory snapshot: nodes in the order in which they were added.
#[derive(Debug, PartialEq, Eq)]
pub struct Tree(Vec<TreeNode>);

impl View for Tree {
    type V = Seq<NodeView>;

    closed spec fn view(&self) -> Seq<NodeView> {
        self.0@.map_values(|node: TreeNode| node@)
    }
}

impl Clone for Tree {
    fn clone(&self) -> (copy: Self)
        ensures
            copy@ == self@,
    {
        let mut nodes: Vec<TreeNode> = Vec::new();
        let mut i: usize = 0;
        while i < self.0.len()
            invariant
                i <= self.0.len(),
                nodes@.len() == i,
                forall|k: int| 0 <= k < i ==> (#[trigger] nodes@[k])@ == self.0@[k]@,
            decreases self.0.len() - i,
        {
            nodes.push(self.0[i].clone());
            i += 1;
        }
        let copy = Tree(nodes);
        assert(copy@ =~= self@);
        copy
    }
}

impl Tree {
    /// Creates an empty tree.
    pub fn new() -> (tree: Self)
        ensures
            tree@ == Seq::<NodeView>::empty(),
    {
        let tree = Self(Vec::new());
        assert(tree@ =~= Seq::<NodeView>::empty());
        tree
    }

    /// Adds a new node to the tree.
    pub fn add_node(&mut self, node: TreeNode)
        ensures
            final(self)@ == old(self)@.push(node@),
    {
        self.0.push(node);
        assert(self@ =~= old(self)@.push(node@));
    }

    /// The number of nodes.
    pub fn len(&self) -> (count: usize)
        ensures
            count == self@.len(),
    {
        self.0.len()
    }

    /// The node at a position.
    pub fn node(&self, index: usize) -> (node: &TreeNode)
        requires
            index < self@.len(),
        ensures
            node@ == self@[index as int],
    {
        &self.0[index]
    }

    /// The position of the first node of the tree's root with the given
    /// path and kind.
    pub fn position(&self, path: &str, is_blob: bool) -> (found: Option<usize>)
        ensures
            match found {
                Some(i) => find_node(self@, path@, is_blob) == Some(i as int) && i < self@.len(),
                None => find_node(self@, path@, is_blob) is None,
            },
    {
        let mut i: usize = 0;
        assert(self@.take(0) =~= Seq::<NodeView>::empty());
        while i < self.0.len()
            invariant
                i <= self.0.len(),
                self.0@.len() == self@.len(),
                find_node(self@.take(i as int), path@, is_blob) is None,
            decreases self.0.len() - i,
        {
            let node = &self.0[i];
            let ghost next = self@.take(i + 1);
            assert(next.drop_last() =~= self@.take(i as int));
            assert(next.last() == node@);
            if text_eq(node.path.as_str(), path) && node.is_blob() == is_blob {
                proof {
                    lemma_find_prefix(self@, i + 1, path@, is_blob);
                }
                return Some(i);
            }
            i += 1;
        }
        assert(self@.take(i as int) =~= self@);
        None
    }

    /// If the tree root contains a node with the given path and type, returns
    /// Some(&TreeNode). Otherwise, returns None.
    pub fn find(&self, path: &str, is_blob: bool) -> (found: Option<&TreeNode>)
        ensures
            match found {
                Some(node) => find_node(self@, path@, is_blob) is Some && node@ == self@[find_node(
                    self@,
                    path@,
                    is_blob,
                ).unwrap()],
                None => find_node(self@, path@, is_blob) is None,
            },
    {
        match self.position(path, is_blob) {
            Some(i) => Some(&self.0[i]),
            None => None,
        }
    }

    /// If the tree root contains a node with the given path and type, returns
    /// Some(&mut TreeNode). Otherwise, returns None.
    pub fn find_mut(&mut self, path: &str, is_blob: bool) -> (found: Option<&mut TreeNode>)
        ensures
            match found {
                Some(node) => {
                    let i = find_node(old(self)@, path@, is_blob);
                    i is Some && node@ == old(self)@[i.unwrap()] && final(self)@
                        == old(self)@.update(
                        i.unwrap(),
                        final(node)@,
                    )
                },
                None => find_node(old(self)@, path@, is_blob) is None && final(self)@ == old(self)@,
            },
    {
        match self.position(path, is_blob) {
            Some(i) => {
                let node = &mut self.0[i];
                Some(node)
            },
            None => None,
        }
    }

    /// The tree's direct children, in order.
    pub fn iter(&self) -> (nodes: &Vec<TreeNode>)
        ensures
            nodes@.map_values(|node: TreeNode| node@) == self@,
    {
        &self.0
    }

    /// The tree's direct children, in order, by value.
    pub fn into_iter(self) -> (nodes: Vec<TreeNode>)
        ensures
            nodes@.map_values(|node: TreeNode| node@) == self@,
    {
        self.0
    }
}

/// A match found in a prefix is the match found in the whole sequence.
pub proof fn lemma_find_prefix(nodes: Seq<NodeView>, n: int, path: Seq<char>, is_blob: bool)
    requires
        0 <= n <= nodes.len(),
        find_node(nodes.take(n), path, is_blob) is Some,
    ensures
        find_node(nodes, path, is_blob) == find_node(nodes.take(n), path, is_blob),
    decreases nodes.len() - n,
{
    if n < nodes.len() {
        assert(nodes.take(n + 1).drop_last() =~= nodes.take(n));
        lemma_find_prefix(nodes, n + 1, path, is_blob);
    } else {
        assert(nodes.take(n) =~= nodes);
    }
}

/// Whether two trees hold the same nodes in the same order.
pub fn trees_equal(first: &Tree, second: &Tree) -> (same: bool)
    ensures
        same == (first@ == second@),
{
    if first.0.len() != second.0.len() {
        return false;
    }
    let mut i: usize = 0;
    while i < first.0.len()
        invariant
            i <= first.0.len(),
            first.0.len() == second.0.len(),
            first@.len() == first.0@.len(),
            second@.len() == second.0@.len(),
            forall|k: int| 0 <= k < i ==> first@[k] == second@[k],
        decreases first.0.len() - i,
    {
        let a = &first.0[i];
        let b = &second.0[i];
        assert(first@[i as int] == a@ && second@[i as int] == b@);
        if a.is_blob() != b.is_blob() || !ids_equal(&a.id, &b.id) || !text_eq(
            a.path.as_str(),
            b.path.as_str(),
        ) {
            return false;
        }
        i += 1;
    }
    assert(first@ =~= second@);
    true
}

/// The three kinds of stored objects.
#[derive(Debug, PartialEq, Eq)]
pub enum VcsObjects {
    Commit(Commit),
    Blob(Blob),
    Tree(Tree),
}

/// A stored object as plain values.
pub enum ObjectView {
    Commit(CommitView),
    Blob(BlobView),
    Tree(Seq<NodeView>),
}

impl View for VcsObjects {
    type V = ObjectView;

    open spec fn view(&self) -> ObjectView {
        match self {
            VcsObjects::Commit(commit) => ObjectView::Commit(commit@),
            VcsObjects::Blob(blob) => ObjectView::Blob(blob@),
            VcsObjects::Tree(tree) => ObjectView::Tree(tree@),
        }
    }
}

impl Clone for VcsObjects {
    fn clone(&self) -> (copy: Self)
        ensures
            copy@ == self@,
    {
        match self {
            VcsObjects::Commit(commit) => VcsObjects::Commit(commit.clone()),
            VcsObjects::Blob(blob) => VcsObjects::Blob(blob.clone()),
            VcsObjects::Tree(tree) => VcsObjects::Tree(tree.clone()),
        }
    }
}

impl VcsObjects {
    /// The commit that this object is.
    pub fn commit(self) -> (commit: Commit)
        requires
            self is Commit,
        ensures
            self@ == ObjectView::Commit(commit@),
    {
        match self {
            VcsObjects::Commit(commit) => commit,
            _ => unreached(),
        }
    }

    /// The blob that this object is.
    pub fn blob(self) -> (blob: Blob)
        requires
            self is Blob,
        ensures
            self@ == ObjectView::Blob(blob@),
    {
        match self {
            VcsObjects::Blob(blob) => blob,
            _ => unreached(),
        }
    }

    /// The tree that this object is.
    pub fn tree(self) -> (tree: Tree)
        requires
            self is Tree,
        ensures
            self@ == ObjectView::Tree(tree@),
    {
        match self {
            VcsObjects::Tree(tree) => tree,
            _ => unreached(),
        }
    }
}

/// HEAD: the current branch and the current commit, if any was made.
#[derive(Debug, PartialEq, Eq)]
pub struct VcsRepositoryState {
    pub current_commit: Option<VcsObjectId>,
    pub current_branch: String,
}

/// HEAD as plain values.
pub struct StateView {
    pub current_commit: Option<VcsObjectId>,
    pub current_branch: Seq<char>,
}

impl View for VcsRepositoryState {
    type V = StateView;

    open spec fn view(&self) -> StateView {
        StateView { current_commit: self.current_commit, current_branch: self.current_branch@ }
    }
}

impl Clone for VcsRepositoryState {
    fn clone(&self) -> (copy: Self)
        ensures
            copy@ == self@,
    {
        VcsRepositoryState {
            current_commit: self.current_commit,
            current_branch: copy_text(self.current_branch.as_str()),
        }
    }
}

/// Stores current state of files (their Blob ids) in the working directory.
#[derive(Debug, PartialEq, Eq)]
pub struct Index(IdMap);

impl View for Index {
    type V = Entries;

    closed spec fn view(&self) -> Entries {
        self.0@
    }
}

impl Index {
    /// The mapping from paths to blob ids that the index stands for.
    pub open spec fn map(&self) -> Map<Seq<char>, VcsObjectId> {
        entries_map(self@)
    }

    /// Creates an empty index.
    pub fn new() -> (index: Self)
        ensures
            index@ == Entries::empty(),
            index.map() == Map::<Seq<char>, VcsObjectId>::empty(),
    {
        proof {
            lemma_empty_sorted();
        }
        Self(IdMap::new())
    }

    /// The entries, in the order of their paths.
    pub fn entries(&self) -> (entries: &IdMap)
        ensures
            entries@ == self@,
            keys_sorted(self@),
    {
        self.0.sorted()
    }

    /// Wraps a mapping from paths to blob ids.
    pub fn from_entries(entries: IdMap) -> (index: Self)
        ensures
            index@ == entries@,
    {
        Self(entries)
    }

    /// Get current object's id corresponding to the path provided.
    pub fn get_id(&self, path: &str) -> (id: &VcsObjectId)
        requires
            self.map().contains_key(path@),
        ensures
            *id == self.map()[path@],
    {
        self.0.get(path)
    }

    /// Whether the index has an entry for the path.
    pub fn contains(&self, path: &str) -> (found: bool)
        ensures
            found == self.map().contains_key(path@),
            keys_sorted(self@),
    {
        self.0.contains(path)
    }

    /// Adds an entry for the path, or gives its entry another id.
    pub fn update(&mut self, path: String, id: VcsObjectId)
        ensures
            final(self).map() == old(self).map().insert(path@, id),
            keys_sorted(final(self)@),
    {
        self.0.insert(path, id);
    }

    /// Empties the index.
    pub fn clear(&mut self)
        ensures
            final(self)@ == Entries::empty(),
            final(self).map() == Map::<Seq<char>, VcsObjectId>::empty(),
    {
        proof {
            lemma_empty_sorted();
        }
        self.0.clear();
    }
}

/// Stores vcs objects references
#[derive(Debug, PartialEq, Eq)]
pub struct RefStorage(IdMap);

impl View for RefStorage {
    type V = Entries;

    closed spec fn view(&self) -> Entries {
        self.0@
    }
}

impl RefStorage {
    /// The mapping from branch names to commit ids that the storage stands
    /// for.
    pub open spec fn map(&self) -> Map<Seq<char>, VcsObjectId> {
        entries_map(self@)
    }

    /// Creates an empty storage.
    pub fn new() -> (heads: Self)
        ensures
            heads@ == Entries::empty(),
            heads.map() == Map::<Seq<char>, VcsObjectId>::empty(),
    {
        proof {
            lemma_empty_sorted();
        }
        Self(IdMap::new())
    }

    /// The entries, in the order of their names.
    pub fn entries(&self) -> (entries: &IdMap)
        ensures
            entries@ == self@,
            keys_sorted(self@),
    {
        self.0.sorted()
    }

    /// Wraps a mapping from branch names to commit ids.
    pub fn from_entries(entries: IdMap) -> (heads: Self)
        ensures
            heads@ == entries@,
    {
        Self(entries)
    }

    /// Get object's id by the name of the reference.
    pub fn get_id(&self, name: &str) -> (id: &VcsObjectId)
        requires
            self.map().contains_key(name@),
        ensures
            *id == self.map()[name@],
    {
        self.0.get(name)
    }

    /// Returns true if the storage contains a reference with the name <name>.
    pub fn contains(&self, name: &str) -> (found: bool)
        ensures
            found == self.map().contains_key(name@),
            keys_sorted(self@),
    {
        self.0.contains(name)
    }

    /// Adds a new reference if it is not in the storage yet. Otherwise, updates
    /// object's id that the reference points to.
    pub fn update(&mut self, name: String, id: VcsObjectId)
        ensures
            final(self).map() == old(self).map().insert(name@, id),
            keys_sorted(final(self)@),
    {
        self.0.insert(name, id);
    }
}

} // verus!
