//! The algorithms on stored objects: building, comparing, loading and
//! merging trees.

use crate::errors::{ErrorView, VcsError, VcsResult};
use crate::file_manager::{
    entries_view, is_vcs_directory, spec_walk, spec_walk_entry, spec_write_file, walk_entries,
    walked_view, write_file, EntryView, Walked, WalkedView, WorkEntry, WorkTree, WorkTreeView,
    VCS_ROOT,
};
use crate::id_map::{lemma_empty_sorted, Entries};
use crate::identity::{get_human_id, get_vcs_object_id, hex_text, ids_equal, object_id, VcsObjectId};
use crate::object_store::{lemma_put_all_append, spec_put_all, Objects, ObjectStore};
use crate::objects::{
    find_node, lemma_find_node, Blob, BlobView, Commit, CommitView, Index, NodeView, ObjectView,
    RefStorage, StateView, Tree, TreeNode, VcsObjects, VcsRepositoryState,
};
use crate::public_info::{changes_view, get_relative, FileChanges, FileStatus};
use crate::repository::{
    ids_inside, lemma_loaded_tree_inside, lemma_put_keeps_closed, load_blob, load_commit, load_tree,
    nodes_inside, refers_inside, spec_load_blob, spec_load_commit, spec_load_tree, store_closed,
    store_grown, Repository,
};
use crate::text::{
    copy_text, is_absolute, join_path, lemma_join_relative, lemma_under_transitive, path_join,
    path_relative, path_under, text_eq,
};
use crate::traits::{object_content, read_object, VcsSerialize};
use vstd::prelude::*;
use vstd::string::*;

verus! {

/// One step of a merge: the node replaces the id of the destination's
/// node of the same path and kind, or is appended where there is none.
pub open spec fn merge_node(destination: Seq<NodeView>, node: NodeView) -> Seq<NodeView> {
    match find_node(destination, node.path, node.is_blob) {
        Some(i) => destination.update(i, NodeView { id: node.id, ..destination[i] }),
        None => destination.push(node),
    }
}

/// The top-level merge of two trees: the source's nodes are merged into
/// the destination one after the other, in their order.
pub open spec fn spec_merge_trees(
    source: Seq<NodeView>,
    destination: Seq<NodeView>,
) -> Seq<NodeView>
    decreases source.len(),
{
    if source.len() == 0 {
        destination
    } else {
        merge_node(spec_merge_trees(source.drop_last(), destination), source.last())
    }
}

/// The merged tree refers to what the two trees refer to: where the ids
/// of their nodes are in a store, so are the ids of its nodes.
pub proof fn lemma_merged_inside(
    source: Seq<NodeView>,
    destination: Seq<NodeView>,
    objects: Objects,
)
    requires
        nodes_inside(source, objects),
        nodes_inside(destination, objects),
    ensures
        nodes_inside(spec_merge_trees(source, destination), objects),
    decreases source.len(),
{
    if source.len() > 0 {
        assert forall|i: int| 0 <= i < source.drop_last().len() implies objects.contains_key(
            (#[trigger] source.drop_last()[i]).id,
        ) by {
            assert(source.drop_last()[i] == source[i]);
        }
        lemma_merged_inside(source.drop_last(), destination, objects);
        let merged = spec_merge_trees(source.drop_last(), destination);
        let node = source.last();
        assert(node == source[source.len() - 1]);
        lemma_find_node(merged, node.path, node.is_blob);
        let after = merge_node(merged, node);
        assert forall|i: int| 0 <= i < after.len() implies objects.contains_key(
            (#[trigger] after[i]).id,
        ) by {
            match find_node(merged, node.path, node.is_blob) {
                Some(at) => {
                    if i != at {
                        assert(after[i] == merged[i]);
                    }
                },
                None => {
                    if i < merged.len() {
                        assert(after[i] == merged[i]);
                    }
                },
            }
        }
    }
}

/// Merges the source tree into the destination one and returns the resulting
/// tree.
pub fn merge_trees(source: Tree, destination: Tree) -> (merged: Tree)
    ensures
        merged@ == spec_merge_trees(source@, destination@),
{
    let mut destination = destination;
    let ghost start = destination@;
    let nodes = source.iter();
    let mut i: usize = 0;
    assert(source@.take(0) =~= Seq::<NodeView>::empty());
    while i < nodes.len()
        invariant
            i <= nodes.len(),
            nodes@.map_values(|node: TreeNode| node@) == source@,
            destination@ == spec_merge_trees(source@.take(i as int), start),
        decreases nodes.len() - i,
    {
        let src_node = &nodes[i];
        proof {
            assert(source@.take(i + 1).drop_last() =~= source@.take(i as int));
            assert(source@.take(i + 1).last() == src_node@);
            assert(source@.len() == nodes@.len());
        }
        let ghost before = destination@;
        let dst_node = destination.find_mut(src_node.path.as_str(), src_node.is_blob());
        if let Some(dst_node) = dst_node {
            dst_node.id = src_node.id;
        } else {
            destination.add_node(src_node.clone());
        }
        assert(destination@ == merge_node(before, src_node@));
        i += 1;
    }
    assert(source@.take(i as int) =~= source@);
    destination
}

/// A list of changes, or the failure that stood in its way.
pub type ChangesOutcome = Result<Seq<(FileStatus, Seq<char>)>, ErrorView>;

/// The outcome of an operation that gives a list of changes, as plain
/// values.
pub open spec fn changes_outcome(result: VcsResult<FileChanges>) -> ChangesOutcome {
    match result {
        Ok(changes) => Ok(changes_view(changes@)),
        Err(error) => Err(error@),
    }
}

/// Every blob of a tree and of the trees below it, as `Added`, in the
/// order of the nodes; a subtree's blobs stand where its node stands.
/// `depth` bounds how far below the tree the walk may go: a subtree met at
/// depth zero is a `Serialization` failure. The first failure met ends
/// the walk.
pub open spec fn spec_tree_files(
    objects: Objects,
    nodes: Seq<NodeView>,
    depth: nat,
) -> ChangesOutcome
    decreases depth, nodes.len(),
{
    if nodes.len() == 0 {
        Ok(Seq::empty())
    } else {
        match spec_tree_files(objects, nodes.drop_last(), depth) {
            Err(error) => Err(error),
            Ok(files) => {
                let node = nodes.last();
                if node.is_blob {
                    Ok(files.push((FileStatus::Added, node.path)))
                } else if depth == 0 {
                    Err(ErrorView::Serialization)
                } else {
                    match spec_load_tree(objects, node.id) {
                        Err(error) => Err(error),
                        Ok(subtree) => match spec_tree_files(
                            objects,
                            subtree,
                            (depth - 1) as nat,
                        ) {
                            Err(error) => Err(error),
                            Ok(below) => Ok(files + below),
                        },
                    }
                }
            },
        }
    }
}

/// The changes in `second` relative to `first`, node by node in the order
/// of `second`. A node is matched with the first node of `first` that has
/// its path and kind. Matched trees are compared in turn; a matched blob
/// with another id is `Modified`; an unmatched blob is `Added`, and so is
/// every blob below an unmatched tree. What is only in `first` is not
/// reported. `depth` bounds the walk as in `spec_tree_files`.
pub open spec fn spec_compare_trees(
    objects: Objects,
    first: Seq<NodeView>,
    second: Seq<NodeView>,
    depth: nat,
) -> ChangesOutcome
    decreases depth, second.len(),
{
    if second.len() == 0 {
        Ok(Seq::empty())
    } else {
        match spec_compare_trees(objects, first, second.drop_last(), depth) {
            Err(error) => Err(error),
            Ok(changes) => {
                let node = second.last();
                match find_node(first, node.path, node.is_blob) {
                    Some(i) => if !node.is_blob {
                        if depth == 0 {
                            Err(ErrorView::Serialization)
                        } else {
                            match spec_load_tree(objects, first[i].id) {
                                Err(error) => Err(error),
                                Ok(first_subtree) => match spec_load_tree(objects, node.id) {
                                    Err(error) => Err(error),
                                    Ok(second_subtree) => match spec_compare_trees(
                                        objects,
                                        first_subtree,
                                        second_subtree,
                                        (depth - 1) as nat,
                                    ) {
                                        Err(error) => Err(error),
                                        Ok(below) => Ok(changes + below),
                                    },
                                },
                            }
                        }
                    } else if first[i].id != node.id {
                        Ok(changes.push((FileStatus::Modified, node.path)))
                    } else {
                        Ok(changes)
                    },
                    None => if node.is_blob {
                        Ok(changes.push((FileStatus::Added, node.path)))
                    } else if depth == 0 {
                        Err(ErrorView::Serialization)
                    } else {
                        match spec_load_tree(objects, node.id) {
                            Err(error) => Err(error),
                            Ok(subtree) => match spec_tree_files(
                                objects,
                                subtree,
                                (depth - 1) as nat,
                            ) {
                                Err(error) => Err(error),
                                Ok(below) => Ok(changes + below),
                            },
                        }
                    },
                }
            },
        }
    }
}

/// The walk of a tree reports real changes only.
pub proof fn lemma_tree_files_reportable(objects: Objects, nodes: Seq<NodeView>, depth: nat)
    ensures
        spec_tree_files(objects, nodes, depth) is Ok ==> crate::report_printer::reportable(
            spec_tree_files(objects, nodes, depth)->Ok_0,
        ),
    decreases depth, nodes.len(),
{
    if nodes.len() > 0 {
        lemma_tree_files_reportable(objects, nodes.drop_last(), depth);
        let node = nodes.last();
        if !node.is_blob && depth > 0 {
            if let Ok(subtree) = spec_load_tree(objects, node.id) {
                lemma_tree_files_reportable(objects, subtree, (depth - 1) as nat);
            }
        }
    }
}

/// The comparison of two trees reports real changes only.
pub proof fn lemma_compare_reportable(
    objects: Objects,
    first: Seq<NodeView>,
    second: Seq<NodeView>,
    depth: nat,
)
    ensures
        spec_compare_trees(objects, first, second, depth) is Ok
            ==> crate::report_printer::reportable(
            spec_compare_trees(objects, first, second, depth)->Ok_0,
        ),
    decreases depth, second.len(),
{
    if second.len() > 0 {
        lemma_compare_reportable(objects, first, second.drop_last(), depth);
        let node = second.last();
        if !node.is_blob && depth > 0 {
            match find_node(first, node.path, node.is_blob) {
                Some(i) => {
                    if let Ok(first_subtree) = spec_load_tree(objects, first[i].id) {
                        if let Ok(second_subtree) = spec_load_tree(objects, node.id) {
                            lemma_compare_reportable(
                                objects,
                                first_subtree,
                                second_subtree,
                                (depth - 1) as nat,
                            );
                        }
                    }
                },
                None => {
                    if let Ok(subtree) = spec_load_tree(objects, node.id) {
                        lemma_tree_files_reportable(objects, subtree, (depth - 1) as nat);
                    }
                },
            }
        }
    }
}

/// Adds copies of the changes of `more` at the end of `changes`.
fn append_changes(changes: &mut FileChanges, more: &FileChanges)
    ensures
        changes_view(final(changes)@) == changes_view(old(changes)@) + changes_view(more@),
{
    let ghost start = changes_view(changes@);
    let mut i: usize = 0;
    while i < more.len()
        invariant
            i <= more.len(),
            changes_view(changes@) == start + changes_view(more@).take(i as int),
        decreases more.len() - i,
    {
        let ghost before = changes_view(changes@);
        changes.push((more[i].0, copy_text(more[i].1.as_str())));
        assert(changes_view(changes@) =~= before.push(changes_view(more@)[i as int]));
        assert(changes_view(changes@) =~= start + changes_view(more@).take(i + 1));
        i += 1;
    }
    assert(changes_view(more@).take(i as int) =~= changes_view(more@));
}

/// `get_tree_files` with the depth of the walk given.
pub fn tree_files_within(
    objects: &ObjectStore,
    tree: &Tree,
    depth: usize,
) -> (files: VcsResult<FileChanges>)
    ensures
        changes_outcome(files) == spec_tree_files(objects@, tree@, depth as nat),
    decreases depth,
{
    let mut files: FileChanges = Vec::new();
    let count = tree.len();
    let mut i: usize = 0;
    assert(tree@.take(0) =~= Seq::<NodeView>::empty());
    assert(changes_view(files@) =~= Seq::empty());
    while i < count
        invariant
            i <= count,
            count == tree@.len(),
            spec_tree_files(objects@, tree@.take(i as int), depth as nat) == Ok::<
                Seq<(FileStatus, Seq<char>)>,
                ErrorView,
            >(changes_view(files@)),
        decreases count - i,
    {
        let node = tree.node(i);
        let ghost before = changes_view(files@);
        proof {
            assert(tree@.take(i + 1).drop_last() =~= tree@.take(i as int));
            assert(tree@.take(i + 1).last() == node@);
        }
        if node.is_blob() {
            files.push((FileStatus::Added, copy_text(node.path.as_str())));
            assert(changes_view(files@) =~= before.push((FileStatus::Added, node@.path)));
        } else {
            if depth == 0 {
                proof {
                    lemma_tree_files_fails(objects@, tree@, i + 1, depth as nat);
                }
                return Err(VcsError::Serialization);
            }
            let subtree = match load_tree(objects, &node.id) {
                Ok(subtree) => subtree,
                Err(error) => {
                    proof {
                        lemma_tree_files_fails(objects@, tree@, i + 1, depth as nat);
                    }
                    return Err(error);
                },
            };
            match tree_files_within(objects, &subtree, depth - 1) {
                Ok(below) => {
                    append_changes(&mut files, &below);
                },
                Err(error) => {
                    proof {
                        lemma_tree_files_fails(objects@, tree@, i + 1, depth as nat);
                    }
                    return Err(error);
                },
            }
        }
        i += 1;
    }
    assert(tree@.take(i as int) =~= tree@);
    Ok(files)
}

/// A walk that fails on a prefix of the nodes fails in the same way on
/// all of them.
pub proof fn lemma_tree_files_fails(objects: Objects, nodes: Seq<NodeView>, n: int, depth: nat)
    requires
        0 <= n <= nodes.len(),
        spec_tree_files(objects, nodes.take(n), depth) is Err,
    ensures
        spec_tree_files(objects, nodes, depth) == spec_tree_files(objects, nodes.take(n), depth),
    decreases nodes.len() - n,
{
    if n < nodes.len() {
        assert(nodes.take(n + 1).drop_last() =~= nodes.take(n));
        lemma_tree_files_fails(objects, nodes, n + 1, depth);
    } else {
        assert(nodes.take(n) =~= nodes);
    }
}

/// A comparison that fails on a prefix of the second tree's nodes fails
/// in the same way on all of them.
pub proof fn lemma_compare_fails(
    objects: Objects,
    first: Seq<NodeView>,
    second: Seq<NodeView>,
    n: int,
    depth: nat,
)
    requires
        0 <= n <= second.len(),
        spec_compare_trees(objects, first, second.take(n), depth) is Err,
    ensures
        spec_compare_trees(objects, first, second, depth) == spec_compare_trees(
            objects,
            first,
            second.take(n),
            depth,
        ),
    decreases second.len() - n,
{
    if n < second.len() {
        assert(second.take(n + 1).drop_last() =~= second.take(n));
        lemma_compare_fails(objects, first, second, n + 1, depth);
    } else {
        assert(second.take(n) =~= second);
    }
}

/// Every blob of a tree and of the trees below it, as `Added`. The walk
/// goes no deeper than there are objects in the store, which no tree that
/// the engine wrote needs.
pub fn get_tree_files(objects: &ObjectStore, tree: &Tree) -> (files: VcsResult<FileChanges>)
    ensures
        changes_outcome(files) == spec_tree_files(objects@, tree@, objects@.dom().len()),
{
    tree_files_within(objects, tree, objects.len())
}

/// `compare_trees` with the depth of the walk given.
pub fn compare_trees_within(
    objects: &ObjectStore,
    first: &Tree,
    second: &Tree,
    depth: usize,
) -> (changes: VcsResult<FileChanges>)
    ensures
        changes_outcome(changes) == spec_compare_trees(objects@, first@, second@, depth as nat),
    decreases depth,
{
    let mut changes: FileChanges = Vec::new();
    let count = second.len();
    let mut i: usize = 0;
    assert(second@.take(0) =~= Seq::<NodeView>::empty());
    assert(changes_view(changes@) =~= Seq::empty());
    while i < count
        invariant
            i <= count,
            count == second@.len(),
            spec_compare_trees(objects@, first@, second@.take(i as int), depth as nat) == Ok::<
                Seq<(FileStatus, Seq<char>)>,
                ErrorView,
            >(changes_view(changes@)),
        decreases count - i,
    {
        let second_node = second.node(i);
        let ghost before = changes_view(changes@);
        proof {
            assert(second@.take(i + 1).drop_last() =~= second@.take(i as int));
            assert(second@.take(i + 1).last() == second_node@);
            lemma_find_node(first@, second_node@.path, second_node@.is_blob);
        }
        let first_node = first.find(second_node.path.as_str(), second_node.is_blob());
        if let Some(first_node) = first_node {
            if first_node.is_tree() {
                if depth == 0 {
                    proof {
                        lemma_compare_fails(objects@, first@, second@, i + 1, depth as nat);
                    }
                    return Err(VcsError::Serialization);
                }
                let first_subtree = match load_tree(objects, &first_node.id) {
                    Ok(subtree) => subtree,
                    Err(error) => {
                        proof {
                            lemma_compare_fails(objects@, first@, second@, i + 1, depth as nat);
                        }
                        return Err(error);
                    },
                };
                let second_subtree = match load_tree(objects, &second_node.id) {
                    Ok(subtree) => subtree,
                    Err(error) => {
                        proof {
                            lemma_compare_fails(objects@, first@, second@, i + 1, depth as nat);
                        }
                        return Err(error);
                    },
                };
                match compare_trees_within(objects, &first_subtree, &second_subtree, depth - 1) {
                    Ok(below) => {
                        append_changes(&mut changes, &below);
                    },
                    Err(error) => {
                        proof {
                            lemma_compare_fails(objects@, first@, second@, i + 1, depth as nat);
                        }
                        return Err(error);
                    },
                }
            } else if !ids_equal(&first_node.id, &second_node.id) {
                changes.push((FileStatus::Modified, copy_text(first_node.path.as_str())));
                assert(changes_view(changes@) =~= before.push(
                    (FileStatus::Modified, second_node@.path),
                ));
            }
        } else if second_node.is_blob() {
            changes.push((FileStatus::Added, copy_text(second_node.path.as_str())));
            assert(changes_view(changes@) =~= before.push((FileStatus::Added, second_node@.path)));
        } else {
            if depth == 0 {
                proof {
                    lemma_compare_fails(objects@, first@, second@, i + 1, depth as nat);
                }
                return Err(VcsError::Serialization);
            }
            let subtree = match load_tree(objects, &second_node.id) {
                Ok(subtree) => subtree,
                Err(error) => {
                    proof {
                        lemma_compare_fails(objects@, first@, second@, i + 1, depth as nat);
                    }
                    return Err(error);
                },
            };
            match tree_files_within(objects, &subtree, depth - 1) {
                Ok(below) => {
                    append_changes(&mut changes, &below);
                },
                Err(error) => {
                    proof {
                        lemma_compare_fails(objects@, first@, second@, i + 1, depth as nat);
                    }
                    return Err(error);
                },
            }
        }
        i += 1;
    }
    assert(second@.take(i as int) =~= second@);
    Ok(changes)
}

/// Compares two trees by recursively traversing them and returns all the file
/// changes in the second tree in relation to the first tree.
pub fn compare_trees(
    objects: &ObjectStore,
    first: &Tree,
    second: &Tree,
) -> (changes: VcsResult<FileChanges>)
    ensures
        changes_outcome(changes)
            == spec_compare_trees(objects@, first@, second@, objects@.dom().len()),
{
    compare_trees_within(objects, first, second, objects.len())
}

/// The commit at which a branch left the branch it was made from: the
/// first commit, going from `head` to parent after parent, whose branch
/// is not `branch_name`, or the commit without a parent. `steps` bounds
/// how many parents may be loaded.
pub open spec fn spec_branch_root(
    objects: Objects,
    branch_name: Seq<char>,
    head: CommitView,
    steps: nat,
) -> Result<CommitView, ErrorView>
    decreases steps,
{
    if head.branch != branch_name {
        Ok(head)
    } else {
        match head.parent {
            None => Ok(head),
            Some(parent) => if steps == 0 {
                Err(ErrorView::Serialization)
            } else {
                match spec_load_commit(objects, parent) {
                    Err(error) => Err(error),
                    Ok(commit) => spec_branch_root(objects, branch_name, commit,
                        (steps - 1) as nat),
                }
            },
        }
    }
}

/// The commit at which a branch left the branch it was made from. No more
/// parents are loaded than there are objects in the store.
pub fn get_branch_root(
    objects: &ObjectStore,
    branch_name: &str,
    head: Commit,
) -> (root: VcsResult<Commit>)
    ensures
        match root {
            Ok(root) => spec_branch_root(objects@, branch_name@, head@, objects@.dom().len())
                == Ok::<
                CommitView,
                ErrorView,
            >(root@),
            Err(error) => spec_branch_root(objects@, branch_name@, head@, objects@.dom().len())
                == Err::<
                CommitView,
                ErrorView,
            >(error@),
        },
{
    let mut current = head.clone();
    let mut steps = objects.len();
    let ghost whole = spec_branch_root(objects@, branch_name@, head@, objects@.dom().len());
    while text_eq(current.branch.as_str(), branch_name)
        invariant
            whole == spec_branch_root(objects@, branch_name@, head@, objects@.dom().len()),
            whole == spec_branch_root(objects@, branch_name@, current@, steps as nat),
        decreases steps,
    {
        let parent = match &current.parent {
            Some(parent) => *parent,
            None => {
                return Ok(current);
            },
        };
        if steps == 0 {
            return Err(VcsError::Serialization);
        }
        current = match load_commit(objects, &parent) {
            Ok(commit) => commit,
            Err(error) => {
                return Err(error);
            },
        };
        steps -= 1;
    }
    Ok(current)
}

// ------------------------------------------------------- working tree

/// Every path that a walk meets lies below the directory walked, and is
/// absolute where the directory's path is.
pub proof fn lemma_walk_under(directory: Seq<char>, entries: Seq<EntryView>, recursively: bool)
    ensures
        forall|k: int|
            0 <= k < spec_walk(directory, entries, recursively).len() ==> {
                &&& path_under(
                    directory,
                    (#[trigger] spec_walk(directory, entries, recursively)[k]).path,
                )
                &&& is_absolute(directory) ==> is_absolute(
                    spec_walk(directory, entries, recursively)[k].path,
                )
            },
    decreases entries, 1nat,
{
    if entries.len() > 0 {
        lemma_walk_under(directory, entries.drop_last(), recursively);
        lemma_walk_entry_under(directory, entries.last(), recursively);
        let head = spec_walk(directory, entries.drop_last(), recursively);
        let tail = spec_walk_entry(directory, entries.last(), recursively);
        let walk = spec_walk(directory, entries, recursively);
        assert forall|k: int| 0 <= k < walk.len() implies path_under(
            directory,
            (#[trigger] walk[k]).path,
        ) && (is_absolute(directory) ==> is_absolute(walk[k].path)) by {
            if k < head.len() {
                assert(walk[k] == head[k]);
            } else {
                assert(walk[k] == tail[k - head.len()]);
            }
        }
    }
}

/// Every path that a walk meets at an entry and below it lies below the
/// entry's directory.
pub proof fn lemma_walk_entry_under(directory: Seq<char>, entry: EntryView, recursively: bool)
    ensures
        forall|k: int|
            0 <= k < spec_walk_entry(directory, entry, recursively).len() ==> {
                &&& path_under(
                    directory,
                    (#[trigger] spec_walk_entry(directory, entry, recursively)[k]).path,
                )
                &&& is_absolute(directory) ==> is_absolute(
                    spec_walk_entry(directory, entry, recursively)[k].path,
                )
            },
    decreases entry, 0nat,
{
    let path = path_join(directory, entry.name());
    lemma_join_relative(directory, entry.name());
    match entry {
        EntryView::File { .. } => {},
        EntryView::Dir { children, .. } => {
            if !entry.is_vcs_directory() && recursively {
                lemma_walk_under(path, children, recursively);
                let walk = spec_walk_entry(directory, entry, recursively);
                assert forall|k: int| 0 <= k < walk.len() implies path_under(
                    directory,
                    (#[trigger] walk[k]).path,
                ) && (is_absolute(directory) ==> is_absolute(walk[k].path)) by {
                    if k > 0 {
                        let below = spec_walk(path, children, recursively);
                        assert(walk[k] == below[k - 1]);
                        lemma_under_transitive(directory, path, below[k - 1].path);
                    }
                }
            }
        },
    }
}

/// The canonical bytes of the blob of a file: its name is the file's path
/// relative to the repository.
pub open spec fn spec_blob_content(root: Seq<char>, path: Seq<char>, data: Seq<u8>) -> Seq<u8> {
    object_content(ObjectView::Blob(BlobView { file_name: path_relative(root, path), data }))
}

/// The id of the blob of a file.
pub open spec fn spec_blob_id(root: Seq<char>, path: Seq<char>, data: Seq<u8>) -> VcsObjectId {
    object_id(spec_blob_content(root, path, data))
}

/// The status of a file: `Added` where the index has no entry for its
/// path, `Unchanged` where the entry is the id of the file's blob, and
/// `Modified` otherwise.
pub open spec fn spec_file_status(
    root: Seq<char>,
    path: Seq<char>,
    data: Seq<u8>,
    index: Map<Seq<char>, VcsObjectId>,
) -> FileStatus {
    if !index.contains_key(path) {
        FileStatus::Added
    } else if spec_blob_id(root, path, data) == index[path] {
        FileStatus::Unchanged
    } else {
        FileStatus::Modified
    }
}

/// The files of a walk that are not `Unchanged`, each with its status, in
/// the order of the walk.
pub open spec fn spec_changed_files(
    root: Seq<char>,
    walk: Seq<WalkedView>,
    index: Map<Seq<char>, VcsObjectId>,
) -> Seq<(FileStatus, Seq<char>)>
    decreases walk.len(),
{
    if walk.len() == 0 {
        Seq::empty()
    } else {
        let changes = spec_changed_files(root, walk.drop_last(), index);
        let entry = walk.last();
        let status = spec_file_status(root, entry.path, entry.data, index);
        if entry.is_dir || status == FileStatus::Unchanged {
            changes
        } else {
            changes.push((status, entry.path))
        }
    }
}

/// Every change of `spec_changed_files` is a real change of a file below
/// the root.
pub proof fn lemma_changed_files(
    root: Seq<char>,
    walk: Seq<WalkedView>,
    index: Map<Seq<char>, VcsObjectId>,
)
    requires
        forall|k: int| 0 <= k < walk.len() ==> path_under(root, (#[trigger] walk[k]).path),
    ensures
        forall|k: int|
            0 <= k < spec_changed_files(root, walk, index).len() ==> {
                &&& (#[trigger] spec_changed_files(root, walk, index)[k]).0 != FileStatus::Unchanged
                &&& path_under(root, spec_changed_files(root, walk, index)[k].1)
            },
    decreases walk.len(),
{
    if walk.len() > 0 {
        assert forall|k: int| 0 <= k < walk.drop_last().len() implies path_under(
            root,
            (#[trigger] walk.drop_last()[k]).path,
        ) by {
            assert(walk.drop_last()[k] == walk[k]);
        }
        lemma_changed_files(root, walk.drop_last(), index);
        assert(path_under(root, walk[walk.len() - 1].path));
    }
}

/// Forms a Blob object from file name and its contents.
pub fn make_blob(root: &str, file_path: &str, data: &Vec<u8>) -> (blob: Blob)
    requires
        is_absolute(root@),
        is_absolute(file_path@),
        path_under(root@, file_path@),
    ensures
        blob@ == (BlobView { file_name: path_relative(root@, file_path@), data: data@ }),
{
    Blob { file_name: get_relative(root, file_path), data: data.clone() }
}

/// Get the file status in the working tree in relation to the current index.
pub fn get_file_status(
    root: &str,
    file_path: &str,
    data: &Vec<u8>,
    index: &Index,
) -> (status: FileStatus)
    requires
        is_absolute(root@),
        is_absolute(file_path@),
        path_under(root@, file_path@),
    ensures
        status == spec_file_status(root@, file_path@, data@, index.map()),
{
    if !index.contains(file_path) {
        FileStatus::Added
    } else {
        let index_id = index.get_id(file_path);
        let blob = VcsObjects::Blob(make_blob(root, file_path, data));
        let id = get_vcs_object_id(&blob.get_content());
        if ids_equal(&id, index_id) {
            FileStatus::Unchanged
        } else {
            FileStatus::Modified
        }
    }
}

/// Returns the paths of the files whose contents do not match blobs recorded in
/// the index and the type of change that has happened to them.
pub fn get_changed_files(tree: &WorkTree, index: &Index) -> (changes: FileChanges)
    ensures
        changes_view(changes@) == spec_changed_files(
            tree@.root,
            spec_walk(tree@.root, tree@.entries, true),
            index.map(),
        ),
{
    let root = tree.root();
    let mut walked: Vec<Walked> = Vec::new();
    walk_entries(root.as_str(), tree.entries(), true, &mut walked);
    let ghost walk = walked_view(walked@);
    proof {
        assert(walk =~= spec_walk(tree@.root, tree@.entries, true));
        lemma_walk_under(tree@.root, tree@.entries, true);
    }
    let mut changes: FileChanges = Vec::new();
    let mut i: usize = 0;
    assert(walk.take(0) =~= Seq::<WalkedView>::empty());
    assert(changes_view(changes@) =~= Seq::empty());
    while i < walked.len()
        invariant
            i <= walked.len(),
            walk == walked_view(walked@),
            root@ == tree@.root,
            is_absolute(root@),
            forall|k: int|
                0 <= k < walk.len() ==> path_under(root@, (#[trigger] walk[k]).path) && is_absolute(
                    walk[k].path,
                ),
            changes_view(changes@) == spec_changed_files(root@, walk.take(i as int), index.map()),
        decreases walked.len() - i,
    {
        let entry = &walked[i];
        let ghost before = changes_view(changes@);
        proof {
            assert(walk.take(i + 1).drop_last() =~= walk.take(i as int));
            assert(walk.take(i + 1).last() == entry@);
            assert(walk[i as int] == entry@);
        }
        if !entry.is_dir {
            let status = get_file_status(root.as_str(), entry.path.as_str(), &entry.data, index);
            match status {
                FileStatus::Unchanged => {},
                _ => {
                    changes.push((status, copy_text(entry.path.as_str())));
                    assert(changes_view(changes@) =~= before.push((status, entry@.path)));
                },
            }
        }
        i += 1;
    }
    assert(walk.take(i as int) =~= walk);
    changes
}

/// Creates a blob mathching the given file and writes in to the objects
/// database.
pub fn add_blob(
    objects: &mut ObjectStore,
    root: &str,
    file_path: &str,
    data: &Vec<u8>,
    index: &mut Index,
) -> (id: VcsObjectId)
    requires
        is_absolute(root@),
        is_absolute(file_path@),
        path_under(root@, file_path@),
    ensures
        id == spec_blob_id(root@, file_path@, data@),
        final(index).map() == old(index).map().insert(file_path@, id),
        final(objects)@ == old(objects)@.insert(id, spec_blob_content(root@, file_path@, data@)),
        read_object(spec_blob_content(root@, file_path@, data@)) == Some(
            ObjectView::Blob(BlobView { file_name: path_relative(root@, file_path@), data: data@ }),
        ),
        store_grown(old(objects)@, final(objects)@),
        store_closed(old(objects)@) ==> store_closed(final(objects)@),
        ids_inside(old(index).map(), old(objects)@) ==> ids_inside(
            final(index).map(),
            final(objects)@,
        ),
{
    let blob = VcsObjects::Blob(make_blob(root, file_path, data));
    let content = blob.get_content();
    proof {
        if store_closed(objects@) {
            lemma_put_keeps_closed(objects@, object_id(content@), content@);
        }
    }
    let id = objects.put(content);
    index.update(copy_text(file_path), id);
    id
}

/// The store and the index after the blob of every file of the walk that
/// is not `Unchanged` in relation to `base` has been added, in the order
/// of the walk.
pub open spec fn spec_stage(
    objects: Objects,
    index: Map<Seq<char>, VcsObjectId>,
    base: Map<Seq<char>, VcsObjectId>,
    root: Seq<char>,
    walk: Seq<WalkedView>,
) -> (Objects, Map<Seq<char>, VcsObjectId>)
    decreases walk.len(),
{
    if walk.len() == 0 {
        (objects, index)
    } else {
        let staged = spec_stage(objects, index, base, root, walk.drop_last());
        let entry = walk.last();
        if entry.is_dir || spec_file_status(root, entry.path, entry.data, base)
            == FileStatus::Unchanged {
            staged
        } else {
            let content = spec_blob_content(root, entry.path, entry.data);
            (
                staged.0.insert(object_id(content), content),
                staged.1.insert(entry.path, object_id(content)),
            )
        }
    }
}

// --------------------------------------------------------- build_tree

/// Whether the index has an entry for every file that `build_tree` meets
/// in a directory and below it.
pub open spec fn spec_covered(
    directory: Seq<char>,
    entries: Seq<EntryView>,
    index: Map<Seq<char>, VcsObjectId>,
) -> bool
    decreases entries, 1nat,
{
    entries.len() == 0 || (spec_covered(directory, entries.drop_last(), index)
        && spec_entry_covered(directory, entries.last(), index))
}

/// Whether the index has an entry for a file, or for every file met
/// below a directory.
pub open spec fn spec_entry_covered(
    directory: Seq<char>,
    entry: EntryView,
    index: Map<Seq<char>, VcsObjectId>,
) -> bool
    decreases entry, 0nat,
{
    let path = path_join(directory, entry.name());
    match entry {
        EntryView::File { .. } => index.contains_key(path),
        EntryView::Dir { children, .. } => entry.is_vcs_directory() || spec_covered(
            path,
            children,
            index,
        ),
    }
}

/// An index that has an entry for every file of the recursive walk covers
/// the directory.
pub proof fn lemma_walk_covered(
    directory: Seq<char>,
    entries: Seq<EntryView>,
    index: Map<Seq<char>, VcsObjectId>,
)
    requires
        forall|k: int|
            0 <= k < spec_walk(directory, entries, true).len() && !(#[trigger] spec_walk(
                directory,
                entries,
                true,
            )[k]).is_dir ==> index.contains_key(spec_walk(directory, entries, true)[k].path),
    ensures
        spec_covered(directory, entries, index),
    decreases entries, 1nat,
{
    if entries.len() > 0 {
        let head = spec_walk(directory, entries.drop_last(), true);
        let tail = spec_walk_entry(directory, entries.last(), true);
        let walk = spec_walk(directory, entries, true);
        assert(walk == head + tail);
        assert forall|k: int| 0 <= k < head.len() && !(#[trigger] head[k]).is_dir implies
            index.contains_key(head[k].path) by {
            assert(walk[k] == head[k]);
        }
        lemma_walk_covered(directory, entries.drop_last(), index);
        assert forall|k: int| 0 <= k < tail.len() && !(#[trigger] tail[k]).is_dir implies
            index.contains_key(tail[k].path) by {
            assert(walk[head.len() + k] == tail[k]);
        }
        lemma_walk_entry_covered(directory, entries.last(), index);
    }
}

/// An index that has an entry for every file of the recursive walk of an
/// entry covers the entry.
pub proof fn lemma_walk_entry_covered(
    directory: Seq<char>,
    entry: EntryView,
    index: Map<Seq<char>, VcsObjectId>,
)
    requires
        forall|k: int|
            0 <= k < spec_walk_entry(directory, entry, true).len() && !(#[trigger] spec_walk_entry(
                directory,
                entry,
                true,
            )[k]).is_dir ==> index.contains_key(spec_walk_entry(directory, entry, true)[k].path),
    ensures
        spec_entry_covered(directory, entry, index),
    decreases entry, 0nat,
{
    let path = path_join(directory, entry.name());
    let walk = spec_walk_entry(directory, entry, true);
    match entry {
        EntryView::File { .. } => {
            assert(!walk[0].is_dir);
        },
        EntryView::Dir { children, .. } => {
            if !entry.is_vcs_directory() {
                let below = spec_walk(path, children, true);
                assert forall|k: int| 0 <= k < below.len() && !(#[trigger] below[k]).is_dir implies
                    index.contains_key(below[k].path) by {
                    assert(walk[k + 1] == below[k]);
                }
                lemma_walk_covered(path, children, index);
            }
        },
    }
}

/// The nodes of the tree of a directory: one for each file, with the id
/// that the index has for it, and one for each directory that has entries
/// and is no control directory, with the id of its own tree; in the order
/// of the entries.
pub open spec fn spec_tree_nodes(
    directory: Seq<char>,
    entries: Seq<EntryView>,
    index: Map<Seq<char>, VcsObjectId>,
) -> Seq<NodeView>
    decreases entries, 1nat,
{
    if entries.len() == 0 {
        Seq::empty()
    } else {
        spec_tree_nodes(directory, entries.drop_last(), index) + spec_entry_nodes(
            directory,
            entries.last(),
            index,
        )
    }
}

/// The node that stands for an entry, if one does.
pub open spec fn spec_entry_nodes(
    directory: Seq<char>,
    entry: EntryView,
    index: Map<Seq<char>, VcsObjectId>,
) -> Seq<NodeView>
    decreases entry, 0nat,
{
    let path = path_join(directory, entry.name());
    match entry {
        EntryView::File { .. } => seq![NodeView { is_blob: true, id: index[path], path }],
        EntryView::Dir { children, .. } => if entry.is_vcs_directory() || children.len() == 0 {
            Seq::empty()
        } else {
            seq![
                NodeView {
                    is_blob: false,
                    id: object_id(spec_tree_content(path, children, index)),
                    path,
                },
            ]
        },
    }
}

/// No empty directory is in a tree: every tree node of a directory's tree
/// stands for a directory that has entries, and holds the id of that
/// directory's own tree.
pub proof fn lemma_tree_without_empty_directories(
    directory: Seq<char>,
    entries: Seq<EntryView>,
    index: Map<Seq<char>, VcsObjectId>,
)
    ensures
        forall|k: int|
            0 <= k < spec_tree_nodes(directory, entries, index).len() && !(
            #[trigger] spec_tree_nodes(directory, entries, index)[k]).is_blob ==> exists|i: int|
                0 <= i < entries.len() && stands_for(
                    directory,
                    #[trigger] entries[i],
                    index,
                    spec_tree_nodes(directory, entries, index)[k],
                ),
    decreases entries.len(),
{
    if entries.len() > 0 {
        let head = spec_tree_nodes(directory, entries.drop_last(), index);
        let tail = spec_entry_nodes(directory, entries.last(), index);
        let nodes = spec_tree_nodes(directory, entries, index);
        lemma_tree_without_empty_directories(directory, entries.drop_last(), index);
        assert forall|k: int| 0 <= k < nodes.len() && !(#[trigger] nodes[k]).is_blob implies exists|
            i: int, | 0 <= i < entries.len() && stands_for(directory, #[trigger] entries[i], index,
            nodes[k]) by {
            if k < head.len() {
                assert(nodes[k] == head[k]);
                let i = choose|i: int|
                    0 <= i < entries.drop_last().len() && stands_for(
                        directory,
                        #[trigger] entries.drop_last()[i],
                        index,
                        head[k],
                    );
                assert(entries[i] == entries.drop_last()[i]);
            } else {
                assert(nodes[k] == tail[k - head.len()]);
                assert(stands_for(directory, entries[entries.len() - 1], index, nodes[k]));
            }
        }
    }
}

/// Whether a tree node stands for a directory that has entries.
pub open spec fn stands_for(
    directory: Seq<char>,
    entry: EntryView,
    index: Map<Seq<char>, VcsObjectId>,
    node: NodeView,
) -> bool {
    &&& entry is Dir
    &&& entry->children.len() > 0
    &&& node.path == path_join(directory, entry.name())
    &&& node.id == object_id(
        spec_tree_content(path_join(directory, entry.name()), entry->children, index),
    )
}

/// The canonical bytes of the tree of a directory.
pub open spec fn spec_tree_content(
    directory: Seq<char>,
    entries: Seq<EntryView>,
    index: Map<Seq<char>, VcsObjectId>,
) -> Seq<u8>
    decreases entries, 2nat,
{
    object_content(ObjectView::Tree(spec_tree_nodes(directory, entries, index)))
}

/// The canonical bytes of the trees that `build_tree` writes for a
/// directory, in the order in which it writes them: the trees of the
/// directories below it first, its own tree last.
pub open spec fn spec_tree_writes(
    directory: Seq<char>,
    entries: Seq<EntryView>,
    index: Map<Seq<char>, VcsObjectId>,
) -> Seq<Seq<u8>>
    decreases entries, 2nat,
{
    spec_writes_below(directory, entries, index).push(spec_tree_content(directory, entries, index))
}

/// The trees written for the directories among the entries.
pub open spec fn spec_writes_below(
    directory: Seq<char>,
    entries: Seq<EntryView>,
    index: Map<Seq<char>, VcsObjectId>,
) -> Seq<Seq<u8>>
    decreases entries, 1nat,
{
    if entries.len() == 0 {
        Seq::empty()
    } else {
        spec_writes_below(directory, entries.drop_last(), index) + spec_entry_writes(
            directory,
            entries.last(),
            index,
        )
    }
}

/// The trees written for one entry.
pub open spec fn spec_entry_writes(
    directory: Seq<char>,
    entry: EntryView,
    index: Map<Seq<char>, VcsObjectId>,
) -> Seq<Seq<u8>>
    decreases entry, 0nat,
{
    match entry {
        EntryView::File { .. } => Seq::empty(),
        EntryView::Dir { children, .. } => if entry.is_vcs_directory() || children.len() == 0 {
            Seq::empty()
        } else {
            spec_tree_writes(path_join(directory, entry.name()), children, index)
        },
    }
}

/// Creates a tree and writes it to the objects database using data contained in
/// the index.
pub fn build_tree(
    objects: &mut ObjectStore,
    directory: &str,
    entries: &Vec<WorkEntry>,
    index: &Index,
) -> (tree_id: VcsObjectId)
    requires
        spec_covered(directory@, entries_view(entries@), index.map()),
    ensures
        tree_id == object_id(spec_tree_content(directory@, entries_view(entries@), index.map())),
        final(objects)@ == spec_put_all(
            old(objects)@,
            spec_tree_writes(directory@, entries_view(entries@), index.map()),
        ),
        final(objects)@.contains_key(tree_id),
        store_grown(old(objects)@, final(objects)@),
        store_closed(old(objects)@) && ids_inside(index.map(), old(objects)@) ==> store_closed(
            final(objects)@,
        ),
    decreases entries,
{
    let ghost all = entries_view(entries@);
    let ghost start = objects@;
    let ghost sound = store_closed(start) && ids_inside(index.map(), start);
    let mut tree = Tree::new();
    let mut i: usize = 0;
    assert(all.take(0) =~= Seq::<EntryView>::empty());
    while i < entries.len()
        invariant
            i <= entries.len(),
            all == entries_view(entries@),
            spec_covered(directory@, all, index.map()),
            sound == (store_closed(start) && ids_inside(index.map(), start)),
            store_grown(start, objects@),
            sound ==> store_closed(objects@) && nodes_inside(tree@, objects@),
            tree@ == spec_tree_nodes(directory@, all.take(i as int), index.map()),
            objects@ == spec_put_all(
                start,
                spec_writes_below(directory@, all.take(i as int), index.map()),
            ),
        decreases entries.len() - i,
    {
        let entry = &entries[i];
        let ghost before = tree@;
        let ghost written = spec_writes_below(directory@, all.take(i as int), index.map());
        proof {
            assert(all.take(i + 1).drop_last() =~= all.take(i as int));
            assert(all.take(i + 1).last() == entry@);
            lemma_covered_at(directory@, all, i as int, index.map());
        }
        let path = join_path(directory, entry.name().as_str());
        let ghost stored = objects@;
        match entry {
            WorkEntry::File { .. } => {
                let id = *index.get_id(path.as_str());
                tree.add_node(TreeNode::new(id, path, true));
                proof {
                    if sound {
                        assert(start.contains_key(id));
                        assert(objects@.contains_key(id));
                    }
                    assert(tree@ =~= before + spec_entry_nodes(directory@, entry@, index.map()));
                    assert(written + spec_entry_writes(directory@, entry@, index.map())
                        =~= written);
                }
            },
            WorkEntry::Dir { children, .. } => {
                if is_vcs_directory(entry) || children.len() == 0 {
                    proof {
                        assert(tree@ =~= before + spec_entry_nodes(
                            directory@,
                            entry@,
                            index.map(),
                        ));
                        assert(written + spec_entry_writes(directory@, entry@, index.map())
                            =~= written);
                    }
                } else {
                    proof {
                        if sound {
                            assert forall|key: Seq<char>| #[trigger]
                                index.map().contains_key(key) implies stored.contains_key(
                                index.map()[key],
                            ) by {
                                assert(start.contains_key(index.map()[key]));
                            }
                        }
                    }
                    let id = build_tree(objects, path.as_str(), children, index);
                    tree.add_node(TreeNode::new(id, path, false));
                    proof {
                        if sound {
                            assert forall|k: int| 0 <= k < tree@.len() implies
                                objects@.contains_key((#[trigger] tree@[k]).id) by {
                                if k < before.len() {
                                    assert(tree@[k] == before[k]);
                                    assert(stored.contains_key(before[k].id));
                                }
                            }
                        }
                        assert forall|id: VcsObjectId| start.contains_key(id) implies #[trigger]
                            objects@.contains_key(id) by {
                            assert(stored.contains_key(id));
                        }
                        assert(tree@ =~= before + spec_entry_nodes(
                            directory@,
                            entry@,
                            index.map(),
                        ));
                        lemma_put_all_append(
                            start,
                            written,
                            spec_entry_writes(directory@, entry@, index.map()),
                        );
                    }
                }
            },
        }
        i += 1;
    }
    assert(all.take(i as int) =~= all);
    let object = VcsObjects::Tree(tree);
    let content = object.get_content();
    proof {
        let below = spec_writes_below(directory@, all, index.map());
        assert(below.push(content@).drop_last() =~= below);
        let stored = objects@;
        let after = stored.insert(object_id(content@), content@);
        if sound {
            assert forall|k: int| 0 <= k < object@->Tree_0.len() implies after.contains_key(
                (#[trigger] object@->Tree_0[k]).id,
            ) by {
                assert(stored.contains_key(object@->Tree_0[k].id));
            }
            lemma_put_keeps_closed(stored, object_id(content@), content@);
        }
        assert forall|id: VcsObjectId| start.contains_key(id) implies #[trigger] after.contains_key(
            id,
        ) by {
            assert(stored.contains_key(id));
        }
    }
    objects.put(content)
}

/// What covers a directory covers each of its entries.
pub proof fn lemma_covered_at(
    directory: Seq<char>,
    entries: Seq<EntryView>,
    i: int,
    index: Map<Seq<char>, VcsObjectId>,
)
    requires
        spec_covered(directory, entries, index),
        0 <= i < entries.len(),
    ensures
        spec_entry_covered(directory, entries[i], index),
    decreases entries.len(),
{
    if i < entries.len() - 1 {
        lemma_covered_at(directory, entries.drop_last(), i, index);
    }
}

/// Writes the Commit object to the objects database.
pub fn record_commit(objects: &mut ObjectStore, commit: &Commit) -> (commit_id: VcsObjectId)
    ensures
        commit_id == object_id(object_content(ObjectView::Commit(commit@))),
        final(objects)@ == old(objects)@.insert(
            commit_id,
            object_content(ObjectView::Commit(commit@)),
        ),
        read_object(object_content(ObjectView::Commit(commit@))) == Some(
            ObjectView::Commit(commit@),
        ),
        final(objects)@.contains_key(commit_id),
        store_grown(old(objects)@, final(objects)@),
        store_closed(old(objects)@) && refers_inside(ObjectView::Commit(commit@), old(objects)@)
            ==> store_closed(final(objects)@),
{
    let object = VcsObjects::Commit(commit.clone());
    let content = object.get_content();
    proof {
        if store_closed(objects@) && refers_inside(object@, objects@) {
            lemma_put_keeps_closed(objects@, object_id(content@), content@);
        }
    }
    objects.put(content)
}

// ------------------------------------------------------ load_from_tree

/// How loading a tree into the working tree ended: the failure that
/// stopped it, if any, and the index and the working tree's entries as it
/// left them.
pub struct LoadOutcome {
    pub failure: Option<ErrorView>,
    pub index: Map<Seq<char>, VcsObjectId>,
    pub entries: Seq<EntryView>,
}

/// Loads the nodes one after the other, starting from the given index and
/// entries. A blob's data is written at the node's path and the index gets
/// the node's id for that path. The nodes of a tree node's tree are loaded
/// where the node stands. The first failure ends the load and leaves what
/// was done before it. `depth` bounds how far below the tree the load may
/// go.
pub open spec fn spec_load_nodes(
    objects: Objects,
    root: Seq<char>,
    nodes: Seq<NodeView>,
    depth: nat,
    index: Map<Seq<char>, VcsObjectId>,
    entries: Seq<EntryView>,
) -> LoadOutcome
    decreases depth, nodes.len(),
{
    if nodes.len() == 0 {
        LoadOutcome { failure: None, index, entries }
    } else {
        let done = spec_load_nodes(objects, root, nodes.drop_last(), depth, index, entries);
        let node = nodes.last();
        if done.failure is Some {
            done
        } else if node.is_blob {
            match spec_load_blob(objects, node.id) {
                Err(error) => LoadOutcome { failure: Some(error), ..done },
                Ok(blob) => match spec_write_file(
                    WorkTreeView { root, entries: done.entries },
                    node.path,
                    blob.data,
                ) {
                    None => LoadOutcome { failure: Some(ErrorView::Io), ..done },
                    Some(entries) => LoadOutcome {
                        failure: None,
                        index: done.index.insert(node.path, node.id),
                        entries,
                    },
                },
            }
        } else if depth == 0 {
            LoadOutcome { failure: Some(ErrorView::Serialization), ..done }
        } else {
            match spec_load_tree(objects, node.id) {
                Err(error) => LoadOutcome { failure: Some(error), ..done },
                Ok(subtree) => spec_load_nodes(
                    objects,
                    root,
                    subtree,
                    (depth - 1) as nat,
                    done.index,
                    done.entries,
                ),
            }
        }
    }
}

/// Loading a tree: the index is emptied, then the nodes are loaded.
pub open spec fn spec_load_from_tree(
    objects: Objects,
    root: Seq<char>,
    nodes: Seq<NodeView>,
    depth: nat,
    entries: Seq<EntryView>,
) -> LoadOutcome {
    spec_load_nodes(objects, root, nodes, depth, Map::empty(), entries)
}

/// A load that fails on a prefix of the nodes ends in the same way on all
/// of them.
pub proof fn lemma_load_fails(
    objects: Objects,
    root: Seq<char>,
    nodes: Seq<NodeView>,
    n: int,
    depth: nat,
    index: Map<Seq<char>, VcsObjectId>,
    entries: Seq<EntryView>,
)
    requires
        0 <= n <= nodes.len(),
        spec_load_nodes(objects, root, nodes.take(n), depth, index, entries).failure is Some,
    ensures
        spec_load_nodes(objects, root, nodes, depth, index, entries) == spec_load_nodes(
            objects,
            root,
            nodes.take(n),
            depth,
            index,
            entries,
        ),
    decreases nodes.len() - n,
{
    if n < nodes.len() {
        assert(nodes.take(n + 1).drop_last() =~= nodes.take(n));
        lemma_load_fails(objects, root, nodes, n + 1, depth, index, entries);
    } else {
        assert(nodes.take(n) =~= nodes);
    }
}

/// Whether a result is the failure of an outcome, or a success where the
/// outcome has none.
pub open spec fn ended_as(done: VcsResult<()>, failure: Option<ErrorView>) -> bool {
    match done {
        Ok(_) => failure is None,
        Err(error) => failure == Some(error@),
    }
}

/// Loads the nodes of a tree into the working tree and the index as they
/// are, going no deeper below the tree than `depth`.
pub fn load_nodes(
    objects: &ObjectStore,
    tree: &Tree,
    index: &mut Index,
    work: &mut WorkTree,
    depth: usize,
) -> (done: VcsResult<()>)
    ensures
        final(work)@.root == old(work)@.root,
        ({
            let outcome = spec_load_nodes(
                objects@,
                old(work)@.root,
                tree@,
                depth as nat,
                old(index).map(),
                old(work)@.entries,
            );
            &&& ended_as(done, outcome.failure)
            &&& final(index).map() == outcome.index
            &&& final(work)@.entries == outcome.entries
        }),
        store_closed(objects@) && nodes_inside(tree@, objects@) && ids_inside(
            old(index).map(),
            objects@,
        ) ==> ids_inside(final(index).map(), objects@),
    decreases depth,
{
    let ghost root = work@.root;
    let ghost start = work@.entries;
    let ghost first = index.map();
    let ghost sound = store_closed(objects@) && nodes_inside(tree@, objects@) && ids_inside(
        first,
        objects@,
    );
    let count = tree.len();
    let mut i: usize = 0;
    assert(tree@.take(0) =~= Seq::<NodeView>::empty());
    while i < count
        invariant
            i <= count,
            count == tree@.len(),
            work@.root == root,
            root == old(work)@.root,
            start == old(work)@.entries,
            first == old(index).map(),
            sound == (store_closed(objects@) && nodes_inside(tree@, objects@) && ids_inside(
                first,
                objects@,
            )),
            sound ==> ids_inside(index.map(), objects@),
            spec_load_nodes(objects@, root, tree@.take(i as int), depth as nat, first, start) == (
            LoadOutcome { failure: None, index: index.map(), entries: work@.entries }),
        decreases count - i,
    {
        let child = tree.node(i);
        proof {
            assert(tree@.take(i + 1).drop_last() =~= tree@.take(i as int));
            assert(tree@.take(i + 1).last() == child@);
        }
        let ghost here = work@;
        assert(here == (WorkTreeView { root, entries: work@.entries }));
        if child.is_blob() {
            let blob = match load_blob(objects, &child.id) {
                Ok(blob) => blob,
                Err(error) => {
                    proof {
                        lemma_load_fails(objects@, root, tree@, i + 1, depth as nat, first, start);
                    }
                    return Err(error);
                },
            };
            match write_file(work, child.path.as_str(), &blob.data) {
                Ok(_) => {},
                Err(error) => {
                    proof {
                        lemma_load_fails(objects@, root, tree@, i + 1, depth as nat, first, start);
                    }
                    return Err(error);
                },
            }
            index.update(copy_text(child.path.as_str()), child.id);
            assert(sound ==> objects@.contains_key(tree@[i as int].id));
        } else {
            if depth == 0 {
                proof {
                    lemma_load_fails(objects@, root, tree@, i + 1, depth as nat, first, start);
                }
                return Err(VcsError::Serialization);
            }
            let subtree = match load_tree(objects, &child.id) {
                Ok(subtree) => subtree,
                Err(error) => {
                    proof {
                        lemma_load_fails(objects@, root, tree@, i + 1, depth as nat, first, start);
                    }
                    return Err(error);
                },
            };
            proof {
                if sound {
                    lemma_loaded_tree_inside(objects@, child.id);
                }
            }
            match load_nodes(objects, &subtree, index, work, depth - 1) {
                Ok(_) => {},
                Err(error) => {
                    proof {
                        lemma_load_fails(objects@, root, tree@, i + 1, depth as nat, first, start);
                    }
                    return Err(error);
                },
            }
        }
        i += 1;
    }
    assert(tree@.take(i as int) =~= tree@);
    Ok(())
}

/// Updates working tree so that it matches the tree provided: the index
/// is emptied, and then every blob of the tree and of the trees below it
/// is written at its path and entered in the index. The load goes no
/// deeper than there are objects in the store.
pub fn load_from_tree(
    objects: &ObjectStore,
    tree: &Tree,
    index: &mut Index,
    work: &mut WorkTree,
) -> (done: VcsResult<()>)
    ensures
        final(work)@.root == old(work)@.root,
        ({
            let outcome = spec_load_from_tree(
                objects@,
                old(work)@.root,
                tree@,
                objects@.dom().len(),
                old(work)@.entries,
            );
            &&& ended_as(done, outcome.failure)
            &&& final(index).map() == outcome.index
            &&& final(work)@.entries == outcome.entries
        }),
        store_closed(objects@) && nodes_inside(tree@, objects@) ==> ids_inside(
            final(index).map(),
            objects@,
        ),
{
    index.clear();
    proof {
        lemma_empty_sorted();
    }
    load_nodes(objects, tree, index, work, objects.len())
}

// ------------------------------------------------ remove_extra_entries

/// The entries of a directory once what the index does not know is
/// removed: a file stays where the index has an entry for its path, a
/// directory stays where something stays in it, and a control directory
/// stays as it is.
pub open spec fn spec_prune(
    directory: Seq<char>,
    entries: Seq<EntryView>,
    index: Map<Seq<char>, VcsObjectId>,
) -> Seq<EntryView>
    decreases entries, 1nat,
{
    if entries.len() == 0 {
        Seq::empty()
    } else {
        spec_prune(directory, entries.drop_last(), index) + spec_prune_entry(
            directory,
            entries.last(),
            index,
        )
    }
}

/// What is left of one entry: the entry itself, the directory with what
/// stays in it, or nothing.
pub open spec fn spec_prune_entry(
    directory: Seq<char>,
    entry: EntryView,
    index: Map<Seq<char>, VcsObjectId>,
) -> Seq<EntryView>
    decreases entry, 0nat,
{
    let path = path_join(directory, entry.name());
    match entry {
        EntryView::File { .. } => if index.contains_key(path) {
            seq![entry]
        } else {
            Seq::empty()
        },
        EntryView::Dir { name, children } => if entry.is_vcs_directory() {
            seq![entry]
        } else {
            let kept = spec_prune(path, children, index);
            if kept.len() == 0 {
                Seq::empty()
            } else {
                seq![EntryView::Dir { name, children: kept }]
            }
        },
    }
}

/// A copy of a directory's entries with all that is in them.
pub fn copy_entries(entries: &Vec<WorkEntry>) -> (copies: Vec<WorkEntry>)
    ensures
        entries_view(copies@) == entries_view(entries@),
    decreases entries,
{
    let mut copies: Vec<WorkEntry> = Vec::new();
    let mut i: usize = 0;
    while i < entries.len()
        invariant
            i <= entries.len(),
            copies@.len() == i,
            forall|k: int| 0 <= k < i ==> (#[trigger] copies@[k])@ == entries@[k]@,
        decreases entries.len() - i,
    {
        let copy = match &entries[i] {
            WorkEntry::File { name, data } => WorkEntry::File {
                name: copy_text(name.as_str()),
                data: data.clone(),
            },
            WorkEntry::Dir { name, children } => WorkEntry::Dir {
                name: copy_text(name.as_str()),
                children: copy_entries(children),
            },
        };
        copies.push(copy);
        i += 1;
    }
    assert(entries_view(copies@) =~= entries_view(entries@));
    copies
}

/// A copy of an entry with all that is in it.
pub fn copy_entry(entry: &WorkEntry) -> (copy: WorkEntry)
    ensures
        copy@ == entry@,
{
    match entry {
        WorkEntry::File { name, data } => WorkEntry::File {
            name: copy_text(name.as_str()),
            data: data.clone(),
        },
        WorkEntry::Dir { name, children } => WorkEntry::Dir {
            name: copy_text(name.as_str()),
            children: copy_entries(children),
        },
    }
}

/// The entries of a directory without what the index does not know.
pub fn prune_entries(
    directory: &str,
    entries: &Vec<WorkEntry>,
    index: &Index,
) -> (kept: Vec<WorkEntry>)
    ensures
        entries_view(kept@) == spec_prune(directory@, entries_view(entries@), index.map()),
    decreases entries,
{
    let ghost all = entries_view(entries@);
    let mut kept: Vec<WorkEntry> = Vec::new();
    let mut i: usize = 0;
    assert(all.take(0) =~= Seq::<EntryView>::empty());
    assert(entries_view(kept@) =~= Seq::<EntryView>::empty());
    while i < entries.len()
        invariant
            i <= entries.len(),
            all == entries_view(entries@),
            entries_view(kept@) == spec_prune(directory@, all.take(i as int), index.map()),
        decreases entries.len() - i,
    {
        let entry = &entries[i];
        let ghost before = entries_view(kept@);
        proof {
            assert(all.take(i + 1).drop_last() =~= all.take(i as int));
            assert(all.take(i + 1).last() == entry@);
        }
        match entry {
            WorkEntry::File { .. } => {
                let path = join_path(directory, entry.name().as_str());
                if index.contains(path.as_str()) {
                    kept.push(copy_entry(entry));
                    assert(entries_view(kept@) =~= before + seq![entry@]);
                    assert(spec_prune_entry(directory@, entry@, index.map()) == seq![entry@]);
                } else {
                    assert(entries_view(kept@) =~= before + Seq::<EntryView>::empty());
                    assert(spec_prune_entry(directory@, entry@, index.map())
                        == Seq::<EntryView>::empty());
                }
            },
            WorkEntry::Dir { name, children } => {
                if is_vcs_directory(entry) {
                    kept.push(copy_entry(entry));
                    assert(entries_view(kept@) =~= before + seq![entry@]);
                    assert(spec_prune_entry(directory@, entry@, index.map()) == seq![entry@]);
                } else {
                    let path = join_path(directory, name.as_str());
                    let inside = prune_entries(path.as_str(), children, index);
                    if inside.len() > 0 {
                        let ghost left = EntryView::Dir {
                            name: name@,
                            children: entries_view(inside@),
                        };
                        kept.push(WorkEntry::Dir { name: copy_text(name.as_str()),
                            children: inside });
                        assert(entries_view(kept@) =~= before + seq![left]);
                        assert(spec_prune_entry(directory@, entry@, index.map()) == seq![left]);
                    } else {
                        assert(entries_view(kept@) =~= before + Seq::<EntryView>::empty());
                        assert(spec_prune_entry(directory@, entry@, index.map())
                            == Seq::<EntryView>::empty());
                    }
                }
            },
        }
        i += 1;
    }
    assert(all.take(i as int) =~= all);
    kept
}

/// Removes entries that are not present in the index from the working tree.
pub fn remove_extra_entries(work: &mut WorkTree, index: &Index)
    ensures
        final(work)@ == (WorkTreeView {
            root: old(work)@.root,
            entries: spec_prune(old(work)@.root, old(work)@.entries, index.map()),
        }),
{
    let root = copy_text(work.root().as_str());
    let kept = prune_entries(root.as_str(), work.entries(), index);
    work.set_entries(kept);
}

// ---------------------------------------------------------------- paths

/// The name of the branch that a repository starts on.
pub const MASTER_BRANCH: &'static str = "master";

/// The path of the control directory of a repository.
pub open spec fn spec_vcs_root(repo: Seq<char>) -> Seq<char> {
    path_join(repo, VCS_ROOT@)
}

/// The path of the control directory of a repository.
pub fn get_vcs_root(repo: &str) -> (path: String)
    ensures
        path@ == spec_vcs_root(repo@),
{
    join_path(repo, VCS_ROOT)
}

fn get_vcs_entry(repo: &str, relative_path: &str) -> (path: String)
    ensures
        path@ == path_join(spec_vcs_root(repo@), relative_path@),
{
    join_path(get_vcs_root(repo).as_str(), relative_path)
}

/// The path of the file that holds the HEAD state.
pub fn get_vcs_state_path(repo: &str) -> (path: String)
    ensures
        path@ == path_join(spec_vcs_root(repo@), "STATE"@),
{
    get_vcs_entry(repo, "STATE")
}

/// The path of the file that holds the heads.
pub fn get_vcs_heads_path(repo: &str) -> (path: String)
    ensures
        path@ == path_join(spec_vcs_root(repo@), "refs/heads"@),
{
    get_vcs_entry(repo, "refs/heads")
}

/// The path of the file that holds the index.
pub fn get_vcs_index_path(repo: &str) -> (path: String)
    ensures
        path@ == path_join(spec_vcs_root(repo@), "index"@),
{
    get_vcs_entry(repo, "index")
}

/// The path of the file that holds an object: below `objects`, a
/// directory named by the first two digits of the id and in it a file
/// named by the other thirty-eight.
pub open spec fn spec_object_path(repo: Seq<char>, id: VcsObjectId) -> Seq<char> {
    path_join(
        path_join(path_join(spec_vcs_root(repo), "objects"@), hex_text(id@).subrange(0, 2)),
        hex_text(id@).subrange(2, 40),
    )
}

/// The path of the file that holds an object.
pub fn get_vsc_object_path(repo: &str, id: &VcsObjectId) -> (path: String)
    ensures
        path@ == spec_object_path(repo@, *id),
{
    let human_id = get_human_id(id);
    let objects = get_vcs_entry(repo, "objects");
    let fan_out = join_path(objects.as_str(), human_id.as_str().substring_char(0, 2));
    join_path(fan_out.as_str(), human_id.as_str().substring_char(2, 40))
}

/// HEAD as a new repository has it: on `master`, with no commit.
pub fn init_state() -> (state: VcsRepositoryState)
    ensures
        state@ == (StateView { current_commit: None, current_branch: MASTER_BRANCH@ }),
{
    VcsRepositoryState { current_commit: None, current_branch: String::from_str(MASTER_BRANCH) }
}

/// The index of a new repository: empty.
pub fn init_index() -> (index: Index)
    ensures
        index@ == Entries::empty(),
{
    Index::new()
}

/// The heads of a new repository: none.
pub fn init_heads() -> (heads: RefStorage)
    ensures
        heads@ == Entries::empty(),
{
    RefStorage::new()
}

} // verus!
