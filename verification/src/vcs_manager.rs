//! The repository engine: init, commit, status, branch, jump, merge and
//! log, on the control data of a repository and its working tree.

use array_tool::vec::Intersect;
use crate::errors::{ErrorView, VcsError, VcsResult};
use crate::file_manager::{
    entries_view, find_entry, spec_walk, walk_entries, walked_view, EntryView, Walked, WalkedView,
    WorkEntry, WorkTree, WorkTreeView, VCS_ROOT,
};
use crate::id_map::lemma_empty_sorted;
use crate::identity::{
    get_human_id, hex_bytes, hex_text, id_of, ids_equal, is_hex_id, lemma_id_of, object_id,
    VcsObjectId,
};
use crate::object_store::{spec_put_all, Objects, ObjectStore};
use crate::objects::{
    Commit, CommitView, Index, NodeView, ObjectView, RefStorage, StateView, Timestamp, Tree,
    VcsObjects, VcsRepositoryState,
};
use crate::objects_manager::{
    add_blob, build_tree, changes_outcome, compare_trees, get_branch_root, get_changed_files,
    get_file_status, get_tree_files, init_heads, init_index, init_state, lemma_changed_files,
    lemma_compare_reportable, lemma_merged_inside, lemma_walk_covered, lemma_walk_under,
    load_from_tree, merge_trees, record_commit, remove_extra_entries, spec_blob_id,
    spec_branch_root, spec_changed_files, spec_compare_trees, spec_file_status, spec_load_from_tree,
    spec_merge_trees, spec_prune, spec_stage, spec_tree_content, spec_tree_files, spec_tree_writes,
    ChangesOutcome, MASTER_BRANCH,
};
use crate::public_info::{
    all_under, changes_view, get_inner_id, into_pathspec, logs_view, spec_into_pathspec,
    state_info_of, CommitLog, CommitLogView, FileChanges, FileStatus, NewCommitInfo, NewCommitView,
    StateInfo, StateInfoView,
};
use crate::repository::{
    ids_inside, lemma_loaded_tree_inside, lemma_put_keeps_closed, load_commit, load_tree,
    nodes_inside, spec_load_commit, spec_load_tree, store_closed, store_grown, Repository,
};
use crate::text::{copy_text, is_absolute, is_path_under, path_under, text_eq};
use crate::traits::{object_content, VcsSerialize};
use vstd::prelude::*;
use vstd::string::*;

verus! {

/// The control data of a repository as plain values, the index and the
/// heads as mappings.
pub struct RepoModel {
    pub state: StateView,
    pub index: Map<Seq<char>, VcsObjectId>,
    pub heads: Map<Seq<char>, VcsObjectId>,
    pub objects: Objects,
}

impl Repository {
    /// The control data as plain values.
    pub open spec fn model(&self) -> RepoModel {
        RepoModel {
            state: self.state@,
            index: self.index.map(),
            heads: self.heads.map(),
            objects: self.objects@,
        }
    }
}

/// Whether the control data hang together: every id that they refer to is
/// the id of an object of the store. That is so of every id of the index
/// and of the heads, of the current commit, and of every id that an object
/// of the store refers to.
pub open spec fn consistent(repo: RepoModel) -> bool {
    &&& store_closed(repo.objects)
    &&& ids_inside(repo.index, repo.objects)
    &&& ids_inside(repo.heads, repo.objects)
    &&& repo.state.current_commit is Some ==> repo.objects.contains_key(
        repo.state.current_commit.unwrap(),
    )
}

/// The control data of a new repository hang together.
pub proof fn lemma_new_repository_consistent()
    ensures
        consistent(spec_new_repository()),
{
}

/// Mappings whose ids are in a store have them in a store that has grown
/// from it.
pub proof fn lemma_ids_inside_grown(
    map: Map<Seq<char>, VcsObjectId>,
    before: Objects,
    after: Objects,
)
    requires
        ids_inside(map, before),
        store_grown(before, after),
    ensures
        ids_inside(map, after),
{
    assert forall|key: Seq<char>| #[trigger] map.contains_key(key) implies after.contains_key(
        map[key],
    ) by {
        assert(before.contains_key(map[key]));
    }
}

/// The control data of a new repository: HEAD on `master` with no commit,
/// an empty index, no heads, no objects.
pub open spec fn spec_new_repository() -> RepoModel {
    RepoModel {
        state: StateView { current_commit: None, current_branch: MASTER_BRANCH@ },
        index: Map::empty(),
        heads: Map::empty(),
        objects: Map::empty(),
    }
}

/// The empty control directory.
pub open spec fn spec_control_directory() -> EntryView {
    EntryView::Dir { name: VCS_ROOT@, children: Seq::empty() }
}

/// Creates the control directory in the root of the working tree and gives
/// the control data of a new repository. Fails with `AlreadyVcsRepository`
/// where the root has a directory of that name, and with `Io` where it has
/// a file of that name; a failure changes nothing.
pub fn init_vcs_directory(work: &mut WorkTree) -> (made: VcsResult<Repository>)
    ensures
        final(work)@.root == old(work)@.root,
        made is Ok ==> consistent(made.unwrap().model()),
        match find_entry(old(work)@.entries, VCS_ROOT@) {
            None => made is Ok && made.unwrap().model() == spec_new_repository()
                && final(work)@.entries == old(work)@.entries.push(spec_control_directory()),
            Some(i) => made is Err && final(work)@ == old(work)@ && made.unwrap_err()@ == (
            if old(work)@.entries[i] is Dir {
                ErrorView::AlreadyVcsRepository
            } else {
                ErrorView::Io
            }),
        },
{
    let entries = work.entries();
    let ghost all = entries_view(entries@);
    let mut i: usize = 0;
    assert(all.take(0) =~= Seq::<EntryView>::empty());
    while i < entries.len()
        invariant
            i <= entries.len(),
            all == entries_view(entries@),
            all == old(work)@.entries,
            work@ == old(work)@,
            find_entry(all.take(i as int), VCS_ROOT@) is None,
        decreases entries.len() - i,
    {
        proof {
            assert(all.take(i + 1).drop_last() =~= all.take(i as int));
            assert(all.take(i + 1).last() == entries@[i as int]@);
        }
        if text_eq(entries[i].name().as_str(), VCS_ROOT) {
            proof {
                crate::file_manager::lemma_find_entry_prefix(all, i + 1, VCS_ROOT@);
            }
            if entries[i].is_dir() {
                return Err(VcsError::AlreadyVcsRepository);
            } else {
                return Err(VcsError::Io);
            }
        }
        i += 1;
    }
    assert(all.take(i as int) =~= all);
    let children: Vec<WorkEntry> = Vec::new();
    assert(entries_view(children@) =~= Seq::<EntryView>::empty());
    work.add_entry(WorkEntry::Dir { name: String::from_str(VCS_ROOT), children });
    let repo = Repository {
        state: init_state(),
        index: init_index(),
        heads: init_heads(),
        objects: ObjectStore::new(),
    };
    proof {
        lemma_empty_sorted();
    }
    Ok(repo)
}

/// The first of the probed directories that holds a control directory.
pub open spec fn spec_find_repository(probes: Seq<(Seq<char>, bool)>) -> Option<Seq<char>>
    decreases probes.len(),
{
    if probes.len() == 0 {
        None
    } else if probes.first().1 {
        Some(probes.first().0)
    } else {
        spec_find_repository(probes.drop_first())
    }
}

/// Finds a repository root among a directory and its ancestors, given
/// from the directory upwards, each with whether it holds a control
/// directory.
pub fn find_repository(probes: &Vec<(String, bool)>) -> (root: VcsResult<String>)
    ensures
        match root {
            Ok(root) => spec_find_repository(
                probes@.map_values(|probe: (String, bool)| (probe.0@, probe.1)),
            ) == Some(root@),
            Err(error) => error@ == ErrorView::NotVcsRepository && spec_find_repository(
                probes@.map_values(|probe: (String, bool)| (probe.0@, probe.1)),
            ) is None,
        },
{
    let ghost all = probes@.map_values(|probe: (String, bool)| (probe.0@, probe.1));
    let mut i: usize = 0;
    assert(all.skip(0) =~= all);
    while i < probes.len()
        invariant
            i <= probes.len(),
            all == probes@.map_values(|probe: (String, bool)| (probe.0@, probe.1)),
            spec_find_repository(all) == spec_find_repository(all.skip(i as int)),
        decreases probes.len() - i,
    {
        assert(all.skip(i as int).first() == all[i as int]);
        assert(all.skip(i as int).drop_first() =~= all.skip(i + 1));
        if probes[i].1 {
            return Ok(copy_text(probes[i].0.as_str()));
        }
        i += 1;
    }
    Err(VcsError::NotVcsRepository)
}

/// The changes of the working tree in relation to the index, with paths
/// as the walk gives them.
pub open spec fn spec_work_changes(
    repo: RepoModel,
    work: WorkTreeView,
) -> Seq<(FileStatus, Seq<char>)> {
    spec_changed_files(work.root, spec_walk(work.root, work.entries, true), repo.index)
}

/// The changes of the working tree in relation to the index, with paths
/// relative to the repository root.
pub open spec fn spec_get_changes(
    repo: RepoModel,
    work: WorkTreeView,
) -> Seq<(FileStatus, Seq<char>)> {
    spec_into_pathspec(work.root, spec_work_changes(repo, work))
}

/// The changes of the working tree are real changes of paths below its
/// root.
pub proof fn lemma_work_changes(repo: RepoModel, work: WorkTreeView)
    ensures
        all_under(work.root, spec_work_changes(repo, work)),
        crate::report_printer::reportable(spec_work_changes(repo, work)),
        crate::report_printer::reportable(spec_get_changes(repo, work)),
{
    lemma_walk_under(work.root, work.entries, true);
    lemma_changed_files(work.root, spec_walk(work.root, work.entries, true), repo.index);
    crate::report_printer::lemma_pathspec_reportable(work.root, spec_work_changes(repo, work));
}

/// Get all the files that have been changed since the current commit. The
/// paths are returned as relative to the repository root.
pub fn get_changes(repo: &Repository, work: &WorkTree) -> (changes: VcsResult<FileChanges>)
    ensures
        changes is Ok,
        changes_view(changes.unwrap()@) == spec_get_changes(repo.model(), work@),
{
    let changes = get_changed_files(work, &repo.index);
    proof {
        lemma_work_changes(repo.model(), work@);
    }
    Ok(into_pathspec(work.root().as_str(), changes))
}

/// Get information about the repository STATE
pub fn get_state(repo: &Repository) -> (info: VcsResult<StateInfo>)
    ensures
        info is Ok,
        info.unwrap()@ == state_info_of(repo@.state),
{
    Ok(StateInfo::from(&repo.state))
}

// --------------------------------------------------------------- commit

/// How an operation on the control data ended: what it returned, and the
/// control data as it left them.
pub struct Outcome<T> {
    pub result: Result<T, ErrorView>,
    pub repo: RepoModel,
}

/// What `make_commit` does at a given time.
///
/// With a current commit, the commit has to be the head of the current
/// branch (`CommitFromNonHead`) and the working tree has to have changes
/// (`NoChanges`); without one, neither is asked. Then the blob of every
/// changed file is added, the tree of the root is built, the commit is
/// recorded, and HEAD and the head of the current branch are moved to it.
pub open spec fn spec_make_commit(
    repo: RepoModel,
    work: WorkTreeView,
    message: Seq<char>,
    time: Timestamp,
) -> Outcome<NewCommitView> {
    let walk = spec_walk(work.root, work.entries, true);
    let changes = spec_changed_files(work.root, walk, repo.index);
    let branch = repo.state.current_branch;
    if repo.state.current_commit is Some && !(repo.heads.contains_key(branch) && repo.heads[branch]
        == repo.state.current_commit.unwrap()) {
        Outcome { result: Err(ErrorView::CommitFromNonHead), repo }
    } else if repo.state.current_commit is Some && changes.len() == 0 {
        Outcome { result: Err(ErrorView::NoChanges), repo }
    } else {
        let staged = spec_stage(repo.objects, repo.index, repo.index, work.root, walk);
        let with_trees = spec_put_all(
            staged.0,
            spec_tree_writes(work.root, work.entries, staged.1),
        );
        let commit = CommitView {
            tree: object_id(spec_tree_content(work.root, work.entries, staged.1)),
            parent: repo.state.current_commit,
            branch,
            time,
            message,
        };
        let content = object_content(ObjectView::Commit(commit));
        let id = object_id(content);
        Outcome {
            result: Ok(
                NewCommitView {
                    human_id: hex_text(id@),
                    branch,
                    changes: spec_into_pathspec(work.root, changes),
                    message,
                },
            ),
            repo: RepoModel {
                state: StateView { current_commit: Some(id), current_branch: branch },
                index: staged.1,
                heads: repo.heads.insert(branch, id),
                objects: with_trees.insert(id, content),
            },
        }
    }
}

/// Whether a result of the engine is the result of an outcome.
pub open spec fn commit_result(
    result: VcsResult<NewCommitInfo>,
) -> Result<NewCommitView, ErrorView> {
    match result {
        Ok(info) => Ok(info@),
        Err(error) => Err(error@),
    }
}

/// The first commit of a repository succeeds, whatever the working tree
/// holds, and be it nothing.
pub proof fn lemma_first_commit_succeeds(
    repo: RepoModel,
    work: WorkTreeView,
    message: Seq<char>,
    time: Timestamp,
)
    requires
        repo.state.current_commit is None,
    ensures
        spec_make_commit(repo, work, message, time).result is Ok,
{
}

/// Whether no two files of a walk have the same path.
pub open spec fn files_distinct(walk: Seq<WalkedView>) -> bool {
    forall|i: int, j: int|
        0 <= i < j < walk.len() && !(#[trigger] walk[i]).is_dir && !(#[trigger] walk[j]).is_dir
            ==> walk[i].path != walk[j].path
}

/// Whether a file of the walk has the path.
pub open spec fn walk_has_file(walk: Seq<WalkedView>, path: Seq<char>) -> bool {
    exists|k: int| 0 <= k < walk.len() && !(#[trigger] walk[k]).is_dir && walk[k].path == path
}

/// After the changes of a walk are staged, the index has the id of its
/// blob for every file of the walk, and what it had before for every
/// other path.
pub proof fn lemma_staged_index(
    objects: Objects,
    base: Map<Seq<char>, VcsObjectId>,
    root: Seq<char>,
    walk: Seq<WalkedView>,
)
    requires
        files_distinct(walk),
    ensures
        forall|k: int|
            0 <= k < walk.len() && !(#[trigger] walk[k]).is_dir ==> {
                let index = spec_stage(objects, base, base, root, walk).1;
                index.contains_key(walk[k].path) && index[walk[k].path] == spec_blob_id(
                    root,
                    walk[k].path,
                    walk[k].data,
                )
            },
        forall|path: Seq<char>|
            !(#[trigger] walk_has_file(walk, path)) ==> {
                let index = spec_stage(objects, base, base, root, walk).1;
                index.contains_key(path) == base.contains_key(path) && index[path] == base[path]
            },
    decreases walk.len(),
{
    if walk.len() > 0 {
        let front = walk.drop_last();
        let entry = walk.last();
        assert(files_distinct(front)) by {
            assert forall|i: int, j: int|
                0 <= i < j < front.len() && !(#[trigger] front[i]).is_dir && !(
                #[trigger] front[j]).is_dir implies front[i].path != front[j].path by {
                assert(walk[i] == front[i] && walk[j] == front[j]);
            }
        }
        lemma_staged_index(objects, base, root, front);
        let before = spec_stage(objects, base, base, root, front).1;
        let index = spec_stage(objects, base, base, root, walk).1;
        assert forall|k: int| 0 <= k < walk.len() && !(#[trigger] walk[k]).is_dir implies
            index.contains_key(walk[k].path) && index[walk[k].path] == spec_blob_id(root,
            walk[k].path, walk[k].data) by {
            if k < front.len() {
                assert(walk[k] == front[k]);
                if !entry.is_dir {
                    assert(walk[k].path != walk[walk.len() - 1].path);
                }
            } else {
                if walk_has_file(front, entry.path) {
                    let i = choose|i: int|
                        0 <= i < front.len() && !(#[trigger] front[i]).is_dir && front[i].path
                            == entry.path;
                    assert(walk[i] == front[i]);
                    assert(walk[i].path != walk[walk.len() - 1].path);
                }
            }
        }
        assert forall|path: Seq<char>| !(#[trigger] walk_has_file(walk, path)) implies
            index.contains_key(path) == base.contains_key(path) && index[path] == base[path] by {
            if walk_has_file(front, path) {
                let k = choose|k: int|
                    0 <= k < front.len() && !(#[trigger] front[k]).is_dir && front[k].path == path;
                assert(walk[k] == front[k]);
            }
            if !entry.is_dir {
                assert(walk[walk.len() - 1].path != path);
            }
        }
    }
}

/// A file whose blob the index has is unchanged, so a walk all of whose
/// files the index has in this way shows no change.
pub proof fn lemma_no_changes(
    root: Seq<char>,
    walk: Seq<WalkedView>,
    index: Map<Seq<char>, VcsObjectId>,
)
    requires
        forall|k: int|
            0 <= k < walk.len() && !(#[trigger] walk[k]).is_dir ==> index.contains_key(walk[k].path)
                && index[walk[k].path] == spec_blob_id(root, walk[k].path, walk[k].data),
    ensures
        spec_changed_files(root, walk, index).len() == 0,
    decreases walk.len(),
{
    if walk.len() > 0 {
        assert forall|k: int| 0 <= k < walk.drop_last().len() && !(#[trigger]
            walk.drop_last()[k]).is_dir implies index.contains_key(walk.drop_last()[k].path) &&
            index[walk.drop_last()[k].path] == spec_blob_id(root, walk.drop_last()[k].path,
            walk.drop_last()[k].data) by {
            assert(walk[k] == walk.drop_last()[k]);
        }
        lemma_no_changes(root, walk.drop_last(), index);
        assert(walk[walk.len() - 1] == walk.last());
    }
}

/// A commit that follows a commit, with nothing changed in the working
/// tree in between, fails with `NoChanges` and leaves the repository as it
/// is. The working tree is one in which no two files have the same path.
pub proof fn lemma_next_commit_has_no_changes(
    repo: RepoModel,
    work: WorkTreeView,
    message: Seq<char>,
    time: Timestamp,
    next_message: Seq<char>,
    next_time: Timestamp,
)
    requires
        spec_make_commit(repo, work, message, time).result is Ok,
        files_distinct(spec_walk(work.root, work.entries, true)),
    ensures
        spec_make_commit(
            spec_make_commit(repo, work, message, time).repo,
            work,
            next_message,
            next_time,
        ).result == Err::<NewCommitView, ErrorView>(ErrorView::NoChanges),
        spec_make_commit(
            spec_make_commit(repo, work, message, time).repo,
            work,
            next_message,
            next_time,
        ).repo == spec_make_commit(repo, work, message, time).repo,
{
    let walk = spec_walk(work.root, work.entries, true);
    let after = spec_make_commit(repo, work, message, time).repo;
    lemma_staged_index(repo.objects, repo.index, work.root, walk);
    lemma_no_changes(work.root, walk, after.index);
}

/// A new branch keeps the modifications of the working tree: the index is
/// what it was, so the changes of any working tree are what they were.
pub proof fn lemma_new_branch_keeps_changes(
    repo: RepoModel,
    work: WorkTreeView,
    branch_name: Seq<char>,
)
    ensures
        spec_create_branch(repo, branch_name).repo.index == repo.index,
        spec_create_branch(repo, branch_name).repo.objects == repo.objects,
        spec_get_changes(spec_create_branch(repo, branch_name).repo, work) == spec_get_changes(
            repo,
            work,
        ),
{
}

/// The entry that the history has for a commit: its changes are those
/// of its tree in relation to its parent's tree, or all the files of its
/// tree where it has no parent; after it comes the history of its parent.
pub proof fn lemma_log_entry(objects: Objects, root: Seq<char>, id: VcsObjectId, steps: nat)
    requires
        spec_commit_logs(objects, root, Some(id), steps) is Ok,
    ensures
        spec_load_commit(objects, id) is Ok,
        ({
            let logs = spec_commit_logs(objects, root, Some(id), steps)->Ok_0;
            let commit = spec_load_commit(objects, id)->Ok_0;
            let tree = spec_load_tree(objects, commit.tree)->Ok_0;
            let depth = objects.dom().len();
            &&& steps > 0
            &&& logs.len() > 0
            &&& logs[0].human_id == hex_text(id@)
            &&& logs[0].message == commit.message
            &&& logs[0].time == commit.time
            &&& match commit.parent {
                Some(parent) => {
                    let parent_commit = spec_load_commit(objects, parent)->Ok_0;
                    let parent_tree = spec_load_tree(objects, parent_commit.tree)->Ok_0;
                    logs[0].changes == spec_into_pathspec(
                        root,
                        spec_compare_trees(objects, parent_tree, tree, depth)->Ok_0,
                    )
                },
                None => logs[0].changes == spec_into_pathspec(
                    root,
                    spec_tree_files(objects, tree, depth)->Ok_0,
                ),
            }
            &&& spec_commit_logs(objects, root, commit.parent, (steps - 1) as nat) == Ok::<
                Seq<CommitLogView>,
                ErrorView,
            >(logs.drop_first())
        }),
{
    let commit = spec_load_commit(objects, id)->Ok_0;
    let later = spec_commit_logs(objects, root, commit.parent, (steps - 1) as nat);
    let logs = spec_commit_logs(objects, root, Some(id), steps)->Ok_0;
    assert(later is Ok);
    assert(logs.drop_first() =~= later->Ok_0);
}

/// Adds the blob of every file of the walk that is not `Unchanged` in
/// relation to the index as it is on entry.
fn stage_changes(objects: &mut ObjectStore, index: &mut Index, root: &str, walked: &Vec<Walked>)
    requires
        is_absolute(root@),
        forall|k: int|
            0 <= k < walked@.len() ==> path_under(root@, (#[trigger] walked@[k])@.path)
                && is_absolute(walked@[k]@.path),
    ensures
        (final(objects)@, final(index).map()) == spec_stage(
            old(objects)@,
            old(index).map(),
            old(index).map(),
            root@,
            walked_view(walked@),
        ),
        forall|k: int|
            0 <= k < walked@.len() && !(#[trigger] walked@[k])@.is_dir ==> final(index).map()
                .contains_key(walked@[k]@.path),
        store_grown(old(objects)@, final(objects)@),
        store_closed(old(objects)@) ==> store_closed(final(objects)@),
        ids_inside(old(index).map(), old(objects)@) ==> ids_inside(
            final(index).map(),
            final(objects)@,
        ),
{
    let ghost base = index.map();
    let ghost start = objects@;
    let ghost walk = walked_view(walked@);
    // The statuses are those in relation to the index on entry, so they
    // are all taken before the first blob is added.
    let mut statuses: Vec<FileStatus> = Vec::new();
    let mut i: usize = 0;
    while i < walked.len()
        invariant
            i <= walked.len(),
            statuses@.len() == i,
            is_absolute(root@),
            base == index.map(),
            forall|k: int|
                0 <= k < walked@.len() ==> path_under(root@, (#[trigger] walked@[k])@.path)
                    && is_absolute(walked@[k]@.path),
            forall|k: int|
                0 <= k < i && !(#[trigger] walked@[k])@.is_dir ==> statuses@[k] == spec_file_status(
                    root@,
                    walked@[k]@.path,
                    walked@[k]@.data,
                    base,
                ),
        decreases walked.len() - i,
    {
        let entry = &walked[i];
        if entry.is_dir {
            statuses.push(FileStatus::Unchanged);
        } else {
            statuses.push(get_file_status(root, entry.path.as_str(), &entry.data, index));
        }
        i += 1;
    }
    let mut i: usize = 0;
    assert(walk.take(0) =~= Seq::<WalkedView>::empty());
    while i < walked.len()
        invariant
            i <= walked.len(),
            statuses@.len() == walked@.len(),
            walk == walked_view(walked@),
            is_absolute(root@),
            forall|k: int|
                0 <= k < walked@.len() ==> path_under(root@, (#[trigger] walked@[k])@.path)
                    && is_absolute(walked@[k]@.path),
            forall|k: int|
                0 <= k < walked@.len() && !(#[trigger] walked@[k])@.is_dir ==> statuses@[k]
                    == spec_file_status(root@, walked@[k]@.path, walked@[k]@.data, base),
            (objects@, index.map()) == spec_stage(start, base, base, root@, walk.take(i as int)),
            store_grown(start, objects@),
            store_closed(start) ==> store_closed(objects@),
            ids_inside(base, start) ==> ids_inside(index.map(), objects@),
            forall|path: Seq<char>| base.contains_key(path) ==> index.map().contains_key(path),
            forall|k: int|
                0 <= k < i && !(#[trigger] walked@[k])@.is_dir ==> index.map().contains_key(
                    walked@[k]@.path,
                ),
        decreases walked.len() - i,
    {
        let entry = &walked[i];
        proof {
            assert(walk.take(i + 1).drop_last() =~= walk.take(i as int));
            assert(walk.take(i + 1).last() == entry@);
        }
        let ghost stored = objects@;
        if !entry.is_dir {
            match statuses[i] {
                FileStatus::Unchanged => {},
                _ => {
                    add_blob(objects, root, entry.path.as_str(), &entry.data, index);
                    assert forall|id: VcsObjectId| start.contains_key(id) implies #[trigger]
                        objects@.contains_key(id) by {
                        assert(stored.contains_key(id));
                    }
                },
            }
        }
        i += 1;
    }
    assert(walk.take(i as int) =~= walk);
}

/// Forms a new commit, made at the given time, from all the current
/// changes in the repository. Updates STATE so that it points to the newly
/// created commit.
pub fn make_commit_at(
    repo: &mut Repository,
    work: &WorkTree,
    message: &str,
    time: Timestamp,
) -> (made: VcsResult<NewCommitInfo>)
    ensures
        commit_result(made) == spec_make_commit(old(repo).model(), work@, message@, time).result,
        final(repo).model() == spec_make_commit(old(repo).model(), work@, message@, time).repo,
        consistent(old(repo).model()) ==> consistent(final(repo).model()),
        store_grown(old(repo)@.objects, final(repo)@.objects),
{
    let root = work.root();
    let mut walked: Vec<Walked> = Vec::new();
    walk_entries(root.as_str(), work.entries(), true, &mut walked);
    let changed_files = get_changed_files(work, &repo.index);
    proof {
        assert(walked_view(walked@) =~= spec_walk(work@.root, work@.entries, true));
        lemma_walk_under(work@.root, work@.entries, true);
        lemma_work_changes(repo.model(), work@);
    }
    if let Some(current_commit) = &repo.state.current_commit {
        if !repo.heads.contains(repo.state.current_branch.as_str()) {
            return Err(VcsError::CommitFromNonHead);
        }
        let branch_head = repo.heads.get_id(repo.state.current_branch.as_str());
        if !ids_equal(branch_head, current_commit) {
            return Err(VcsError::CommitFromNonHead);
        }
        if changed_files.len() == 0 {
            return Err(VcsError::NoChanges);
        }
    }
    assert forall|k: int| 0 <= k < walked@.len() implies path_under(
        root@,
        (#[trigger] walked@[k])@.path,
    ) && is_absolute(walked@[k]@.path) by {
        assert(walked_view(walked@)[k] == walked@[k]@);
    }
    stage_changes(&mut repo.objects, &mut repo.index, root.as_str(), &walked);
    proof {
        let walk = spec_walk(work@.root, work@.entries, true);
        assert forall|k: int| 0 <= k < walk.len() && !(#[trigger] walk[k]).is_dir implies
            repo.index.map().contains_key(walk[k].path) by {
            assert(walk[k] == walked@[k]@);
        }
        lemma_walk_covered(work@.root, work@.entries, repo.index.map());
    }
    let ghost staged = repo.objects@;
    let snapshot = build_tree(&mut repo.objects, root.as_str(), work.entries(), &repo.index);
    let commit = Commit {
        tree: snapshot,
        parent: repo.state.current_commit,
        branch: copy_text(repo.state.current_branch.as_str()),
        message: copy_text(message),
        time,
    };
    let ghost built = repo.objects@;
    proof {
        if consistent(old(repo).model()) {
            lemma_ids_inside_grown(repo.index.map(), staged, built);
            if let Some(parent) = commit.parent {
                assert(old(repo)@.objects.contains_key(parent));
                assert(staged.contains_key(parent));
                assert(built.contains_key(parent));
            }
        }
    }
    let commit_id = record_commit(&mut repo.objects, &commit);
    proof {
        assert forall|id: VcsObjectId| old(repo)@.objects.contains_key(id) implies #[trigger]
            repo.objects@.contains_key(id) by {
            assert(staged.contains_key(id));
            assert(built.contains_key(id));
        }
        if consistent(old(repo).model()) {
            lemma_ids_inside_grown(repo.index.map(), built, repo.objects@);
            lemma_ids_inside_grown(old(repo).heads.map(), old(repo)@.objects, repo.objects@);
        }
    }
    repo.state.current_commit = Some(commit_id);
    repo.heads.update(copy_text(repo.state.current_branch.as_str()), commit_id);
    Ok(
        NewCommitInfo {
            human_id: get_human_id(&commit_id),
            branch: commit.branch,
            changes: into_pathspec(root.as_str(), changed_files),
            message: commit.message,
        },
    )
}

/// The time of the system clock, a value of `std` that is only handed on.
#[verifier::external_type_specification]
#[verifier::external_body]
pub struct ExSystemTime(std::time::SystemTime);

/// Calls `SystemTime::now`. Nothing is claimed of the result: it is what
/// the clock says.
#[verifier::external_body]
fn system_now() -> (now: std::time::SystemTime) {
    std::time::SystemTime::now()
}

/// Calls `SystemTime::duration_since` with `UNIX_EPOCH` and hands out the
/// duration's whole seconds and the nanoseconds beyond them; zero of both
/// where the time lies before the epoch. Nothing is claimed of the result.
#[verifier::external_body]
fn since_unix_epoch(now: &std::time::SystemTime) -> (time: Timestamp) {
    match now.duration_since(std::time::UNIX_EPOCH) {
        Ok(since) => Timestamp { secs: since.as_secs(), nanos: since.subsec_nanos() },
        Err(_) => Timestamp { secs: 0, nanos: 0 },
    }
}

/// The time that the clock gives.
fn current_time() -> (time: Timestamp) {
    let now = system_now();
    since_unix_epoch(&now)
}

/// Forms a new commit from all the current changes in the repository. Updates
/// STATE so that it points to the newly created commit. The commit is made
/// at the time that the clock gives.
pub fn make_commit(
    repo: &mut Repository,
    work: &WorkTree,
    message: &str,
) -> (made: VcsResult<NewCommitInfo>)
    ensures
        exists|time: Timestamp|
            {
                &&& commit_result(made) == (#[trigger] spec_make_commit(
                    old(repo).model(),
                    work@,
                    message@,
                    time,
                )).result
                &&& final(repo).model() == spec_make_commit(
                    old(repo).model(),
                    work@,
                    message@,
                    time,
                ).repo
            },
        consistent(old(repo).model()) ==> consistent(final(repo).model()),
        store_grown(old(repo)@.objects, final(repo)@.objects),
{
    let time = current_time();
    make_commit_at(repo, work, message, time)
}

// --------------------------------------------------------------- branch

/// What `create_branch` does: the current branch has to be `master`
/// (`BranchOffNonMaster`) and the name has to be new
/// (`BranchAlreadyExists`); then the new branch gets the current commit,
/// if there is one, as its head, and becomes the current branch.
pub open spec fn spec_create_branch(
    repo: RepoModel,
    branch_name: Seq<char>,
) -> Outcome<StateInfoView> {
    if repo.state.current_branch != MASTER_BRANCH@ {
        Outcome { result: Err(ErrorView::BranchOffNonMaster), repo }
    } else if repo.heads.contains_key(branch_name) {
        Outcome { result: Err(ErrorView::BranchAlreadyExists(branch_name)), repo }
    } else {
        let state = StateView { current_branch: branch_name, ..repo.state };
        Outcome {
            result: Ok(state_info_of(state)),
            repo: RepoModel {
                state,
                heads: match repo.state.current_commit {
                    Some(commit) => repo.heads.insert(branch_name, commit),
                    None => repo.heads,
                },
                ..repo
            },
        }
    }
}

/// The outcome of an operation that reports where HEAD is, as plain
/// values.
pub open spec fn state_result(result: VcsResult<StateInfo>) -> Result<StateInfoView, ErrorView> {
    match result {
        Ok(info) => Ok(info@),
        Err(error) => Err(error@),
    }
}

/// Creates new branch with a name `branch_name` unless it already exists.
/// Checks that STATE is at the MASTER's head.
pub fn create_branch(repo: &mut Repository, branch_name: &str) -> (made: VcsResult<StateInfo>)
    ensures
        state_result(made) == spec_create_branch(old(repo).model(), branch_name@).result,
        final(repo).model() == spec_create_branch(old(repo).model(), branch_name@).repo,
        consistent(old(repo).model()) ==> consistent(final(repo).model()),
{
    if !text_eq(repo.state.current_branch.as_str(), MASTER_BRANCH) {
        return Err(VcsError::BranchOffNonMaster);
    }
    if repo.heads.contains(branch_name) {
        return Err(VcsError::BranchAlreadyExists(copy_text(branch_name)));
    }
    if let Some(current_commit) = repo.state.current_commit {
        repo.heads.update(copy_text(branch_name), current_commit);
    }
    repo.state.current_branch = copy_text(branch_name);
    Ok(StateInfo::from(&repo.state))
}

// ----------------------------------------------------------------- jump

/// How an operation on the control data and the working tree ended:
/// what it returned, and the control data and the working tree's entries
/// as it left them.
pub struct WorkOutcome<T> {
    pub result: Result<T, ErrorView>,
    pub repo: RepoModel,
    pub entries: Seq<EntryView>,
}

/// What `jump_to_commit` does.
///
/// The text has to be a hexadecimal id (`NoCommit`), the working tree must
/// have no changes (`UncomittedChanges`), and the id has to be that of a
/// commit in the store (`NoCommit`). The commit's tree is loaded into the
/// working tree and the index; a failure on the way leaves both as they
/// are at that point. Then what the index does not know is removed from
/// the working tree, and HEAD moves to the commit, on the branch that the
/// commit was made on.
pub open spec fn spec_jump_to_commit(
    repo: RepoModel,
    work: WorkTreeView,
    commit_id: Seq<char>,
) -> WorkOutcome<StateInfoView> {
    let changes = spec_work_changes(repo, work);
    let id = id_of(hex_bytes(commit_id));
    if !is_hex_id(commit_id) {
        WorkOutcome { result: Err(ErrorView::NoCommit(commit_id)), repo, entries: work.entries }
    } else if changes.len() > 0 {
        WorkOutcome {
            result: Err(ErrorView::UncomittedChanges(spec_into_pathspec(work.root, changes))),
            repo,
            entries: work.entries,
        }
    } else {
        match spec_load_commit(repo.objects, id) {
            Err(_) => WorkOutcome {
                result: Err(ErrorView::NoCommit(commit_id)),
                repo,
                entries: work.entries,
            },
            Ok(commit) => match spec_load_tree(repo.objects, commit.tree) {
                Err(error) => WorkOutcome { result: Err(error), repo, entries: work.entries },
                Ok(tree) => {
                    let loaded = spec_load_from_tree(
                        repo.objects,
                        work.root,
                        tree,
                        repo.objects.dom().len(),
                        work.entries,
                    );
                    match loaded.failure {
                        Some(error) => WorkOutcome {
                            result: Err(error),
                            repo: RepoModel { index: loaded.index, ..repo },
                            entries: loaded.entries,
                        },
                        None => {
                            let state = StateView {
                                current_branch: commit.branch,
                                current_commit: Some(id),
                            };
                            WorkOutcome {
                                result: Ok(state_info_of(state)),
                                repo: RepoModel { state, index: loaded.index, ..repo },
                                entries: spec_prune(work.root, loaded.entries, loaded.index),
                            }
                        },
                    }
                },
            },
        }
    }
}

/// Updates STATE to be on the specified commit. Updates working tree by loading
/// the tree the commit points to. Checks for uncommitted changes.
pub fn jump_to_commit(
    repo: &mut Repository,
    work: &mut WorkTree,
    commit_id: &str,
) -> (jumped: VcsResult<StateInfo>)
    ensures
        final(work)@.root == old(work)@.root,
        state_result(jumped)
            == spec_jump_to_commit(old(repo).model(), old(work)@, commit_id@).result,
        final(repo).model() == spec_jump_to_commit(old(repo).model(), old(work)@, commit_id@).repo,
        final(work)@.entries == spec_jump_to_commit(
            old(repo).model(),
            old(work)@,
            commit_id@,
        ).entries,
        consistent(old(repo).model()) ==> consistent(final(repo).model()),
{
    let id = match get_inner_id(commit_id) {
        Ok(id) => id,
        Err(error) => {
            return Err(error);
        },
    };
    proof {
        lemma_id_of(id);
    }
    let changes = get_changed_files(work, &repo.index);
    if changes.len() > 0 {
        proof {
            lemma_work_changes(repo.model(), work@);
        }
        return Err(
            VcsError::UncomittedChanges { changes: into_pathspec(work.root().as_str(), changes) },
        );
    }
    let commit = match load_commit(&repo.objects, &id) {
        Ok(commit) => commit,
        Err(_) => {
            return Err(VcsError::NoCommit(copy_text(commit_id)));
        },
    };
    let tree = match load_tree(&repo.objects, &commit.tree) {
        Ok(tree) => tree,
        Err(error) => {
            return Err(error);
        },
    };
    proof {
        if consistent(old(repo).model()) {
            lemma_loaded_tree_inside(repo.objects@, commit.tree);
        }
    }
    match load_from_tree(&repo.objects, &tree, &mut repo.index, work) {
        Ok(_) => {},
        Err(error) => {
            return Err(error);
        },
    }
    remove_extra_entries(work, &repo.index);
    repo.state = VcsRepositoryState { current_branch: commit.branch, current_commit: Some(id) };
    Ok(StateInfo::from(&repo.state))
}

/// What `jump_to_branch` does: the branch has to have a head
/// (`NoBranch`); HEAD jumps to that commit, and then the branch becomes
/// the current branch whatever branch the commit was made on.
pub open spec fn spec_jump_to_branch(
    repo: RepoModel,
    work: WorkTreeView,
    branch_name: Seq<char>,
) -> WorkOutcome<StateInfoView> {
    if !repo.heads.contains_key(branch_name) {
        WorkOutcome { result: Err(ErrorView::NoBranch(branch_name)), repo, entries: work.entries }
    } else {
        let head = repo.heads[branch_name];
        let jumped = spec_jump_to_commit(repo, work, hex_text(head@));
        if jumped.result is Err {
            jumped
        } else {
            let state = StateView { current_branch: branch_name, current_commit: Some(head) };
            WorkOutcome {
                result: Ok(state_info_of(state)),
                repo: RepoModel { state, ..jumped.repo },
                entries: jumped.entries,
            }
        }
    }
}

/// Updates STATE to be on the specified branch and its head commit.
/// Updates working tree by loading the tree the branch's head commit points to.
/// Checks for uncommitted changes.
pub fn jump_to_branch(
    repo: &mut Repository,
    work: &mut WorkTree,
    branch_name: &str,
) -> (jumped: VcsResult<StateInfo>)
    ensures
        final(work)@.root == old(work)@.root,
        state_result(jumped) == spec_jump_to_branch(
            old(repo).model(),
            old(work)@,
            branch_name@,
        ).result,
        final(repo).model()
            == spec_jump_to_branch(old(repo).model(), old(work)@, branch_name@).repo,
        final(work)@.entries == spec_jump_to_branch(
            old(repo).model(),
            old(work)@,
            branch_name@,
        ).entries,
        consistent(old(repo).model()) ==> consistent(final(repo).model()),
{
    if !repo.heads.contains(branch_name) {
        return Err(VcsError::NoBranch(copy_text(branch_name)));
    }
    let commit_id = *repo.heads.get_id(branch_name);
    match jump_to_commit(repo, work, get_human_id(&commit_id).as_str()) {
        Ok(_) => {},
        Err(error) => {
            return Err(error);
        },
    }
    repo.state = VcsRepositoryState {
        current_branch: copy_text(branch_name),
        current_commit: Some(commit_id),
    };
    Ok(StateInfo::from(&repo.state))
}

// ------------------------------------------------------------------ log

/// A list of history entries, or the failure that stood in its way.
pub type LogsOutcome = Result<Seq<CommitLogView>, ErrorView>;

/// Puts a history entry in front of the entries that follow it.
pub open spec fn logs_after(first: Seq<CommitLogView>, later: LogsOutcome) -> LogsOutcome {
    match later {
        Ok(logs) => Ok(first + logs),
        Err(error) => Err(error),
    }
}

/// The changes that a commit made: its tree compared with its parent's,
/// or all the files of its tree where it has no parent.
pub open spec fn spec_commit_changes(objects: Objects, commit: CommitView) -> ChangesOutcome {
    match spec_load_tree(objects, commit.tree) {
        Err(error) => Err(error),
        Ok(tree) => match commit.parent {
            Some(parent) => match spec_load_commit(objects, parent) {
                Err(error) => Err(error),
                Ok(parent_commit) => match spec_load_tree(objects, parent_commit.tree) {
                    Err(error) => Err(error),
                    Ok(parent_tree) => spec_compare_trees(
                        objects,
                        parent_tree,
                        tree,
                        objects.dom().len(),
                    ),
                },
            },
            None => spec_tree_files(objects, tree, objects.dom().len()),
        },
    }
}

/// The history from a commit to the commit without a parent, newest
/// first. Each entry has the commit's id in hexadecimal, its changes with
/// paths relative to the repository root, its message and its time.
/// `Serialization` where a path of a stored tree is not below the root,
/// and where more than `steps` commits would have to be loaded.
pub open spec fn spec_commit_logs(
    objects: Objects,
    root: Seq<char>,
    current: Option<VcsObjectId>,
    steps: nat,
) -> LogsOutcome
    decreases steps,
{
    match current {
        None => Ok(Seq::empty()),
        Some(id) => if steps == 0 {
            Err(ErrorView::Serialization)
        } else {
            match spec_load_commit(objects, id) {
                Err(error) => Err(error),
                Ok(commit) => match spec_commit_changes(objects, commit) {
                    Err(error) => Err(error),
                    Ok(changes) => if !all_under(root, changes) {
                        Err(ErrorView::Serialization)
                    } else {
                        logs_after(
                            seq![
                                CommitLogView {
                                    human_id: hex_text(id@),
                                    changes: spec_into_pathspec(root, changes),
                                    message: commit.message,
                                    time: commit.time,
                                },
                            ],
                            spec_commit_logs(objects, root, commit.parent, (steps - 1) as nat),
                        )
                    },
                },
            }
        },
    }
}

/// The changes that a commit made.
fn commit_changes(objects: &ObjectStore, commit: &Commit) -> (changes: VcsResult<FileChanges>)
    ensures
        changes_outcome(changes) == spec_commit_changes(objects@, commit@),
{
    let tree = match load_tree(objects, &commit.tree) {
        Ok(tree) => tree,
        Err(error) => {
            return Err(error);
        },
    };
    match &commit.parent {
        Some(parent) => {
            let parent_commit = match load_commit(objects, parent) {
                Ok(commit) => commit,
                Err(error) => {
                    return Err(error);
                },
            };
            let parent_tree = match load_tree(objects, &parent_commit.tree) {
                Ok(tree) => tree,
                Err(error) => {
                    return Err(error);
                },
            };
            compare_trees(objects, &parent_tree, &tree)
        },
        None => get_tree_files(objects, &tree),
    }
}

/// Whether every path of the changes is the root or lies below it.
fn changes_under(root: &str, changes: &FileChanges) -> (under: bool)
    ensures
        under == all_under(root@, changes_view(changes@)),
{
    let ghost all = changes_view(changes@);
    let mut i: usize = 0;
    while i < changes.len()
        invariant
            i <= changes.len(),
            all == changes_view(changes@),
            forall|k: int| 0 <= k < i ==> path_under(root@, (#[trigger] all[k]).1),
        decreases changes.len() - i,
    {
        assert(all[i as int].1 == changes@[i as int].1@);
        if !is_path_under(root, changes[i].1.as_str()) {
            return false;
        }
        i += 1;
    }
    true
}

/// The outcome of `get_commit_logs` as plain values.
pub open spec fn logs_outcome(result: VcsResult<Vec<CommitLog>>) -> LogsOutcome {
    match result {
        Ok(logs) => Ok(logs_view(logs@)),
        Err(error) => Err(error@),
    }
}

/// Putting entries in front in two steps is putting them in front at
/// once.
pub proof fn lemma_logs_after(
    first: Seq<CommitLogView>,
    second: Seq<CommitLogView>,
    later: LogsOutcome,
)
    ensures
        logs_after(first, logs_after(second, later)) == logs_after(first + second, later),
{
    if let Ok(logs) = later {
        assert(first + (second + logs) =~= (first + second) + logs);
    }
}

/// Forms commit logs from the current commit to the root commit. No more
/// commits are loaded than there are objects in the store.
pub fn get_commit_logs(repo: &Repository, work: &WorkTree) -> (logs: VcsResult<Vec<CommitLog>>)
    ensures
        logs_outcome(logs) == spec_commit_logs(
            repo@.objects,
            work@.root,
            repo@.state.current_commit,
            repo@.objects.dom().len(),
        ),
{
    let root = work.root();
    let objects = &repo.objects;
    let mut logs: Vec<CommitLog> = Vec::new();
    let mut current_commit_id = repo.state.current_commit;
    let mut steps = objects.len();
    let ghost whole = spec_commit_logs(
        objects@,
        root@,
        repo@.state.current_commit,
        objects@.dom().len(),
    );
    proof {
        assert(logs_view(logs@) =~= Seq::empty());
        if let Ok(all) = whole {
            assert(Seq::<CommitLogView>::empty() + all =~= all);
        }
    }
    while current_commit_id.is_some()
        invariant
            is_absolute(root@),
            root@ == work@.root,
            objects@ == repo@.objects,
            whole == spec_commit_logs(
                repo@.objects,
                work@.root,
                repo@.state.current_commit,
                repo@.objects.dom().len(),
            ),
            whole == logs_after(
                logs_view(logs@),
                spec_commit_logs(objects@, root@, current_commit_id, steps as nat),
            ),
        decreases steps,
    {
        let commit_id = match current_commit_id {
            Some(id) => id,
            None => {
                return Err(VcsError::Serialization);
            },
        };
        if steps == 0 {
            return Err(VcsError::Serialization);
        }
        let commit = match load_commit(objects, &commit_id) {
            Ok(commit) => commit,
            Err(error) => {
                return Err(error);
            },
        };
        let changes = match commit_changes(objects, &commit) {
            Ok(changes) => changes,
            Err(error) => {
                return Err(error);
            },
        };
        if !changes_under(root.as_str(), &changes) {
            return Err(VcsError::Serialization);
        }
        let ghost before = logs_view(logs@);
        let log = CommitLog {
            human_id: get_human_id(&commit_id),
            changes: into_pathspec(root.as_str(), changes),
            message: commit.message,
            time: commit.time,
        };
        proof {
            lemma_logs_after(
                before,
                seq![log@],
                spec_commit_logs(objects@, root@, commit.parent, (steps - 1) as nat),
            );
        }
        logs.push(log);
        assert(logs_view(logs@) =~= before + seq![log@]);
        current_commit_id = commit.parent;
        steps -= 1;
    }
    proof {
        assert(logs_view(logs@) + Seq::<CommitLogView>::empty() =~= logs_view(logs@));
    }
    Ok(logs)
}

// ---------------------------------------------------------------- merge

/// The changes of a list without repetition: each change stands where it
/// stands first.
pub open spec fn spec_unique(changes: Seq<(FileStatus, Seq<char>)>) -> Seq<(FileStatus, Seq<char>)>
    decreases changes.len(),
{
    if changes.len() == 0 {
        Seq::empty()
    } else {
        let unique = spec_unique(changes.drop_last());
        if changes.drop_last().contains(changes.last()) {
            unique
        } else {
            unique.push(changes.last())
        }
    }
}

/// The changes of `first`, without repetition and in their order, that
/// are also in `second`.
pub open spec fn spec_intersect(
    first: Seq<(FileStatus, Seq<char>)>,
    second: Seq<(FileStatus, Seq<char>)>,
) -> Seq<(FileStatus, Seq<char>)> {
    spec_unique(first).filter(|change: (FileStatus, Seq<char>)| second.contains(change))
}

/// Calls `intersect` of `array_tool::vec::Intersect`. The crate first
/// takes `unique()` of the receiver, which keeps of equal items the one
/// that stands first, and then keeps, in that order, each item that is
/// equal to some item of the argument.
#[verifier::external_body]
fn intersect_changes(first: &FileChanges, second: FileChanges) -> (common: FileChanges)
    ensures
        changes_view(common@) == spec_intersect(changes_view(first@), changes_view(second@)),
{
    first.intersect(second)
}

/// What a merge needs of the store: the tree of the branch's head, the
/// tree of the head of `master`, and the changes of each since the commit
/// at which the branch left.
pub struct MergeInputs {
    pub branch_tree: Seq<NodeView>,
    pub master_tree: Seq<NodeView>,
    pub branch_changes: Seq<(FileStatus, Seq<char>)>,
    pub master_changes: Seq<(FileStatus, Seq<char>)>,
}

/// Loads what a merge needs: the head of the branch and its tree, the
/// branch root and its tree, the head of `master` and its tree, and then
/// compares the root's tree with the two others. The first failure ends
/// it.
pub open spec fn spec_merge_inputs(
    objects: Objects,
    branch_name: Seq<char>,
    branch_head: VcsObjectId,
    master_head: VcsObjectId,
) -> Result<MergeInputs, ErrorView> {
    let depth = objects.dom().len();
    match spec_load_commit(objects, branch_head) {
        Err(error) => Err(error),
        Ok(head) => match spec_load_tree(objects, head.tree) {
            Err(error) => Err(error),
            Ok(branch_tree) => match spec_branch_root(objects, branch_name, head, depth) {
                Err(error) => Err(error),
                Ok(root_commit) => match spec_load_tree(objects, root_commit.tree) {
                    Err(error) => Err(error),
                    Ok(root_tree) => match spec_load_commit(objects, master_head) {
                        Err(error) => Err(error),
                        Ok(master) => match spec_load_tree(objects, master.tree) {
                            Err(error) => Err(error),
                            Ok(master_tree) => match spec_compare_trees(
                                objects,
                                root_tree,
                                branch_tree,
                                depth,
                            ) {
                                Err(error) => Err(error),
                                Ok(branch_changes) => match spec_compare_trees(
                                    objects,
                                    root_tree,
                                    master_tree,
                                    depth,
                                ) {
                                    Err(error) => Err(error),
                                    Ok(master_changes) => Ok(
                                        MergeInputs {
                                            branch_tree,
                                            master_tree,
                                            branch_changes,
                                            master_changes,
                                        },
                                    ),
                                },
                            },
                        },
                    },
                },
            },
        },
    }
}

/// The message of a merge commit.
pub open spec fn spec_merge_message(branch_name: Seq<char>) -> Seq<char> {
    "Merged branch "@ + branch_name
}

/// What `merge_branch` does at a given time.
///
/// The branch has to have a head (`NoBranch`); HEAD has to be on `master`
/// and, where `master` has a head, at that head (`MergeFromNotMasterHead`);
/// `master` has to have a head (`NoBranch` of `master`); the working tree
/// must have no changes (`UncomittedChanges`). A change that both the
/// branch and `master` made since the branch left is a `MergeConflict`. A
/// change of the branch whose path is not below the root is a
/// `Serialization` failure. Up to here a failure changes nothing.
///
/// Then the branch's tree is merged into the tree of `master`, the merged
/// tree and the merge commit are recorded, the head of `master` and HEAD
/// move to the commit, and the merged tree is loaded into the working
/// tree and the index. A failure of that load is returned and leaves the
/// working tree and the index as they are at that point.
pub open spec fn spec_merge_branch(
    repo: RepoModel,
    work: WorkTreeView,
    branch_name: Seq<char>,
    time: Timestamp,
) -> WorkOutcome<NewCommitView> {
    let master = MASTER_BRANCH@;
    let changes = spec_work_changes(repo, work);
    if !repo.heads.contains_key(branch_name) {
        WorkOutcome { result: Err(ErrorView::NoBranch(branch_name)), repo, entries: work.entries }
    } else if repo.state.current_branch != master || (repo.heads.contains_key(master)
        && repo.state.current_commit != Some(repo.heads[master])) {
        WorkOutcome { result: Err(ErrorView::MergeFromNotMasterHead), repo, entries: work.entries }
    } else if !repo.heads.contains_key(master) {
        WorkOutcome { result: Err(ErrorView::NoBranch(master)), repo, entries: work.entries }
    } else if changes.len() > 0 {
        WorkOutcome {
            result: Err(ErrorView::UncomittedChanges(spec_into_pathspec(work.root, changes))),
            repo,
            entries: work.entries,
        }
    } else {
        match spec_merge_inputs(repo.objects, branch_name, repo.heads[branch_name],
            repo.heads[master]) {
            Err(error) => WorkOutcome { result: Err(error), repo, entries: work.entries },
            Ok(inputs) => {
                let both = spec_intersect(inputs.branch_changes, inputs.master_changes);
                if both.len() > 0 {
                    WorkOutcome {
                        result: Err(ErrorView::MergeConflict(both)),
                        repo,
                        entries: work.entries,
                    }
                } else if !all_under(work.root, inputs.branch_changes) {
                    WorkOutcome {
                        result: Err(ErrorView::Serialization),
                        repo,
                        entries: work.entries,
                    }
                } else {
                    let merged = spec_merge_trees(inputs.branch_tree, inputs.master_tree);
                    let merged_content = object_content(ObjectView::Tree(merged));
                    let commit = CommitView {
                        tree: object_id(merged_content),
                        parent: Some(repo.heads[master]),
                        branch: master,
                        time,
                        message: spec_merge_message(branch_name),
                    };
                    let content = object_content(ObjectView::Commit(commit));
                    let id = object_id(content);
                    let objects = repo.objects.insert(object_id(merged_content),
                        merged_content).insert(
                        id,
                        content,
                    );
                    let loaded = spec_load_from_tree(
                        objects,
                        work.root,
                        merged,
                        objects.dom().len(),
                        work.entries,
                    );
                    WorkOutcome {
                        result: match loaded.failure {
                            Some(error) => Err(error),
                            None => Ok(
                                NewCommitView {
                                    human_id: hex_text(id@),
                                    branch: master,
                                    changes: spec_into_pathspec(work.root, inputs.branch_changes),
                                    message: spec_merge_message(branch_name),
                                },
                            ),
                        },
                        repo: RepoModel {
                            state: StateView { current_commit: Some(id), ..repo.state },
                            index: loaded.index,
                            heads: repo.heads.insert(master, id),
                            objects,
                        },
                        entries: loaded.entries,
                    }
                }
            },
        }
    }
}

/// The changes that a successful merge reports are real changes.
pub proof fn lemma_merge_reportable(
    repo: RepoModel,
    work: WorkTreeView,
    branch_name: Seq<char>,
    time: Timestamp,
)
    ensures
        spec_merge_branch(repo, work, branch_name, time).result is Ok
            ==> crate::report_printer::reportable(
            spec_merge_branch(repo, work, branch_name, time).result->Ok_0.changes,
        ),
{
    let master = MASTER_BRANCH@;
    if spec_merge_branch(repo, work, branch_name, time).result is Ok {
        let objects = repo.objects;
        let depth = objects.dom().len();
        let head = spec_load_commit(objects, repo.heads[branch_name])->Ok_0;
        let branch_tree = spec_load_tree(objects, head.tree)->Ok_0;
        let root_commit = spec_branch_root(objects, branch_name, head, depth)->Ok_0;
        let root_tree = spec_load_tree(objects, root_commit.tree)->Ok_0;
        lemma_compare_reportable(objects, root_tree, branch_tree, depth);
        let inputs = spec_merge_inputs(
            objects,
            branch_name,
            repo.heads[branch_name],
            repo.heads[master],
        )->Ok_0;
        crate::report_printer::lemma_pathspec_reportable(work.root, inputs.branch_changes);
    }
}

/// The trees that a merge takes from a closed store have the ids of all
/// their nodes in the store.
pub proof fn lemma_merge_inputs_inside(
    objects: Objects,
    branch_name: Seq<char>,
    branch_head: VcsObjectId,
    master_head: VcsObjectId,
)
    requires
        store_closed(objects),
        spec_merge_inputs(objects, branch_name, branch_head, master_head) is Ok,
    ensures
        nodes_inside(
            spec_merge_inputs(objects, branch_name, branch_head, master_head)->Ok_0.branch_tree,
            objects,
        ),
        nodes_inside(
            spec_merge_inputs(objects, branch_name, branch_head, master_head)->Ok_0.master_tree,
            objects,
        ),
{
    let head = spec_load_commit(objects, branch_head)->Ok_0;
    lemma_loaded_tree_inside(objects, head.tree);
    let master = spec_load_commit(objects, master_head)->Ok_0;
    lemma_loaded_tree_inside(objects, master.tree);
}

/// What `merge_inputs` hands back.
struct LoadedInputs {
    branch_tree: Tree,
    master_tree: Tree,
    branch_changes: FileChanges,
    master_changes: FileChanges,
}

impl View for LoadedInputs {
    type V = MergeInputs;

    closed spec fn view(&self) -> MergeInputs {
        MergeInputs {
            branch_tree: self.branch_tree@,
            master_tree: self.master_tree@,
            branch_changes: changes_view(self.branch_changes@),
            master_changes: changes_view(self.master_changes@),
        }
    }
}

fn merge_inputs(
    objects: &ObjectStore,
    branch_name: &str,
    branch_head_id: &VcsObjectId,
    master_head_id: &VcsObjectId,
) -> (inputs: VcsResult<LoadedInputs>)
    ensures
        match inputs {
            Ok(inputs) => spec_merge_inputs(objects@, branch_name@, *branch_head_id,
                *master_head_id)
                == Ok::<MergeInputs, ErrorView>(inputs@),
            Err(error) => spec_merge_inputs(objects@, branch_name@, *branch_head_id,
                *master_head_id)
                == Err::<MergeInputs, ErrorView>(error@),
        },
{
    let branch_head = match load_commit(objects, branch_head_id) {
        Ok(commit) => commit,
        Err(error) => {
            return Err(error);
        },
    };
    let branch_tree = match load_tree(objects, &branch_head.tree) {
        Ok(tree) => tree,
        Err(error) => {
            return Err(error);
        },
    };
    let root_commit = match get_branch_root(objects, branch_name, branch_head) {
        Ok(commit) => commit,
        Err(error) => {
            return Err(error);
        },
    };
    let root_tree = match load_tree(objects, &root_commit.tree) {
        Ok(tree) => tree,
        Err(error) => {
            return Err(error);
        },
    };
    let master_head = match load_commit(objects, master_head_id) {
        Ok(commit) => commit,
        Err(error) => {
            return Err(error);
        },
    };
    let master_tree = match load_tree(objects, &master_head.tree) {
        Ok(tree) => tree,
        Err(error) => {
            return Err(error);
        },
    };
    let branch_changes = match compare_trees(objects, &root_tree, &branch_tree) {
        Ok(changes) => changes,
        Err(error) => {
            return Err(error);
        },
    };
    let master_changes = match compare_trees(objects, &root_tree, &master_tree) {
        Ok(changes) => changes,
        Err(error) => {
            return Err(error);
        },
    };
    Ok(LoadedInputs { branch_tree, master_tree, branch_changes, master_changes })
}

/// HEAD never loses its commit: with a current commit before an operation
/// there is one after it, whatever the operation and however it ends.
pub proof fn lemma_current_commit_stays(
    repo: RepoModel,
    work: WorkTreeView,
    text: Seq<char>,
    time: Timestamp,
)
    requires
        repo.state.current_commit is Some,
    ensures
        spec_make_commit(repo, work, text, time).repo.state.current_commit is Some,
        spec_create_branch(repo, text).repo.state.current_commit is Some,
        spec_jump_to_commit(repo, work, text).repo.state.current_commit is Some,
        spec_jump_to_branch(repo, work, text).repo.state.current_commit is Some,
        spec_merge_branch(repo, work, text, time).repo.state.current_commit is Some,
{
}

/// Merge `branch_name` into MASTER branch, in a commit made at the given
/// time. Checks for merge conflics and aborts iff there are any.
pub fn merge_branch_at(
    repo: &mut Repository,
    work: &mut WorkTree,
    branch_name: &str,
    time: Timestamp,
) -> (merged: VcsResult<NewCommitInfo>)
    ensures
        final(work)@.root == old(work)@.root,
        commit_result(merged) == spec_merge_branch(
            old(repo).model(),
            old(work)@,
            branch_name@,
            time,
        ).result,
        final(repo).model() == spec_merge_branch(
            old(repo).model(),
            old(work)@,
            branch_name@,
            time,
        ).repo,
        final(work)@.entries == spec_merge_branch(
            old(repo).model(),
            old(work)@,
            branch_name@,
            time,
        ).entries,
        consistent(old(repo).model()) ==> consistent(final(repo).model()),
        store_grown(old(repo)@.objects, final(repo)@.objects),
{
    if !repo.heads.contains(branch_name) {
        return Err(VcsError::NoBranch(copy_text(branch_name)));
    }
    if !text_eq(repo.state.current_branch.as_str(), MASTER_BRANCH) {
        return Err(VcsError::MergeFromNotMasterHead);
    }
    if !repo.heads.contains(MASTER_BRANCH) {
        return Err(VcsError::NoBranch(String::from_str(MASTER_BRANCH)));
    }
    let master_head_id = *repo.heads.get_id(MASTER_BRANCH);
    match &repo.state.current_commit {
        Some(current) => {
            if !ids_equal(current, &master_head_id) {
                return Err(VcsError::MergeFromNotMasterHead);
            }
        },
        None => {
            return Err(VcsError::MergeFromNotMasterHead);
        },
    }
    let changes = get_changed_files(work, &repo.index);
    if changes.len() > 0 {
        proof {
            lemma_work_changes(repo.model(), work@);
        }
        return Err(
            VcsError::UncomittedChanges { changes: into_pathspec(work.root().as_str(), changes) },
        );
    }
    let branch_head_id = *repo.heads.get_id(branch_name);
    let inputs = match merge_inputs(&repo.objects, branch_name, &branch_head_id, &master_head_id) {
        Ok(inputs) => inputs,
        Err(error) => {
            return Err(error);
        },
    };
    let LoadedInputs { branch_tree, master_tree, branch_changes, master_changes } = inputs;
    let intersection = intersect_changes(&branch_changes, master_changes);
    if intersection.len() > 0 {
        return Err(VcsError::MergeConflict { both_changed: intersection });
    }
    if !changes_under(work.root().as_str(), &branch_changes) {
        return Err(VcsError::Serialization);
    }
    let ghost sound = consistent(old(repo).model());
    let ghost before = repo.objects@;
    proof {
        if sound {
            lemma_merge_inputs_inside(before, branch_name@, branch_head_id, master_head_id);
            lemma_merged_inside(branch_tree@, master_tree@, before);
        }
    }
    let merged_tree = merge_trees(branch_tree, master_tree);
    let merged_object = VcsObjects::Tree(merged_tree);
    let content = merged_object.get_content();
    proof {
        if sound {
            let after = before.insert(object_id(content@), content@);
            assert forall|k: int| 0 <= k < merged_object@->Tree_0.len() implies after.contains_key(
                (#[trigger] merged_object@->Tree_0[k]).id,
            ) by {
                assert(before.contains_key(merged_object@->Tree_0[k].id));
            }
            lemma_put_keeps_closed(before, object_id(content@), content@);
        }
    }
    let merged_tree_id = repo.objects.put(content);
    let ghost with_tree = repo.objects@;
    let mut message = String::from_str("Merged branch ");
    message.append(branch_name);
    let merge_commit = Commit {
        tree: merged_tree_id,
        parent: Some(master_head_id),
        branch: String::from_str(MASTER_BRANCH),
        message,
        time,
    };
    proof {
        if sound {
            assert(before.contains_key(master_head_id));
            assert(with_tree.contains_key(master_head_id));
        }
    }
    let commit_id = record_commit(&mut repo.objects, &merge_commit);
    proof {
        assert forall|id: VcsObjectId| before.contains_key(id) implies #[trigger]
            repo.objects@.contains_key(id) by {
            assert(with_tree.contains_key(id));
        }
        if sound {
            lemma_ids_inside_grown(old(repo).heads.map(), before, repo.objects@);
            assert forall|k: int| 0 <= k < merged_object@->Tree_0.len() implies
                repo.objects@.contains_key((#[trigger] merged_object@->Tree_0[k]).id) by {
                assert(with_tree.contains_key(merged_object@->Tree_0[k].id));
            }
        }
    }
    repo.heads.update(String::from_str(MASTER_BRANCH), commit_id);
    repo.state.current_commit = Some(commit_id);
    let merged_tree = merged_object.tree();
    match load_from_tree(&repo.objects, &merged_tree, &mut repo.index, work) {
        Ok(_) => {},
        Err(error) => {
            return Err(error);
        },
    }
    Ok(
        NewCommitInfo {
            human_id: get_human_id(&commit_id),
            branch: merge_commit.branch,
            changes: into_pathspec(work.root().as_str(), branch_changes),
            message: merge_commit.message,
        },
    )
}

/// Merge `branch_name` into MASTER branch. Checks for merge conflics and aborts
/// iff there are any. The merge commit is made at the time that the clock
/// gives.
pub fn merge_branch(
    repo: &mut Repository,
    work: &mut WorkTree,
    branch_name: &str,
) -> (merged: VcsResult<NewCommitInfo>)
    ensures
        final(work)@.root == old(work)@.root,
        exists|time: Timestamp|
            {
                &&& commit_result(merged) == (#[trigger] spec_merge_branch(
                    old(repo).model(),
                    old(work)@,
                    branch_name@,
                    time,
                )).result
                &&& final(repo).model() == spec_merge_branch(
                    old(repo).model(),
                    old(work)@,
                    branch_name@,
                    time,
                ).repo
                &&& final(work)@.entries == spec_merge_branch(
                    old(repo).model(),
                    old(work)@,
                    branch_name@,
                    time,
                ).entries
            },
        consistent(old(repo).model()) ==> consistent(final(repo).model()),
        store_grown(old(repo)@.objects, final(repo)@.objects),
{
    let time = current_time();
    merge_branch_at(repo, work, branch_name, time)
}

} // verus!
