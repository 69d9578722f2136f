//! What the engine reports to its callers.

use crate::errors::{ErrorView, VcsError, VcsResult};
use crate::identity::{get_human_id, hex_bytes, hex_decode_id, hex_text, is_hex_id, VcsObjectId};
use crate::objects::{StateView, Timestamp, VcsRepositoryState};
use crate::text::{copy_text, is_absolute, path_relative, path_under};
use vstd::prelude::*;
use vstd::string::*;

verus! {

/// The status of a file in the working tree in relation to the index.
#[derive(Debug, Clone, Copy, PartialEq, Eq, Structural)]
pub enum FileStatus {
    Modified,
    Added,
    Unchanged,
}

/// A list of changed files, each with what happened to it.
pub type FileChanges = Vec<(FileStatus, String)>;

/// A list of changes as plain values.
pub open spec fn changes_view(changes: Seq<(FileStatus, String)>) -> Seq<(FileStatus, Seq<char>)> {
    changes.map_values(|change: (FileStatus, String)| (change.0, change.1@))
}

/// What a new commit looks like from outside.
#[derive(Debug, PartialEq, Eq)]
pub struct NewCommitInfo {
    pub human_id: String,
    pub branch: String,
    pub changes: FileChanges,
    pub message: String,
}

/// A new commit's report as plain values.
pub struct NewCommitView {
    pub human_id: Seq<char>,
    pub branch: Seq<char>,
    pub changes: Seq<(FileStatus, Seq<char>)>,
    pub message: Seq<char>,
}

impl View for NewCommitInfo {
    type V = NewCommitView;

    open spec fn view(&self) -> NewCommitView {
        NewCommitView {
            human_id: self.human_id@,
            branch: self.branch@,
            changes: changes_view(self.changes@),
            message: self.message@,
        }
    }
}

/// One entry of a commit history.
#[derive(Debug, PartialEq, Eq)]
pub struct CommitLog {
    pub human_id: String,
    pub changes: FileChanges,
    pub message: String,
    pub time: Timestamp,
}

/// A history entry as plain values.
pub struct CommitLogView {
    pub human_id: Seq<char>,
    pub changes: Seq<(FileStatus, Seq<char>)>,
    pub message: Seq<char>,
    pub time: Timestamp,
}

impl View for CommitLog {
    type V = CommitLogView;

    open spec fn view(&self) -> CommitLogView {
        CommitLogView {
            human_id: self.human_id@,
            changes: changes_view(self.changes@),
            message: self.message@,
            time: self.time,
        }
    }
}

/// A list of history entries as plain values.
pub open spec fn logs_view(logs: Seq<CommitLog>) -> Seq<CommitLogView> {
    logs.map_values(|log: CommitLog| log@)
}

/// Where HEAD is: the current branch and, in hexadecimal, the current
/// commit.
#[derive(Debug, PartialEq, Eq)]
pub struct StateInfo {
    pub commit: Option<String>,
    pub branch: String,
}

/// HEAD as plain values.
pub struct StateInfoView {
    pub commit: Option<Seq<char>>,
    pub branch: Seq<char>,
}

impl View for StateInfo {
    type V = StateInfoView;

    open spec fn view(&self) -> StateInfoView {
        StateInfoView {
            commit: match self.commit {
                Some(text) => Some(text@),
                None => None,
            },
            branch: self.branch@,
        }
    }
}

/// What `StateInfo::from` makes of a repository state.
pub open spec fn state_info_of(state: StateView) -> StateInfoView {
    StateInfoView {
        commit: match state.current_commit {
            Some(id) => Some(hex_text(id@)),
            None => None,
        },
        branch: state.current_branch,
    }
}

impl StateInfo {
    /// The public form of a repository state: the commit id in
    /// hexadecimal, the branch as it is.
    pub fn from(state: &VcsRepositoryState) -> (info: StateInfo)
        ensures
            info@ == state_info_of(state@),
    {
        let commit = match &state.current_commit {
            Some(id) => Some(get_human_id(id)),
            None => None,
        };
        StateInfo { commit, branch: copy_text(state.current_branch.as_str()) }
    }
}

/// Transforms the public representation of an object id into the inner one.
pub fn get_inner_id(id: &str) -> (inner: VcsResult<VcsObjectId>)
    ensures
        match inner {
            Ok(bytes) => is_hex_id(id@) && bytes@ == hex_bytes(id@),
            Err(error) => !is_hex_id(id@) && error@ == ErrorView::NoCommit(id@),
        },
{
    match hex_decode_id(id) {
        Some(bytes) => Ok(bytes),
        None => Err(VcsError::NoCommit(copy_text(id))),
    }
}

/// Each path of `changes` made relative to `repo`.
pub open spec fn spec_into_pathspec(
    repo: Seq<char>,
    changes: Seq<(FileStatus, Seq<char>)>,
) -> Seq<(FileStatus, Seq<char>)> {
    changes.map_values(|change: (FileStatus, Seq<char>)| (change.0, path_relative(repo, change.1)))
}

/// Whether every path of `changes` is `repo` or lies below it.
pub open spec fn all_under(repo: Seq<char>, changes: Seq<(FileStatus, Seq<char>)>) -> bool {
    forall|i: int| 0 <= i < changes.len() ==> path_under(repo, (#[trigger] changes[i]).1)
}

/// What is left of `child` once `parent` is taken away from its front.
pub fn get_relative(parent: &str, child: &str) -> (relative: String)
    requires
        is_absolute(parent@),
        is_absolute(child@),
        path_under(parent@, child@),
    ensures
        relative@ == path_relative(parent@, child@),
{
    let n = parent.unicode_len();
    let m = child.unicode_len();
    if m > n {
        String::from_str(child.substring_char(n + 1, m))
    } else {
        String::new()
    }
}

/// Transforms file paths so that they are relative to the repository root.
pub fn into_pathspec(repo: &str, changes: FileChanges) -> (relative: FileChanges)
    requires
        is_absolute(repo@),
        all_under(repo@, changes_view(changes@)),
    ensures
        changes_view(relative@) == spec_into_pathspec(repo@, changes_view(changes@)),
{
    let mut relative: FileChanges = Vec::new();
    let mut i: usize = 0;
    while i < changes.len()
        invariant
            i <= changes.len(),
            is_absolute(repo@),
            all_under(repo@, changes_view(changes@)),
            relative@.len() == i,
            forall|k: int|
                0 <= k < i ==> (#[trigger] relative@[k]).0 == changes@[k].0 && relative@[k].1@
                    == path_relative(repo@, changes@[k].1@),
        decreases changes.len() - i,
    {
        let status = changes[i].0;
        assert(path_under(repo@, changes_view(changes@)[i as int].1));
        proof {
            let child = changes@[i as int].1@;
            if child != repo@ {
                assert(child.subrange(0, repo@.len() as int)[0] == child[0]);
            }
        }
        let path = get_relative(repo, changes[i].1.as_str());
        relative.push((status, path));
        i += 1;
    }
    assert(changes_view(relative@) =~= spec_into_pathspec(repo@, changes_view(changes@)));
    relative
}

} // verus!
