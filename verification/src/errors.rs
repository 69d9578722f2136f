//! What can go wrong in an operation of the engine.

use crate::public_info::{changes_view, FileChanges, FileStatus};
use crate::report_printer::{report_changes, reportable, spec_report_changes};
use vstd::prelude::*;
use vstd::string::*;

verus! {

/// The result of an operation of the engine.
pub type VcsResult<T> = Result<T, VcsError>;

/// The kinds of failure.
#[derive(Debug, PartialEq, Eq)]
pub enum VcsError {
    /// An object that is referred to is not in the object store, or a path
    /// cannot be written in the working tree.
    Io,
    /// Stored bytes are not the stored form of what they should hold.
    Serialization,
    NotVcsRepository,
    AlreadyVcsRepository,
    NoChanges,
    CommitFromNonHead,
    BranchOffNonMaster,
    BranchAlreadyExists(String),
    UncomittedChanges { changes: FileChanges },
    NoCommit(String),
    NoBranch(String),
    MergeConflict { both_changed: FileChanges },
    MergeFromNotMasterHead,
}

/// A failure as plain values.
pub enum ErrorView {
    Io,
    Serialization,
    NotVcsRepository,
    AlreadyVcsRepository,
    NoChanges,
    CommitFromNonHead,
    BranchOffNonMaster,
    BranchAlreadyExists(Seq<char>),
    UncomittedChanges(Seq<(FileStatus, Seq<char>)>),
    NoCommit(Seq<char>),
    NoBranch(Seq<char>),
    MergeConflict(Seq<(FileStatus, Seq<char>)>),
    MergeFromNotMasterHead,
}

impl View for VcsError {
    type V = ErrorView;

    open spec fn view(&self) -> ErrorView {
        match self {
            VcsError::Io => ErrorView::Io,
            VcsError::Serialization => ErrorView::Serialization,
            VcsError::NotVcsRepository => ErrorView::NotVcsRepository,
            VcsError::AlreadyVcsRepository => ErrorView::AlreadyVcsRepository,
            VcsError::NoChanges => ErrorView::NoChanges,
            VcsError::CommitFromNonHead => ErrorView::CommitFromNonHead,
            VcsError::BranchOffNonMaster => ErrorView::BranchOffNonMaster,
            VcsError::BranchAlreadyExists(name) => ErrorView::BranchAlreadyExists(name@),
            VcsError::UncomittedChanges { changes } => ErrorView::UncomittedChanges(
                changes_view(changes@),
            ),
            VcsError::NoCommit(id) => ErrorView::NoCommit(id@),
            VcsError::NoBranch(name) => ErrorView::NoBranch(name@),
            VcsError::MergeConflict { both_changed } => ErrorView::MergeConflict(
                changes_view(both_changed@),
            ),
            VcsError::MergeFromNotMasterHead => ErrorView::MergeFromNotMasterHead,
        }
    }
}

/// The message that a failure is reported with.
pub open spec fn spec_message(error: ErrorView) -> Seq<char> {
    match error {
        ErrorView::Io => "An object of the repository cannot be read"@,
        ErrorView::Serialization => "An object of the repository cannot be deserialized"@,
        ErrorView::NotVcsRepository => "Not a vcs repository"@,
        ErrorView::AlreadyVcsRepository => "Already a vcs repository"@,
        ErrorView::NoChanges => "No changes to be committed"@,
        ErrorView::CommitFromNonHead => "You can create a new commit only from last one.\nAborting..."@,
        ErrorView::BranchOffNonMaster => "Creating a new branch is possible only when you are in the master branch.\nAborting..."@,
        ErrorView::BranchAlreadyExists(name) => "Branch "@ + name + " already exists.\nAborting..."@,
        ErrorView::UncomittedChanges(changes) => "Your local changes to the following files should be commited or dropped:\n"@
            + spec_report_changes(changes)
            + "Please commit your changes or drop them before you jump.\nAborting..."@,
        ErrorView::NoCommit(id) => "No commit with hash "@ + id + " exists.\nAborting..."@,
        ErrorView::NoBranch(_) => "No branch <branch_name> exists.\nAborting..."@,
        ErrorView::MergeConflict(changes) => "Merge conflict: file(s) has been changed both in master and branch\n"@
            + spec_report_changes(changes) + "Aborting..."@,
        ErrorView::MergeFromNotMasterHead => "The merge is possible only when you are in the last commit in master.\nAborting..."@,
    }
}

/// Whether the failure can be put into words: the changes it lists, if
/// any, are real changes.
pub open spec fn has_message(error: ErrorView) -> bool {
    match error {
        ErrorView::UncomittedChanges(changes) => reportable(changes),
        ErrorView::MergeConflict(changes) => reportable(changes),
        _ => true,
    }
}

impl VcsError {
    /// The message that the failure is reported with.
    pub fn message(&self) -> (text: String)
        requires
            has_message(self@),
        ensures
            text@ == spec_message(self@),
    {
        match self {
            VcsError::Io => String::from_str("An object of the repository cannot be read"),
            VcsError::Serialization => String::from_str(
                "An object of the repository cannot be deserialized",
            ),
            VcsError::NotVcsRepository => String::from_str("Not a vcs repository"),
            VcsError::AlreadyVcsRepository => String::from_str("Already a vcs repository"),
            VcsError::NoChanges => String::from_str("No changes to be committed"),
            VcsError::CommitFromNonHead => String::from_str(
                "You can create a new commit only from last one.\nAborting...",
            ),
            VcsError::BranchOffNonMaster => String::from_str(
                "Creating a new branch is possible only when you are in the master branch.\nAborting...",
            ),
            VcsError::BranchAlreadyExists(name) => {
                let mut text = String::from_str("Branch ");
                text.append(name.as_str());
                text.append(" already exists.\nAborting...");
                text
            },
            VcsError::UncomittedChanges { changes } => {
                let mut text = String::from_str(
                    "Your local changes to the following files should be commited or dropped:\n",
                );
                text.append(report_changes(changes).as_str());
                text.append("Please commit your changes or drop them before you jump.\nAborting...");
                text
            },
            VcsError::NoCommit(id) => {
                let mut text = String::from_str("No commit with hash ");
                text.append(id.as_str());
                text.append(" exists.\nAborting...");
                text
            },
            VcsError::NoBranch(_) => String::from_str("No branch <branch_name> exists.\nAborting..."),
            VcsError::MergeConflict { both_changed } => {
                let mut text = String::from_str(
                    "Merge conflict: file(s) has been changed both in master and branch\n",
                );
                text.append(report_changes(both_changed).as_str());
                text.append("Aborting...");
                text
            },
            VcsError::MergeFromNotMasterHead => String::from_str(
                "The merge is possible only when you are in the last commit in master.\nAborting...",
            ),
        }
    }
}

} // verus!
