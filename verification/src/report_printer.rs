//! The text of the reports that follow a successful operation.

use crate::public_info::{
    changes_view, logs_view, CommitLog, CommitLogView, FileStatus, NewCommitInfo, NewCommitView,
    StateInfo, StateInfoView,
};
use crate::public_info::spec_into_pathspec;
use vstd::prelude::*;
use vstd::string::*;

verus! {

/// Whether every change of the list is a real change: none is
/// `Unchanged`.
pub open spec fn reportable(changes: Seq<(FileStatus, Seq<char>)>) -> bool {
    forall|i: int| 0 <= i < changes.len() ==> (#[trigger] changes[i]).0 != FileStatus::Unchanged
}

/// The line that reports one change.
pub open spec fn spec_report_change(change: (FileStatus, Seq<char>)) -> Seq<char> {
    (if change.0 == FileStatus::Added {
        "  added: "@
    } else {
        "  modified: "@
    }) + change.1 + "\n"@
}

/// The lines that report a list of changes, in its order.
pub open spec fn spec_report_changes(changes: Seq<(FileStatus, Seq<char>)>) -> Seq<char>
    decreases changes.len(),
{
    if changes.len() == 0 {
        Seq::empty()
    } else {
        spec_report_changes(changes.drop_last()) + spec_report_change(changes.last())
    }
}

/// The line that names the current branch.
pub fn report_current_branch(branch_name: &str) -> (report: String)
    ensures
        report@ == "On branch "@ + branch_name@ + "\n"@,
{
    let mut report = String::from_str("On branch ");
    report.append(branch_name);
    report.append("\n");
    report
}

/// What `report_creating_new_branch` writes.
pub open spec fn spec_report_new_branch(info: StateInfoView) -> Seq<char> {
    "Created a new branch "@ + info.branch + (match info.commit {
        Some(commit) => " from master's commit "@ + commit,
        None => Seq::empty(),
    }) + "\n"@
}

/// The report of a new branch.
pub fn report_creating_new_branch(info: &StateInfo) -> (report: String)
    ensures
        report@ == spec_report_new_branch(info@),
{
    let mut report = String::from_str("Created a new branch ");
    report.append(info.branch.as_str());
    if let Some(commit) = &info.commit {
        report.append(" from master's commit ");
        report.append(commit.as_str());
        assert(report@ =~= "Created a new branch "@ + info@.branch + (" from master's commit "@
            + commit@));
    } else {
        assert(report@ =~= "Created a new branch "@ + info@.branch + Seq::<char>::empty());
    }
    report.append("\n");
    report
}

/// The report of a new repository.
pub fn report_successful_init(path: &str) -> (report: String)
    ensures
        report@ == "Initialized VCS repository in "@ + path@ + "\n"@,
{
    let mut report = String::from_str("Initialized VCS repository in ");
    report.append(path);
    report.append("\n");
    report
}

/// What `report_successful_commit` writes.
pub open spec fn spec_report_commit(info: NewCommitView) -> Seq<char> {
    "["@ + info.branch + " "@ + info.human_id + "] "@ + info.message + "\n"@ + spec_report_changes(
        info.changes,
    )
}

/// The report of a new commit: its branch, id and message, then its
/// changes.
pub fn report_successful_commit(info: &NewCommitInfo) -> (report: String)
    requires
        reportable(info@.changes),
    ensures
        report@ == spec_report_commit(info@),
{
    let mut report = String::from_str("[");
    report.append(info.branch.as_str());
    report.append(" ");
    report.append(info.human_id.as_str());
    report.append("] ");
    report.append(info.message.as_str());
    report.append("\n");
    report.append(report_changes(&info.changes).as_str());
    report
}

/// The lines that report a list of changes.
pub fn report_changes(changes: &Vec<(FileStatus, String)>) -> (report: String)
    requires
        reportable(changes_view(changes@)),
    ensures
        report@ == spec_report_changes(changes_view(changes@)),
{
    let mut report = String::new();
    let ghost all = changes_view(changes@);
    let mut i: usize = 0;
    assert(all.take(0) =~= Seq::empty());
    while i < changes.len()
        invariant
            i <= changes.len(),
            all == changes_view(changes@),
            reportable(all),
            report@ == spec_report_changes(all.take(i as int)),
        decreases changes.len() - i,
    {
        let ghost before = report@;
        proof {
            assert(all.take(i + 1).drop_last() =~= all.take(i as int));
            assert(all.take(i + 1).last() == all[i as int]);
            assert(all[i as int] == (changes@[i as int].0, changes@[i as int].1@));
        }
        match changes[i].0 {
            FileStatus::Added => {
                report.append("  added: ");
            },
            FileStatus::Modified => {
                report.append("  modified: ");
            },
            FileStatus::Unchanged => {
                assert(false);
            },
        }
        report.append(changes[i].1.as_str());
        report.append("\n");
        assert(report@ =~= before + spec_report_change(all[i as int]));
        i += 1;
    }
    assert(all.take(i as int) =~= all);
    report
}

/// The report of a jump to a commit.
pub fn report_successful_jump_to_commit(info: &StateInfo) -> (report: String)
    requires
        info.commit is Some,
    ensures
        report@ == "Successfully jumped to commit "@ + info@.commit.unwrap() + ". Current branch: "@
            + info@.branch + "\n"@,
{
    let mut report = String::from_str("Successfully jumped to commit ");
    match &info.commit {
        Some(commit) => {
            report.append(commit.as_str());
        },
        None => {},
    }
    report.append(". Current branch: ");
    report.append(info.branch.as_str());
    report.append("\n");
    report
}

/// What `report_successful_jump_to_branch` writes.
pub open spec fn spec_report_jump_to_branch(info: StateInfoView) -> Seq<char> {
    "Successfully jumped to branch "@ + info.branch + "."@ + (match info.commit {
        Some(commit) => " Current commit: "@ + commit + "."@,
        None => Seq::empty(),
    }) + "\n"@
}

/// The report of a jump to a branch.
pub fn report_successful_jump_to_branch(info: &StateInfo) -> (report: String)
    ensures
        report@ == spec_report_jump_to_branch(info@),
{
    let mut report = String::from_str("Successfully jumped to branch ");
    report.append(info.branch.as_str());
    report.append(".");
    let ghost head = report@;
    if let Some(commit) = &info.commit {
        report.append(" Current commit: ");
        report.append(commit.as_str());
        report.append(".");
        assert(report@ =~= head + (" Current commit: "@ + commit@ + "."@));
    } else {
        assert(report@ =~= head + Seq::<char>::empty());
    }
    report.append("\n");
    report
}

/// The changes of a list keep their statuses when their paths are made
/// relative.
pub proof fn lemma_pathspec_reportable(root: Seq<char>, changes: Seq<(FileStatus, Seq<char>)>)
    requires
        reportable(changes),
    ensures
        reportable(spec_into_pathspec(root, changes)),
{
    assert forall|i: int| 0 <= i < spec_into_pathspec(root, changes).len() implies (
    #[trigger] spec_into_pathspec(root, changes)[i]).0 != FileStatus::Unchanged by {
        assert(changes[i].0 != FileStatus::Unchanged);
    }
}

/// The report of one history entry, with its date as it is to be shown.
pub open spec fn spec_display_log(log: CommitLogView, date: Seq<char>) -> Seq<char> {
    "commit "@ + log.human_id + "
Date: "@ + date + "
Message: "@ + log.message + "
"@ + (
    if log.changes.len() == 0 {
        "No changes
"@
    } else {
        "Changes:
"@ + spec_report_changes(log.changes)
    })
}

/// The report of a history: the entries in their order, with an empty
/// line between one and the next.
pub open spec fn spec_display_logs(logs: Seq<CommitLogView>, dates: Seq<Seq<char>>) -> Seq<char>
    decreases logs.len(),
{
    if logs.len() == 0 {
        Seq::empty()
    } else {
        spec_display_logs(logs.drop_last(), dates.drop_last()) + (if logs.len() > 1 {
            "
"@
        } else {
            Seq::empty()
        }) + spec_display_log(logs.last(), dates.last())
    }
}

/// Whether every entry of a history lists real changes only.
pub open spec fn logs_reportable(logs: Seq<CommitLogView>) -> bool {
    forall|i: int| 0 <= i < logs.len() ==> reportable((#[trigger] logs[i]).changes)
}

/// The report of a history. `dates` holds, for each entry in turn, the
/// entry's time as it is to be shown.
pub fn display_logs(logs: &Vec<CommitLog>, dates: &Vec<String>) -> (report: String)
    requires
        dates@.len() == logs@.len(),
        logs_reportable(logs_view(logs@)),
    ensures
        report@ == spec_display_logs(logs_view(logs@), dates@.map_values(|date: String| date@)),
{
    let ghost all = logs_view(logs@);
    let ghost shown = dates@.map_values(|date: String| date@);
    let mut report = String::new();
    let mut i: usize = 0;
    assert(all.take(0) =~= Seq::empty());
    while i < logs.len()
        invariant
            i <= logs.len(),
            dates@.len() == logs@.len(),
            all == logs_view(logs@),
            shown == dates@.map_values(|date: String| date@),
            logs_reportable(all),
            report@ == spec_display_logs(all.take(i as int), shown.take(i as int)),
        decreases logs.len() - i,
    {
        let commit = &logs[i];
        let ghost before = report@;
        proof {
            assert(all.take(i + 1).drop_last() =~= all.take(i as int));
            assert(shown.take(i + 1).drop_last() =~= shown.take(i as int));
            assert(all.take(i + 1).last() == commit@);
            assert(shown.take(i + 1).last() == dates@[i as int]@);
            assert(reportable(all[i as int].changes));
        }
        if i > 0 {
            report.append("\n");
        }
        let ghost gap = report@;
        report.append("commit ");
        report.append(commit.human_id.as_str());
        report.append("\nDate: ");
        report.append(dates[i].as_str());
        report.append("\nMessage: ");
        report.append(commit.message.as_str());
        report.append("\n");
        if commit.changes.len() == 0 {
            report.append("No changes\n");
        } else {
            report.append("Changes:\n");
            report.append(report_changes(&commit.changes).as_str());
        }
        proof {
            assert(report@ =~= gap + spec_display_log(commit@, dates@[i as int]@));
            assert(gap =~= before + (if i > 0 {
                "\n"@
            } else {
                Seq::empty()
            }));
        }
        i += 1;
    }
    assert(all.take(i as int) =~= all);
    assert(shown.take(i as int) =~= shown);
    report
}

} // verus!
