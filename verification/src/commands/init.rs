//! `init`: make a repository of a directory and commit what is in it.

use crate::errors::{ErrorView, VcsResult};
use crate::file_manager::{find_entry, WorkTree, WorkTreeView, VCS_ROOT};
use crate::objects::Timestamp;
use crate::report_printer::{report_successful_commit, report_successful_init, spec_report_commit};
use crate::repository::Repository;
use crate::vcs_manager::{
    commit_result, init_vcs_directory, lemma_work_changes, make_commit, spec_control_directory,
    spec_make_commit, spec_new_repository,
};
use vstd::prelude::*;
use vstd::string::*;

verus! {

/// The working tree once the control directory is made in its root.
pub open spec fn spec_initialized(work: WorkTreeView) -> WorkTreeView {
    WorkTreeView { root: work.root, entries: work.entries.push(spec_control_directory()) }
}

/// The report of an `init` whose first commit is made at the given time.
pub open spec fn spec_report(work: WorkTreeView, time: Timestamp) -> Seq<char> {
    "Initialized VCS repository in "@ + work.root + "\n"@ + "Created commit:\n"@
        + spec_report_commit(
        spec_make_commit(
            spec_new_repository(),
            spec_initialized(work),
            "Initial commit"@,
            time,
        ).result->Ok_0,
    )
}

/// Makes the control directory and a first commit of all that the
/// working tree holds, and reports both. Fails as `init_vcs_directory`
/// does; the first commit never fails.
pub fn run(work: &mut WorkTree) -> (done: VcsResult<(Repository, String)>)
    ensures
        final(work)@.root == old(work)@.root,
        match find_entry(old(work)@.entries, VCS_ROOT@) {
            None => done is Ok && final(work)@ == spec_initialized(old(work)@) && exists|
                time: Timestamp,
            |
                {
                    &&& done.unwrap().0.model() == (#[trigger] spec_make_commit(
                        spec_new_repository(),
                        spec_initialized(old(work)@),
                        "Initial commit"@,
                        time,
                    )).repo
                    &&& done.unwrap().1@ == spec_report(old(work)@, time)
                },
            Some(i) => done is Err && final(work)@ == old(work)@ && done.unwrap_err()@ == (
            if old(work)@.entries[i] is Dir {
                ErrorView::AlreadyVcsRepository
            } else {
                ErrorView::Io
            }),
        },
{
    let mut repo = match init_vcs_directory(work) {
        Ok(repo) => repo,
        Err(error) => {
            return Err(error);
        },
    };
    let mut report = report_successful_init(work.root().as_str());
    let ghost start = repo.model();
    let made = make_commit(&mut repo, work, "Initial commit");
    let ghost time = choose|time: Timestamp|
        {
            &&& commit_result(made) == (#[trigger] spec_make_commit(
                start,
                work@,
                "Initial commit"@,
                time,
            )).result
            &&& repo.model() == spec_make_commit(start, work@, "Initial commit"@, time).repo
        };
    assert(work@ == spec_initialized(old(work)@));
    match made {
        Ok(info) => {
            proof {
                lemma_work_changes(start, work@);
            }
            report.append("Created commit:\n");
            report.append(report_successful_commit(&info).as_str());
            assert(report@ =~= spec_report(old(work)@, time));
            Ok((repo, report))
        },
        Err(error) => {
            assert(false);
            Err(error)
        },
    }
}

} // verus!
