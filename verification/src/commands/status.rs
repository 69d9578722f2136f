//! `status`: the current branch and the changes of the working tree.

use crate::errors::VcsResult;
use crate::file_manager::{WorkTree, WorkTreeView};
use crate::report_printer::{report_changes, report_current_branch, spec_report_changes};
use crate::repository::Repository;
use crate::vcs_manager::{get_changes, get_state, lemma_work_changes, spec_get_changes, RepoModel};
use vstd::prelude::*;
use vstd::string::*;

verus! {

/// What the command reports: the current branch, and the changes to be
/// committed or that there are none.
pub open spec fn spec_run(repo: RepoModel, work: WorkTreeView) -> Seq<char> {
    let changes = spec_get_changes(repo, work);
    "On branch "@ + repo.state.current_branch + "\n"@ + (if changes.len() == 0 {
        "No changes to be committed\n"@
    } else {
        "Changes to be committed:\n"@ + spec_report_changes(changes)
    })
}

/// Reports the current branch and the changes of the working tree.
pub fn run(repo: &Repository, work: &WorkTree) -> (done: VcsResult<String>)
    ensures
        done is Ok,
        done.unwrap()@ == spec_run(repo.model(), work@),
{
    let state = match get_state(repo) {
        Ok(state) => state,
        Err(error) => {
            return Err(error);
        },
    };
    let mut report = report_current_branch(state.branch.as_str());
    let changes = match get_changes(repo, work) {
        Ok(changes) => changes,
        Err(error) => {
            return Err(error);
        },
    };
    proof {
        lemma_work_changes(repo.model(), work@);
    }
    let ghost head = report@;
    if changes.len() == 0 {
        report.append("No changes to be committed\n");
    } else {
        report.append("Changes to be committed:\n");
        report.append(report_changes(&changes).as_str());
        assert(report@ =~= head + ("Changes to be committed:\n"@ + spec_report_changes(
            spec_get_changes(repo.model(), work@),
        )));
    }
    Ok(report)
}

} // verus!
