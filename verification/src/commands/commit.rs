//! `commit`: record the changes of the working tree.

use crate::commands::text_result;
use crate::errors::{ErrorView, VcsResult};
use crate::file_manager::{WorkTree, WorkTreeView};
use crate::objects::Timestamp;
use crate::report_printer::{report_successful_commit, spec_report_commit};
use crate::repository::Repository;
use crate::vcs_manager::{lemma_work_changes, make_commit, spec_make_commit, RepoModel};
use vstd::prelude::*;

verus! {

/// What the command gives for a commit made at the given time: the
/// report of the new commit, or the failure of `make_commit`.
pub open spec fn spec_run(
    repo: RepoModel,
    work: WorkTreeView,
    message: Seq<char>,
    time: Timestamp,
) -> Result<Seq<char>, ErrorView> {
    match spec_make_commit(repo, work, message, time).result {
        Ok(info) => Ok(spec_report_commit(info)),
        Err(error) => Err(error),
    }
}

/// Makes a commit and reports it.
pub fn run(repo: &mut Repository, work: &WorkTree, message: &str) -> (done: VcsResult<String>)
    ensures
        exists|time: Timestamp|
            {
                &&& text_result(done) == #[trigger] spec_run(
                    old(repo).model(),
                    work@,
                    message@,
                    time,
                )
                &&& final(repo).model() == spec_make_commit(
                    old(repo).model(),
                    work@,
                    message@,
                    time,
                ).repo
            },
{
    let made = make_commit(repo, work, message);
    let ghost time = choose|time: Timestamp|
        {
            &&& crate::vcs_manager::commit_result(made) == (#[trigger] spec_make_commit(
                old(repo).model(),
                work@,
                message@,
                time,
            )).result
            &&& repo.model() == spec_make_commit(old(repo).model(), work@, message@, time).repo
        };
    match made {
        Ok(info) => {
            proof {
                lemma_work_changes(old(repo).model(), work@);
            }
            let report = report_successful_commit(&info);
            assert(text_result(Ok(report)) == spec_run(old(repo).model(), work@, message@, time));
            Ok(report)
        },
        Err(error) => {
            assert(text_result(Err(error)) == spec_run(old(repo).model(), work@, message@, time));
            Err(error)
        },
    }
}

} // verus!
