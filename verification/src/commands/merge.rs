//! `merge`: merge a branch into `master`.

use crate::commands::text_result;
use crate::errors::{ErrorView, VcsResult};
use crate::file_manager::{WorkTree, WorkTreeView};
use crate::objects::Timestamp;
use crate::report_printer::{report_successful_commit, spec_report_commit};
use crate::repository::Repository;
use crate::vcs_manager::{
    commit_result, lemma_merge_reportable, merge_branch, spec_merge_branch, RepoModel,
};
use vstd::prelude::*;
use vstd::string::*;

verus! {

/// What the command gives for a merge made at the given time: the report
/// of the merge commit, or the failure of `merge_branch`.
pub open spec fn spec_run(
    repo: RepoModel,
    work: WorkTreeView,
    branch: Seq<char>,
    time: Timestamp,
) -> Result<Seq<char>, ErrorView> {
    match spec_merge_branch(repo, work, branch, time).result {
        Ok(info) => Ok("Successfully created merge commit:\n"@ + spec_report_commit(info)),
        Err(error) => Err(error),
    }
}

/// Merges a branch into `master` and reports the merge commit.
pub fn run(repo: &mut Repository, work: &mut WorkTree, branch: &str) -> (done: VcsResult<String>)
    ensures
        final(work)@.root == old(work)@.root,
        exists|time: Timestamp|
            {
                &&& text_result(done) == #[trigger] spec_run(
                    old(repo).model(),
                    old(work)@,
                    branch@,
                    time,
                )
                &&& final(repo).model() == spec_merge_branch(
                    old(repo).model(),
                    old(work)@,
                    branch@,
                    time,
                ).repo
                &&& final(work)@.entries == spec_merge_branch(
                    old(repo).model(),
                    old(work)@,
                    branch@,
                    time,
                ).entries
            },
{
    let merged = merge_branch(repo, work, branch);
    let ghost time = choose|time: Timestamp|
        {
            &&& commit_result(merged) == (#[trigger] spec_merge_branch(
                old(repo).model(),
                old(work)@,
                branch@,
                time,
            )).result
            &&& repo.model() == spec_merge_branch(old(repo).model(), old(work)@, branch@, time).repo
            &&& work@.entries == spec_merge_branch(
                old(repo).model(),
                old(work)@,
                branch@,
                time,
            ).entries
        };
    match merged {
        Ok(info) => {
            proof {
                lemma_merge_reportable(old(repo).model(), old(work)@, branch@, time);
            }
            let mut report = String::from_str("Successfully created merge commit:\n");
            report.append(report_successful_commit(&info).as_str());
            assert(text_result(Ok(report)) == spec_run(
                old(repo).model(),
                old(work)@,
                branch@,
                time,
            ));
            Ok(report)
        },
        Err(error) => {
            assert(text_result(Err(error)) == spec_run(
                old(repo).model(),
                old(work)@,
                branch@,
                time,
            ));
            Err(error)
        },
    }
}

} // verus!
