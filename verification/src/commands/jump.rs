//! `jump`: move HEAD to a commit or to a branch.

use crate::commands::text_result;
use crate::errors::{ErrorView, VcsResult};
use crate::file_manager::{WorkTree, WorkTreeView};
use crate::report_printer::{
    report_successful_jump_to_branch, report_successful_jump_to_commit, spec_report_jump_to_branch,
};
use crate::repository::Repository;
use crate::vcs_manager::{
    jump_to_branch, jump_to_commit, spec_jump_to_branch, spec_jump_to_commit, RepoModel,
};
use vstd::prelude::*;

verus! {

/// What `to_commit` gives: the report of the jump, or its failure.
pub open spec fn spec_to_commit(
    repo: RepoModel,
    work: WorkTreeView,
    id: Seq<char>,
) -> Result<Seq<char>, ErrorView> {
    match spec_jump_to_commit(repo, work, id).result {
        Ok(info) => Ok(
            "Successfully jumped to commit "@ + info.commit.unwrap() + ". Current branch: "@
                + info.branch + "\n"@,
        ),
        Err(error) => Err(error),
    }
}

/// Jumps to a commit and reports it.
pub fn to_commit(repo: &mut Repository, work: &mut WorkTree, id: &str) -> (done: VcsResult<String>)
    ensures
        final(work)@.root == old(work)@.root,
        text_result(done) == spec_to_commit(old(repo).model(), old(work)@, id@),
        final(repo).model() == spec_jump_to_commit(old(repo).model(), old(work)@, id@).repo,
        final(work)@.entries == spec_jump_to_commit(old(repo).model(), old(work)@, id@).entries,
{
    match jump_to_commit(repo, work, id) {
        Ok(state) => Ok(report_successful_jump_to_commit(&state)),
        Err(error) => Err(error),
    }
}

/// What `to_branch` gives: the report of the jump, or its failure.
pub open spec fn spec_to_branch(
    repo: RepoModel,
    work: WorkTreeView,
    branch_name: Seq<char>,
) -> Result<Seq<char>, ErrorView> {
    match spec_jump_to_branch(repo, work, branch_name).result {
        Ok(info) => Ok(spec_report_jump_to_branch(info)),
        Err(error) => Err(error),
    }
}

/// Jumps to a branch and reports it.
pub fn to_branch(
    repo: &mut Repository,
    work: &mut WorkTree,
    branch_name: &str,
) -> (done: VcsResult<String>)
    ensures
        final(work)@.root == old(work)@.root,
        text_result(done) == spec_to_branch(old(repo).model(), old(work)@, branch_name@),
        final(repo).model()
            == spec_jump_to_branch(old(repo).model(), old(work)@, branch_name@).repo,
        final(work)@.entries == spec_jump_to_branch(
            old(repo).model(),
            old(work)@,
            branch_name@,
        ).entries,
{
    match jump_to_branch(repo, work, branch_name) {
        Ok(state) => Ok(report_successful_jump_to_branch(&state)),
        Err(error) => Err(error),
    }
}

} // verus!
