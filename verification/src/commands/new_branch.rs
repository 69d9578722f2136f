//! `new_branch`: branch off `master`.

use crate::commands::text_result;
use crate::errors::{ErrorView, VcsResult};
use crate::report_printer::{report_creating_new_branch, spec_report_new_branch};
use crate::repository::Repository;
use crate::vcs_manager::{create_branch, spec_create_branch, RepoModel};
use vstd::prelude::*;

verus! {

/// What the command gives: the report of the new branch, or the failure
/// of `create_branch`.
pub open spec fn spec_run(repo: RepoModel, name: Seq<char>) -> Result<Seq<char>, ErrorView> {
    match spec_create_branch(repo, name).result {
        Ok(info) => Ok(spec_report_new_branch(info)),
        Err(error) => Err(error),
    }
}

/// Creates a branch and reports it.
pub fn run(repo: &mut Repository, name: &str) -> (done: VcsResult<String>)
    ensures
        text_result(done) == spec_run(old(repo).model(), name@),
        final(repo).model() == spec_create_branch(old(repo).model(), name@).repo,
{
    match create_branch(repo, name) {
        Ok(info) => Ok(report_creating_new_branch(&info)),
        Err(error) => Err(error),
    }
}

} // verus!
