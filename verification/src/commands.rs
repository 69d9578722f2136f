//! The commands of the command line, each as the engine's operation
//! followed by its report.

use crate::errors::{ErrorView, VcsResult};
use vstd::prelude::*;

pub mod commit;
pub mod init;
pub mod jump;
pub mod merge;
pub mod new_branch;
pub mod status;

verus! {

/// The outcome of a command that reports in text, as plain values.
pub open spec fn text_result(done: VcsResult<String>) -> Result<Seq<char>, ErrorView> {
    match done {
        Ok(text) => Ok(text@),
        Err(error) => Err(error@),
    }
}

} // verus!
