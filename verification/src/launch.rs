//! Handing a file to the program that the platform opens it with.

use crate::path::{leading_names, EntryPath};
use vstd::prelude::*;

verus! {

/// Why a file could not be handed over.
#[derive(Clone, Copy, Debug, PartialEq, Eq, Structural)]
pub enum OsLaunchError {
    /// The path names no entry inside a folder, so there is no folder to start in.
    NoParent,
    /// The platform did not start the program.
    NotStarted,
}

/// What to start: the file to open, and the folder to start in.
pub struct Launch {
    pub target: EntryPath,
    pub working_directory: EntryPath,
}

/// Plans the opening of the file at `path`: the program starts in the folder
/// that holds the file. A path without such a folder is refused.
pub fn open_file(path: &EntryPath) -> (plan: Result<Launch, OsLaunchError>)
    ensures
        path@.len() <= 1 <==> plan == Err::<Launch, OsLaunchError>(OsLaunchError::NoParent),
        path@.len() > 1 <==> plan is Ok,
        plan is Ok ==> plan->Ok_0.target@ == path@ && plan->Ok_0.working_directory@
            == path@.drop_last(),
{
    let n: usize = path.segments.len();
    if n <= 1 {
        return Err(OsLaunchError::NoParent);
    }
    let target = EntryPath { segments: leading_names(&path.segments, n) };
    let working_directory = EntryPath { segments: leading_names(&path.segments, n - 1) };
    proof {
        assert(path.segments@.take(n as int) =~= path.segments@);
        assert(working_directory@ =~= path@.drop_last());
    }
    Ok(Launch { target, working_directory })
}

} // verus!
