//! What to answer a request for a path with.
use vstd::prelude::*;

verus! {

/// The answer to a request for a path under the root.
#[derive(Clone, Copy, Debug, PartialEq, Eq, Structural)]
pub enum RequestAction {
    /// Show the listing of the directory.
    List,
    /// Send the file.
    Download,
}

/// The answer to a request: a directory is always listed, and so is any
/// other path where the request names a task.
pub open spec fn action_for(task: Seq<char>, is_dir: bool) -> RequestAction {
    if task.len() > 0 || is_dir {
        RequestAction::List
    } else {
        RequestAction::Download
    }
}

/// The answer to a request for a path. `task` is the task that the request
/// names, empty where it names none; `is_dir` tells whether the path is
/// that of a directory.
pub fn request_action(task: &str, is_dir: bool) -> (action: RequestAction)
    ensures
        action == action_for(task@, is_dir),
{
    if !task.is_empty() || is_dir {
        RequestAction::List
    } else {
        RequestAction::Download
    }
}

} // verus!
