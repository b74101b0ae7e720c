//! Where the history lies inside a workspace.

use vstd::prelude::*;
use vstd::string::*;

verus! {

/// The directory of the history, below the workspace.
pub const HISTORY_DIR: &'static str = "heartbeat";

/// The file that holds the history.
pub const HISTORY_FILE: &'static str = "history.db";

/// The names that make up a path, outermost first.
pub open spec fn names(path: Seq<String>) -> Seq<Seq<char>> {
    path.map_values(|name: String| name@)
}

/// The path of the history database of a workspace. Both paths are given by
/// the names of their components, outermost first.
pub fn db_path(workspace_dir: &Vec<String>) -> (path: Vec<String>)
    ensures
        names(path@) == names(workspace_dir@).push(HISTORY_DIR@).push(HISTORY_FILE@),
        path@.len() == workspace_dir@.len() + 2,
        forall|i: int|
            0 <= i < workspace_dir@.len() ==> (#[trigger] path@[i])@ == workspace_dir@[i]@,
        path@[workspace_dir@.len() as int]@ == "heartbeat"@,
        path@[path@.len() - 1]@ == "history.db"@,
{
    let mut path: Vec<String> = workspace_dir.clone();
    path.push(HISTORY_DIR.to_owned());
    path.push(HISTORY_FILE.to_owned());
    assert(names(path@) =~= names(workspace_dir@).push(HISTORY_DIR@).push(HISTORY_FILE@));
    path
}

} // verus!
