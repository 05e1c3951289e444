//! Project discovery: the decisions of the walk up the directory tree that
//! looks for a `.sysml/config.toml` file.  The filesystem side (testing for
//! the file, loading it, taking parents) belongs to the caller, which asks
//! [`walk_step`] what to do after each directory it examines.
use vstd::prelude::*;

verus! {

/// How many directories the walk examines at most.
pub const MAX_WALK_DEPTH: usize = 50;

/// The directory that marks a project root.
pub const PROJECT_DIR: &'static str = ".sysml";

/// The configuration file inside the project directory.
pub const CONFIG_FILE: &'static str = "config.toml";

/// What the walk does after examining a directory.
#[derive(Debug, Clone, Copy, PartialEq, Eq, Structural)]
pub enum WalkAction {
    /// The directory holds the configuration: load it and stop.
    Load,
    /// Go on with the parent directory.
    Ascend,
    /// Give up: no project found.
    Stop,
}

/// The decision after examining the directory at `depth` (0 for the start
/// directory): load its configuration when it has one; otherwise go up
/// while the limit allows and there is a parent different from it.
pub open spec fn walk_decision(depth: nat, config_found: bool, parent_differs: bool) -> WalkAction {
    if config_found {
        WalkAction::Load
    } else if depth + 1 < MAX_WALK_DEPTH && parent_differs {
        WalkAction::Ascend
    } else {
        WalkAction::Stop
    }
}

/// Decide the next move of the walk.
pub fn walk_step(depth: usize, config_found: bool, parent_differs: bool) -> (r: WalkAction)
    requires
        depth < MAX_WALK_DEPTH,
    ensures
        r == walk_decision(depth as nat, config_found, parent_differs),
{
    if config_found {
        WalkAction::Load
    } else if depth + 1 < MAX_WALK_DEPTH && parent_differs {
        WalkAction::Ascend
    } else {
        WalkAction::Stop
    }
}

/// The walk examines at most `MAX_WALK_DEPTH` directories: from the last
/// one it never ascends.
pub proof fn law_walk_is_bounded(config_found: bool, parent_differs: bool)
    ensures
        walk_decision((MAX_WALK_DEPTH - 1) as nat, config_found, parent_differs) != WalkAction::Ascend,
{
}

} // verus!
