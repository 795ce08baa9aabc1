//! Decides how an explicit `.git` write grant of a sandbox profile is carried over to the
//! administrative directories of a linked Git worktree.

pub mod carried_rules;
pub mod dialogue;
pub mod expansion_laws;
pub mod findings;
pub mod foundations;
pub mod glob;
pub mod grant_laws;
pub mod laws;
pub mod model;
pub mod path;
pub mod permissions;
pub mod protection;
pub mod repetition;
pub mod resolution;
pub mod restrictions;
pub mod worktree;
