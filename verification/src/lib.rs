//! Verified core of a disk-space maintenance menu tool.
//!
//! The library models the tool's logic as plain data and pure functions:
//! an ordered registry of selectable menu entries, the mapping from a menu
//! key to an action, the construction of the external-command invocation
//! each action issues, and the folding of a finished command's captured
//! output into a success or failure value. Terminal interaction and process
//! spawning live outside the library and exchange plain values with it.

pub mod dispatch;
pub mod registry;
pub mod runner;
pub mod text;
