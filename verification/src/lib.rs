//! Reconciles a declared "current" install state with a declared "target"
//! state, both written as line-oriented build-script text, and computes the
//! ordered shell commands that transform the one into the other: removals of
//! no-longer-declared actions in reverse declaration order, then installs and
//! updates in declaration order.

pub mod cargo_handling;
pub mod command;
pub mod command_computing;
pub mod common;
pub mod errors;
pub mod git_handling;
pub mod laws;
pub mod pixi_handling;
pub mod strutil;
pub mod table;
