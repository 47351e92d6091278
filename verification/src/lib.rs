//! Branch and worktree resolution for a git worktree switcher.
//!
//! The crate reconciles three overlapping sets of branch names (branches
//! that already have a worktree, local branches, and remote branches) into
//! one ranked list of candidates, and decides what has to happen on disk for
//! a chosen branch. Every function is a pure function of its arguments: the
//! caller runs git, asks the user, and hands the answers in.

pub mod catalog;
pub mod decider;
pub mod error;
pub mod inventory;
pub mod model;
pub mod planner;
pub mod queries;
pub mod ranking;
pub mod resolver;
pub mod selector;
pub mod shell;
pub mod text;
pub mod tiers;
