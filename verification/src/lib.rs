//! A solver's workbench for a lock of twelve positions in two circles of six,
//! on which twelve activations have to be placed, one on each position.
//!
//! The heart is [`fact_solver`]: a database of facts about which activation
//! must or cannot be on which position, each with its justifications; a
//! consolidation that draws what follows until nothing is left to draw; a
//! tree of assumptions to search with; and explanations of why a fact holds.
//! [`index`], [`rule`] and [`lock`] say what the rules of a lock ask of
//! positions, [`assignment`] holds placements, [`command`] reads the commands
//! of a session, and [`solver`] is a plainer search that keeps, for each
//! position, the set of activations that may still go there.

pub mod activation;
pub mod assignment;
pub mod command;
pub mod fact_solver;
pub mod grid;
pub mod index;
pub mod lock;
pub mod rule;
pub mod rune;
pub mod solver;
pub mod solver_nodes;
pub mod text;

pub use lock::{RuneLock, RuneLockError};
