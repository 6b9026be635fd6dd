//! An interactive fuzzy-selection engine.
//!
//! Given an immutable list of candidate strings, the engine ranks them
//! against a user-edited filter pattern, maintains a scrollable viewport
//! and a set of toggled selections, computes the screen layout for a
//! terminal, and assembles the final selection when the user confirms.
//! All terminal I/O is left to the caller: the engine itself is a pure
//! state machine over plain values.

pub mod engine;
pub mod oracle;
pub mod order;
pub mod rank;
pub mod render;
pub mod selection;
pub mod viewport;

pub use engine::select;
