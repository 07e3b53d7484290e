//! Keystroke-sequence matching engine.
//!
//! A prefix tree maps ordered sequences of key codes to shell command
//! strings, and a timeout-driven state machine consumes a live stream of
//! key codes, walks the tree incrementally, and decides when to dispatch
//! a command, keep accumulating, reset, or shut down.

pub mod config;
pub mod devices;
pub mod dispatch;
pub mod events;
pub mod key_codes;
pub mod key_tree;
pub mod matcher;
pub mod numbers;
pub mod text;

pub use key_tree::KeySequence;
pub use key_tree::KTree;
