//! Batch media-conversion library: discovery of candidate files over a
//! modeled directory tree, destination-path computation, user-input parsing,
//! and a bounded-concurrency execution engine for external converter
//! processes, expressed as a state machine whose transitions are verified.

pub mod discover;
pub mod engine;
pub mod paths;
pub mod text;
