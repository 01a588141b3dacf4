//! Structural diff between two symbol graphs of the same game.
pub mod classify;
pub mod engine;
pub mod fingerprint;
pub mod laws;
pub mod swap;
pub mod types;
