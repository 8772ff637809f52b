//! Commit-message suggestions from staged Git changes.

pub mod bytes;
pub mod cli;
pub mod duration;
pub mod generation;
pub mod git;
pub mod number;
pub mod ollama;
pub mod order;
pub mod path;
pub mod run;
pub mod session;
pub mod syntax;
pub mod terminal;
pub mod text;
