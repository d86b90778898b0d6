//! Verified logic of a helper that runs Python scripts, keeps the history of
//! their versions, compares versions line by line, builds error graphs from
//! tracebacks, and ranks past fixes.

pub mod text;
pub mod diff;
pub mod commands;
pub mod history;
pub mod graph;
pub mod ranking;
pub mod stream;
pub mod setup;
pub mod run;
