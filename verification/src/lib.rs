//! Compresses the output of shell commands into short summaries, driven by
//! declarative filter rules.
//!
//! Text is modelled as `Seq<char>`; every function states its result over
//! that model.

pub mod pattern;
pub mod text;
pub mod filter;
pub mod config;
pub mod table;
pub mod runner;
pub mod hook;
pub mod rewrite;
