//! The verified core of the harness that runs agents over a corpus of C programs,
//! keeps what they produced, and scores it.

#![allow(unused_imports)]

pub mod agent_health;
pub mod agents;
pub mod analyse;
pub mod artifact;
pub mod battery;
pub mod benchmark;
pub mod bytes;
pub mod cache;
pub mod chain;
pub mod cli;
pub mod digest;
pub mod domain;
pub mod eval;
pub mod exclusions;
pub mod fuzz_gate;
pub mod invocation;
pub mod io;
pub mod json;
pub mod names;
pub mod opencode;
pub mod paths;
pub mod patterns;
pub mod program;
pub mod store;
pub mod text;
pub mod toml;
