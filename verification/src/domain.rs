//! The rules that need no disk and no process: what a run's transcript proves, what a file in a
//! tree is, and what a path inside a tree may be.

pub mod contents;
pub mod health;
pub mod relpath;
