//! What the harness grants the programs that it starts.

pub mod sandbox;
