//! Reading what a run left: manifests, code metrics and the published tables.

pub mod cargo_toml;
pub mod metrics;
pub mod numbers;
pub mod records;
pub mod report;
pub mod tractor;
