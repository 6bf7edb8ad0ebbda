//! Reproducible container experiments: the scheduling rules, the content
//! hash of configurations, the container lifecycle bookkeeping and the
//! telemetry collectors' decisions, each stated and proved.
use vstd::prelude::*;

pub mod combinations;
pub mod hashing;
pub mod store;
pub mod scheduler;
pub mod runner;
pub mod collector;
pub mod logs;
pub mod layout;

verus! {

/// Relies on `std::path::PathBuf` as an opaque value: the library carries
/// paths to its caller and never looks inside them.
#[verifier::external_type_specification]
#[verifier::external_body]
pub struct ExPathBuf(std::path::PathBuf);

/// Where an experiment runs, and whether configurations that failed on an
/// earlier pass are run again.
pub struct RunConfig {
    pub results_dir: std::path::PathBuf,
    pub retry_failed: bool,
}

/// Where the results of an experiment are read back from.
pub struct AnalyseConfig {
    pub results_dir: std::path::PathBuf,
}

} // verus!
