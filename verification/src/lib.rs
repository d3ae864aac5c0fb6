//! Verified core of the FAI3 fairness-evaluation backend.
//!
//! The modules hold the logic of the canister as plain-data functions with
//! contracts: error values, deterministic shuffling, the job store and its
//! queue, the context association test, language evaluations, the counting
//! behind the classifier fairness metrics, model details history, and the
//! inference-provider endpoints.

pub mod cat;
pub mod errors;
pub mod fairness;
pub mod jobs;
pub mod language;
pub mod metrics;
pub mod model;
pub mod providers;
pub mod queue;
pub mod ratio;
pub mod table;
pub mod text;
pub mod utils;
