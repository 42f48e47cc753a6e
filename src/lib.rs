//! Synthesis of gathering algorithms for two luminous robots.
//!
//! The library holds the algorithm model (guards, actions, rules and their
//! short codes), the exhaustive enumerator of a model's algorithms, the
//! filters that prune it, the emitter of the verifier's input model, and the
//! decisions of the verification driver and of the run's report.

pub mod common;
pub mod text;
pub mod algorithm;
pub mod generator;
pub mod promela;
pub mod runner;
pub mod model;
pub mod pipeline;

pub use common::ModelKind;
pub use pipeline::{suggested_name, Cli};
