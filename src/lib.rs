//! Operator tooling for a web-stack project: deployment commands,
//! proxy and database configuration plans, and a benchmark run whose
//! sequencing, score extraction and result recording are verified.

pub mod clock;
pub mod config;
pub mod maintenance;
pub mod opts;
pub mod run;
pub mod score;
pub mod store;
pub mod text;
