//! Decision logic of the Stellar Kubernetes operator, with machine-checked contracts.

pub mod api_gateway;
pub mod approval;
pub mod backup;
pub mod benchmark_bisect;
pub mod bounded;
pub mod calendar;
pub mod cardinality;
pub mod clock;
pub mod compliance;
pub mod composite_slo;
pub mod connection_drain;
pub mod controller;
pub mod crd;
pub mod digest;
pub mod duration_text;
pub mod error;
pub mod flag_bundle;
pub mod ids;
pub mod json;
pub mod latency;
pub mod migration_safety;
pub mod name_pattern;
pub mod namespace_security;
pub mod ranking;
pub mod reading;
pub mod seqs;
pub mod span;
pub mod strmap;
pub mod text;
