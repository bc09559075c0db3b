//! The API gateway.

pub mod deprecation_timeline;
