//! Custom resource data.

pub mod service_ownership;
