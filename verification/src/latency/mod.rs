//! Latency: deploy markers, service level indicators, canaries and attribution.

pub mod attribution;
pub mod canary;
pub mod deploy_marker;
pub mod sli_tracker;
