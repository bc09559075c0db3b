//! Controllers: lifecycle hooks, ownership, pull gating and anomaly detection.

pub mod cross_signal_anomaly;
pub mod lifecycle_hooks;
pub mod ownership_registry;
pub mod registry_gate;
