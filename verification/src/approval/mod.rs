//! Multi-party approval of privileged changes.

pub mod audit;
pub mod controller;
pub mod crd;
pub mod webhook;
