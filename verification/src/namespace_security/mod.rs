//! The security baseline of namespaces: its checks, their evaluation, remediation and audit.

pub mod audit;
pub mod baseline;
pub mod evaluator;
pub mod remediation;
