//! Compliance evidence.

pub mod evidence_schedule;
