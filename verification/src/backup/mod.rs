//! Backups of groups of stateful workloads.

pub mod consistency_group;
