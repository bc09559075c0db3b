//! Metric cardinality: budgets, collection, quarantine, reporting and cost.

pub mod budget;
pub mod collector;
pub mod cost_allocation;
pub mod quarantine;
pub mod reporter;
pub mod series_map;
