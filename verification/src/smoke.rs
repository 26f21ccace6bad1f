//! What the log of a boot must say.

pub mod boot;
pub mod fields;
pub mod laws;
pub mod monitor;
pub mod reports;
pub mod scenarios;
