//! Composition of the discovery mechanisms into one config list.

pub mod cli;
pub mod client;
pub mod collect;
pub mod config;
