//! Topology and supervision rules for short-lived database test clusters:
//! run bookkeeping and log records, node and address allocation, the ordered
//! lifecycle of a cluster, and the configuration overlay.

pub mod address;
pub mod cluster;
pub mod cluster_config;
pub mod order;
pub mod plan;
pub mod runner;
pub mod text;
pub mod yaml;
