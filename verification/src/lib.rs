//! Paint-line monitoring: ingest validation, robot interface event detection,
//! PLC/camera reconciliation, daily aggregation and CoreDB statement building.

pub mod text;
pub mod schema;
pub mod robot;
pub mod domain;
pub mod cql;
pub mod gateway;
pub mod coredb;
pub mod plc_state;
pub mod recipes;
pub mod robot_store;
pub mod rollup;
pub mod jobs;
pub mod ingest;
pub mod order;
pub mod views;
pub mod dates;
pub mod stats;
pub mod weather;
pub mod live;
pub mod laws;
