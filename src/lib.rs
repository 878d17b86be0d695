//! Telemetry ingestion for beehive monitoring gateways: device authentication,
//! sensor class decoding, fail-fast batch ingestion, schema provisioning,
//! firmware addressing and the facility hierarchy.

pub mod apiary;
pub mod database;
pub mod device;
pub mod firmware;
pub mod pings;
pub mod shared;
