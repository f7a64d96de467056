//! Aggregation of short-range radio device sightings: one record per hardware
//! address, enriched with a vendor name and service descriptions and ranked by
//! signal strength.

pub mod address;
pub mod cycle;
pub mod device;
pub mod enrich;
pub mod rank;
pub mod service;
pub mod text;
pub mod vendor;
