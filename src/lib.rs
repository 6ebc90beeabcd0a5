//! A decentralised price oracle: feeders submit price observations per
//! asset, and the library keeps a sorted window of recent points per asset,
//! aggregates them into a median reference price, gates reads on staleness,
//! and drives an off-chain fetch pipeline (query templates, JSON paths,
//! decimal conversion) together with its crash-safe lock and scheduler.
pub mod asset;
pub mod median;
pub mod fixed;
pub mod policy;
pub mod oracle;
pub mod transport;
pub mod schedule;
pub mod query;
pub mod json;
pub mod source;
