//! The offline-dictionary acquisition pipeline of a desktop dictionary:
//! streaming a dictionary archive with cooperative cancellation and throttled
//! progress, decompressing and unpacking it, repairing the malformed raw
//! dump into one valid JSON object keyed by word, and serving lookups from
//! an in-memory store — with the behavior of every stage stated in its
//! contract and proved.
pub mod download;
pub mod extract;
pub mod helper;
pub mod json;
pub mod online;
pub mod pipeline;
pub mod rectify;
pub mod registry;
pub mod store;
pub mod textnorm;
