//! Migration of key-value stores: a uniform storage contract over named
//! segments of byte-string rows, and an engine that copies one store's
//! contents into another in bounded batches.

pub mod db;
pub mod migrate;
pub mod sled_to_sqlite;
