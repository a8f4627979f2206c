//! A dedicated one-way migration: read a tree store whole, write its
//! contents into SQLite tables.

pub mod sled;
pub mod sqlite;
