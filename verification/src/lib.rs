//! Core of a multi-backend database connector: a connection-pool manager with
//! a capacity policy, and a document-store write executor that restores
//! SQL-like write guarantees (returned ids, matched counts, duplicate
//! skipping, symmetric relation maintenance) on top of native document
//! commands.
pub mod args;
pub mod error;
pub mod filter;
pub mod laws;
pub mod model;
pub mod pool;
pub mod raw;
pub mod steps;
pub mod store;
pub mod write;
pub mod value;


