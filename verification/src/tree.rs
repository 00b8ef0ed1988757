//! The record store in which records are grouped into signed commits:
//! every commit is a Merkle tree over its records and the root of the
//! commit before it, and a proof is the path from a record up to a signed
//! root.

pub mod request;
pub mod storage;
pub mod client;
pub mod server;
pub mod laws;
