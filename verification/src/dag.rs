//! The record store in which records form a directed acyclic graph: every
//! header points back to its predecessors, and one signed record witnesses
//! all its ancestors.

pub mod request;
pub mod storage;
pub mod server;
pub mod client;
pub mod laws;
