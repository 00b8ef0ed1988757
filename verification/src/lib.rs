//! A verifiable append-only log service: records chained by hash pointers
//! into writer-owned DataCapsules, the server-side indices that store them,
//! and the client-side checks that tie every answer to a writer signature.

pub mod anchor;
pub mod codec;
pub mod config;
pub mod crypto;
pub mod dag;
pub mod dc_repr;
pub mod errors;
pub mod graph;
pub mod layout;
pub mod merkle;
pub mod p2p;
pub mod proven;
pub mod readstate;
pub mod seqs;
pub mod table;
pub mod tree;
