//! Directory synchronisation by content fingerprints.
//!
//! A tree of files is reduced to an index from relative path to content
//! digest; two indexes are compared to decide which files a client must fetch
//! from a server, and the server and client decisions around that exchange
//! are plain functions of the values they see.
pub mod digest;
pub mod index;
pub mod tree;
pub mod wire;
pub mod server;
pub mod client;
