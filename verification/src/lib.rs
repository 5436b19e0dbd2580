//! Kraft - A distributed key-value store using Raft consensus.
//!
//! The verified core of the store: the Raft state machine of one node, the
//! workers that talk to its peers, to its disk and to its readers, the byte
//! layout of a log entry, and the rules for a configuration.
//!
//! Sockets, files, threads and clocks stay outside. A function of the library
//! takes what was received as a value, and leaves what is to be sent in a
//! value that its caller delivers.

pub mod client;
pub mod config;
pub mod kraft_replication_schema;
pub mod persistence;
pub mod query;
pub mod quorum;
pub mod raft;
pub mod runtime_core;
pub mod server;
pub mod service_utils;
pub mod startup;
