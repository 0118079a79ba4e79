//! A conformance harness for a line-delimited JSON-RPC protocol.
//!
//! The crate provides a verified message codec (JSON values printed to and
//! parsed from single text lines), a reference server that answers the
//! protocol's methods deterministically, a scenario executor that drives one
//! conformance scenario as a state machine, and a scenario catalog with its
//! validity invariant.

pub mod json;
pub mod rpc;
pub mod server;
pub mod client;
pub mod catalog;
