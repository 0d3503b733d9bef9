//! A small in-memory key-value store of JSON values, with the line protocol,
//! persistence format and sample bookkeeping of its server.

pub mod config;
pub mod connection;
pub mod error;
pub mod framing;
pub mod http;
pub mod json;
pub mod profiling;
pub mod store;
