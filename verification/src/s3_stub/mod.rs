//! A minimal S3-compatible bucket, for protocol-level probes.

pub mod answers;
pub mod dates;
pub mod laws;
pub mod listing;
pub mod options;
pub mod reader;
pub mod serve;
pub mod state;
pub mod wire;
pub mod xml;
