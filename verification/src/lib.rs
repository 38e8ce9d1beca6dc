//! Object-store backed project memory: the decisions behind commits, sessions,
//! catalogs, leases, search and the probes that check a bucket.

pub mod json;
pub mod little_endian;
pub mod numbers;
pub mod ordered;
pub mod probe;
pub mod s3_stub;
pub mod search;
pub mod sort;
pub mod store;
pub mod text;
pub mod trim;
pub mod unicode;
