//! The probes: what they need, what they do to a backend, and what they check.

pub mod config;
pub mod courses;
pub mod pages;
pub mod scenario;
pub mod seed;
