//! Conditional writes on an object store and what is built on them.

pub mod catalog;
pub mod commit;
pub mod courses;
pub mod delete;
pub mod digest;
pub mod gc;
pub mod handoff;
pub mod history;
pub mod laws;
pub mod lease;
pub mod live_run;
pub mod probe;
pub mod records;
pub mod retry;
pub mod session;
pub mod sessions;
pub mod upkeep;
pub mod verify;
pub mod verify_run;
pub mod version;
