//! Bookkeeping for a pool of session cookies that many concurrent requests share.

pub mod actor;
pub mod affinity;
pub mod clock;
pub mod config;
pub mod cookie;
pub mod error;
pub mod guarantees;
pub mod keyed;
pub mod laws;
pub mod message;
pub mod pool;
pub mod request;
pub mod slots;
