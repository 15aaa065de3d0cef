//! A course registry: one admin account may create courses, any account may
//! enroll itself in a course under a role (leader or follower) or remove
//! itself again, and read-only queries list the courses or fetch one by id.
//!
//! The registry state lives in a small key-value store: a single slot for
//! the global configuration and a string-keyed, lexicographically ordered
//! collection of course records.

pub mod contract;
pub mod error;
pub mod msg;
pub mod order;
pub mod state;
pub mod store;
