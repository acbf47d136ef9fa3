//! Khronos: a small calendar service.
//!
//! The library holds the service's rules: which group names are
//! accepted, how a calendar path names its groups, what a token
//! carries, who may reach which endpoint, how events are presented,
//! and how every error is answered.

pub mod auth;
pub mod error;
pub mod groups;
pub mod models;
pub mod routes;

pub use crate::error::Error;
pub use crate::groups::validate_group;
