//! Bearer-token authentication and role authorization.
//!
//! A token registry is built once from configuration: each token belongs to
//! one user, and each user to one role (broadcaster or reader). Requests are
//! authenticated from their `Authorization` header and then authorized:
//! broadcasters may act only on their own namespace, readers on any.

pub mod auth;
pub mod config;
pub mod error;
pub mod headers;
pub mod laws;
pub mod models;
pub mod text;
