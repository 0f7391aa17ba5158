//! The per-request guard in front of every protected route.

pub mod auth;
