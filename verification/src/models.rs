//! Data model of the relay: locally registered identities, mirrored
//! workspace members and channels, durable message records, and the shapes
//! of the remote API's responses.

pub mod auth;
pub mod authenticable_users;
pub mod channel;
pub mod message;
pub mod slack_responses;
pub mod user;
