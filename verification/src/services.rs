//! Services of the credential store: password hashing and verification, and
//! the signed session-token lifecycle.

pub mod claims;
pub mod jwt;
pub mod password;
