//! Credential and token authentication: password hashing, signed time-bound bearer
//! tokens, a revocation store, the request guard, and the login and registration
//! decisions around an external credential store.

pub mod account;
pub mod error;
pub mod gate;
pub mod hex;
pub mod password;
pub mod revocation;
pub mod token;
