//! External service integrations: the exact parts of the deterministic
//! mocks, and of the real clients, that do not touch the network.

pub mod ai;
pub mod anki;
pub mod aws;
pub mod ingest;
