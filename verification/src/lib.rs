//! Verified core of the N+1 comprehensible-input learning platform.

pub mod config;
pub mod fsrs;
pub mod handlers;
pub mod ids;
pub mod keyed;
pub mod laws;
pub mod models;
pub mod nplus1;
pub mod repo;
pub mod seed;
pub mod services;
pub mod text;
pub mod time;
