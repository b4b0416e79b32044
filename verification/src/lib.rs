//! Uninvited: a party deduction game played between a human and AI guests.
pub mod agents;
pub mod brains;
pub mod game;
pub mod laws;
pub mod orchestrator;
mod random;
pub mod scenarios;
pub mod text;
