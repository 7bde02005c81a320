//! The player's state and how each event changes it.
pub mod state;
pub mod update;
pub mod view;
pub mod laws;

pub use state::{App, Effect, MatchState, Message};
