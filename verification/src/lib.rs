//! A terminal memory/pairs card game library.
//!
//! A 52-card deck is paired by rank, shuffled in pairs, and dealt face-down
//! onto a near-square grid; an interactive session state machine drives
//! screen transitions, menu navigation and player-name collection.

pub mod board;
pub mod cards;
pub mod extras;
pub mod session;
mod shuffle;
pub mod text;
pub mod utils;
