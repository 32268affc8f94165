//! A player agent's core for an 8x8 Reversi game server: the legality rules,
//! the wire format of the server's broadcasts, and the turn-by-turn decisions.

pub mod board;
pub mod client;
pub mod error;
pub mod strategy;
pub mod text;
pub mod wire;

pub use crate::client::{ReversiClient, Step};
pub use crate::error::ReversiError;
pub use crate::strategy::{RandomStrategy, ReversiStrategy};
pub use crate::wire::{DecodeError, GameState};
