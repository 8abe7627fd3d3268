pub mod agent;
pub mod card;
pub mod deck;
pub mod game;

pub use crate::game::Game;
