//! Game server logic for a small multiplayer tank game: rooms, players,
//! an event broker that routes game events between units, and the game
//! field on which tanks and walls stand.

pub mod errors;
pub mod game;
pub mod logic;
pub mod room_manager;
pub mod handler;
pub mod message_manager;
