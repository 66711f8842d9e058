//! A multiplayer drawing game: every connected player draws a word of their
//! own while the others guess it; quick correct guesses earn more points.

pub mod game;
pub mod packets;
pub mod environment;
pub mod player;
pub mod server;
pub mod error;
pub mod args;
pub mod games;
pub mod words;
