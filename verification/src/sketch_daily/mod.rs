//! A daily drawing challenge: one word a day, every drawing scored against
//! it, and each scored drawing given a short id to share.

pub mod args;
pub mod events;
pub mod game;
pub mod packets;
