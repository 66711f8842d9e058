//! A drawing game judged by an image model: everyone draws the same word and
//! the model scores how close each drawing is to it.

pub mod game;
pub mod packets;
