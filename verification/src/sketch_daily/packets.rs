//! The messages of the daily challenge.

use vstd::prelude::*;

verus! {

/// A message from a client.
#[derive(Debug)]
pub enum Incoming {
    Guess { guess: String },
    Image { image: String },
    Start {},
    Restart {},
}

/// A message to a client. Scores are the bit patterns of `f32` values.
#[derive(Debug)]
pub enum Outgoing {
    /// A drawing's score and the id under which it was saved.
    Score { score: u32, id: String },
    /// A saved drawing: its word, its score and where it is.
    Info { prompt: String, score: u32, path: String },
}

} // verus!
