//! The messages of the judged drawing game.

use vstd::prelude::*;
use crate::sketchrs::packets::{Recipient, RecipientView};

verus! {

/// A message from a client.
#[derive(Debug)]
pub enum Incoming {
    /// A guess, shown to everyone.
    Guess { guess: String },
    /// The sender's finished drawing, as a `data:` URL.
    Image { image: String },
    /// The host starts the round.
    Start {},
    /// The host starts a new round with the next word.
    Restart {},
}

/// A message to clients.
#[derive(Debug)]
pub enum Outgoing {
    /// `username` guessed `guess`.
    Guess { username: String, guess: String },
    /// The whole shared game state, as it stands when the message is sent.
    FullState {},
    /// The requested name is in use; `new_name` is the name that was refused.
    NewName { new_name: String },
    /// The score of a drawing, as the bit pattern of an `f32`.
    Score { score: u32 },
}

/// A message and its recipients.
#[derive(Debug)]
pub struct Reply {
    pub to: Recipient,
    pub message: Outgoing,
}

/// A message to clients, as the contracts see it.
pub enum OutgoingView {
    Guess { username: Seq<char>, guess: Seq<char> },
    FullState,
    NewName { new_name: Seq<char> },
    Score { score: u32 },
}

/// A message and its recipients, as the contracts see them.
pub struct ReplyView {
    pub to: RecipientView,
    pub message: OutgoingView,
}

impl View for Outgoing {
    type V = OutgoingView;

    open spec fn view(&self) -> OutgoingView {
        match self {
            Outgoing::Guess { username, guess } => OutgoingView::Guess { username: username@, guess: guess@ },
            Outgoing::FullState {} => OutgoingView::FullState,
            Outgoing::NewName { new_name } => OutgoingView::NewName { new_name: new_name@ },
            Outgoing::Score { score } => OutgoingView::Score { score: *score },
        }
    }
}

impl View for Reply {
    type V = ReplyView;

    open spec fn view(&self) -> ReplyView {
        ReplyView { to: self.to@, message: self.message@ }
    }
}

/// The views of a list of replies.
pub open spec fn replies_view(r: Seq<Reply>) -> Seq<ReplyView> {
    r.map_values(|x: Reply| x@)
}

/// A message for everyone.
pub open spec fn to_all(m: OutgoingView) -> ReplyView {
    ReplyView { to: RecipientView::All, message: m }
}

} // verus!
