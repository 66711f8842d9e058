//! The messages of the drawing game: what a client sends, and what the game
//! answers and to whom.

use vstd::prelude::*;

verus! {

/// A message from a client.
#[derive(Debug)]
pub enum Incoming {
    /// A guess at someone's word.
    Guess { guess: String },
    /// New strokes of the sender's drawing.
    Image { image: Vec<String> },
    /// A request for `username`'s strokes from index `i` on.
    Pull { i: i32, username: String },
    /// A request for the sender's word.
    Assign {},
    /// The host starts the round.
    Start {},
    /// The host restarts the game.
    Restart {},
    /// Removes the sender's last `i` strokes.
    Undo { i: i32 },
}

/// A message to clients.
#[derive(Debug)]
pub enum Outgoing {
    /// A guess that matched nobody's word, shown to everyone.
    Guess { username: String, guess: String },
    /// `guesser` guessed `drawer`'s word for `points`.
    Guessed { guesser: String, drawer: String, points: i32 },
    /// `username`'s strokes from index `i` on.
    Image { username: String, image: Vec<String>, i: i32 },
    /// `username` is to draw `assignment`.
    Assign { username: String, assignment: String },
    /// The whole shared game state, as it stands when the message is sent.
    FullState {},
    /// `username` took back strokes.
    Undo { username: String },
    /// The requested name is in use; `new_name` is the name that was refused.
    NewName { new_name: String },
}

/// Who receives a message.
#[derive(Debug)]
pub enum Recipient {
    /// Every connected client.
    All,
    /// Only the client logged in as `name`.
    Peer { name: String },
}

/// A message and its recipients.
#[derive(Debug)]
pub struct Reply {
    pub to: Recipient,
    pub message: Outgoing,
}

/// A message to clients, as the contracts see it.
pub enum OutgoingView {
    Guess { username: Seq<char>, guess: Seq<char> },
    Guessed { guesser: Seq<char>, drawer: Seq<char>, points: i32 },
    Image { username: Seq<char>, image: Seq<Seq<char>>, i: i32 },
    Assign { username: Seq<char>, assignment: Seq<char> },
    FullState,
    Undo { username: Seq<char> },
    NewName { new_name: Seq<char> },
}

/// Recipients, as the contracts see them.
pub enum RecipientView {
    All,
    Peer(Seq<char>),
}

/// A message and its recipients, as the contracts see them.
pub struct ReplyView {
    pub to: RecipientView,
    pub message: OutgoingView,
}

impl View for Outgoing {
    type V = OutgoingView;

    open spec fn view(&self) -> OutgoingView {
        match self {
            Outgoing::Guess { username, guess } => OutgoingView::Guess { username: username@, guess: guess@ },
            Outgoing::Guessed { guesser, drawer, points } => OutgoingView::Guessed {
                guesser: guesser@,
                drawer: drawer@,
                points: *points,
            },
            Outgoing::Image { username, image, i } => OutgoingView::Image {
                username: username@,
                image: image@.map_values(|s: String| s@),
                i: *i,
            },
            Outgoing::Assign { username, assignment } => OutgoingView::Assign {
                username: username@,
                assignment: assignment@,
            },
            Outgoing::FullState {} => OutgoingView::FullState,
            Outgoing::Undo { username } => OutgoingView::Undo { username: username@ },
            Outgoing::NewName { new_name } => OutgoingView::NewName { new_name: new_name@ },
        }
    }
}

impl View for Recipient {
    type V = RecipientView;

    open spec fn view(&self) -> RecipientView {
        match self {
            Recipient::All => RecipientView::All,
            Recipient::Peer { name } => RecipientView::Peer(name@),
        }
    }
}

impl View for Reply {
    type V = ReplyView;

    open spec fn view(&self) -> ReplyView {
        ReplyView { to: self.to@, message: self.message@ }
    }
}

/// The views of a list of replies.
pub open spec fn replies_view(r: Seq<Reply>) -> Seq<ReplyView> {
    r.map_values(|x: Reply| x@)
}

/// A message for everyone.
pub open spec fn to_all(m: OutgoingView) -> ReplyView {
    ReplyView { to: RecipientView::All, message: m }
}

/// A message for one client.
pub open spec fn to_peer(name: Seq<char>, m: OutgoingView) -> ReplyView {
    ReplyView { to: RecipientView::Peer(name), message: m }
}

} // verus!
