//! The error that the game's web handlers answer with.

use vstd::prelude::*;

verus! {

/// An error with a message for the client.
#[derive(Debug)]
pub struct Error {
    s: String,
}

impl View for Error {
    type V = Seq<char>;

    closed spec fn view(&self) -> Seq<char> {
        self.s@
    }
}

impl Error {
    /// An error with the message `s`.
    pub fn new(s: &str) -> (e: Self)
        ensures
            e@ == s@,
    {
        Self { s: s.to_owned() }
    }

    /// The message, as the client gets it.
    pub fn message(&self) -> (s: String)
        ensures
            s@ == self@,
    {
        self.s.clone()
    }
}

} // verus!
