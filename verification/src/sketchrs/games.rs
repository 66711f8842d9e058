//! Saved games, as the game table holds them.

use vstd::prelude::*;
use crate::sketchrs::error::Error;

verus! {

/// One saved game.
#[derive(Debug)]
pub struct Game {
    pub id: i64,
    pub turn: i64,
    pub version: i64,
    pub drawer: i64,
    pub time: i64,
    pub word: String,
    pub image: String,
}

/// The first of the games that a query found, or the error "none found".
pub fn first_game(games: Vec<Game>) -> (r: Result<Game, Error>)
    ensures
        games@.len() > 0 ==> r == Ok::<Game, Error>(games@[0]),
        games@.len() == 0 ==> r is Err && r->Err_0@ == "none found"@,
{
    let mut games = games;
    if games.len() > 0 {
        Ok(games.swap_remove(0))
    } else {
        Err(Error::new("none found"))
    }
}

} // verus!
