//! The drawing game server's command line.

use vstd::prelude::*;

verus! {

/// The server's settings.
#[derive(Debug)]
pub struct Args {
    /// Words file.
    pub words: String,
    /// Port to serve on (3030 unless given).
    pub port: u16,
    /// Game time limit (120 unless given).
    pub timelimit: i32,
    /// Max guess points (50 unless given).
    pub maxpoints: i32,
    /// End after the time limit ends (true unless given).
    pub endontime: bool,
}

} // verus!
