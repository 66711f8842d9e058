//! The world server: the environment and the players, ticked together.

use vstd::prelude::*;
use crate::sketchrs::environment::{event_text, Environment, EnvironmentEvent};
use crate::sketchrs::player::{tick_outcome, Player, PlayerView};

verus! {

/// The world: its events and its players.
pub struct Server {
    env: Environment,
    players: Vec<Player>,
}

/// The views of the players.
pub open spec fn players_view(ps: Seq<Player>) -> Seq<PlayerView> {
    ps.map_values(|p: Player| p@)
}

impl Server {
    /// The pending world events.
    pub closed spec fn pending(&self) -> Map<Seq<char>, i32> {
        self.env.pending()
    }

    /// The players, in the order in which they logged in.
    pub closed spec fn players(&self) -> Seq<PlayerView> {
        players_view(self.players@)
    }

    /// A world with no events and no players.
    pub fn new() -> (s: Self)
        ensures
            s.pending().is_empty(),
            s.players() == Seq::<PlayerView>::empty(),
    {
        let s = Self { env: Environment::new(), players: Vec::new() };
        assert(s.players() =~= Seq::<PlayerView>::empty());
        s
    }

    /// Queues a message for the world with priority `i`.
    pub fn env_queue(&mut self, s: String, i: i32)
        ensures
            final(self).pending() == old(self).pending().insert(s@, i),
            final(self).players() == old(self).players(),
    {
        let ghost t = s@;
        let e = EnvironmentEvent::MESSAGE { text: s };
        assert(event_text(e) == t);
        self.env.enqueue(e, i);
    }

    /// A new player joins, at the origin.
    pub fn login(&mut self)
        ensures
            final(self).pending() == old(self).pending(),
            final(self).players().len() == old(self).players().len() + 1,
            final(self).players().drop_last() == old(self).players(),
            final(self).players().last().x == 0,
            final(self).players().last().y == 0,
            final(self).players().last().pending.is_empty(),
    {
        self.players.push(Player::new());
        assert(self.players().drop_last() =~= old(self).players());
    }

    /// Queues a walk to `(x, y)` for the `i`-th player; `None` when there is
    /// no such player.
    pub fn player_walk(&mut self, i: usize, x: i32, y: i32) -> (r: Option<()>)
        ensures
            final(self).pending() == old(self).pending(),
            i < old(self).players().len() ==> r is Some && final(self).players() == old(self).players().update(
                i as int,
                PlayerView { pending: old(self).players()[i as int].pending.insert((x, y), 0), ..old(self).players()[i as int] },
            ),
            i >= old(self).players().len() ==> r is None && final(self).players() == old(self).players(),
    {
        if i < self.players.len() {
            self.players[i].walk(x, y);
            assert(self.players() =~= old(self).players().update(
                i as int,
                PlayerView { pending: old(self).players()[i as int].pending.insert((x, y), 0), ..old(self).players()[i as int] },
            ));
            Some(())
        } else {
            None
        }
    }

    /// One tick: the world ticks, then every player in turn.
    pub fn tick(&mut self)
        ensures
            final(self).pending() == old(self).pending(),
            final(self).players().len() == old(self).players().len(),
            forall|j: int| 0 <= j < old(self).players().len() ==> tick_outcome(#[trigger] old(self).players()[j], final(self).players()[j]),
    {
        self.env.tick();
        let n = self.players.len();
        let mut i: usize = 0;
        while i < n
            invariant
                n == self.players@.len(),
                n == old(self).players@.len(),
                i <= n,
                self.pending() == old(self).pending(),
                forall|j: int| 0 <= j < i ==> tick_outcome(#[trigger] old(self).players()[j], self.players()[j]),
                forall|j: int| i <= j < n ==> #[trigger] self.players@[j] == old(self).players@[j],
            decreases n - i,
        {
            self.players[i].tick();
            i = i + 1;
        }
    }
}

} // verus!
