//! A walker in the world: it moves to the walk targets queued for it, one per
//! tick, the target with the greatest priority first.

use vstd::prelude::*;
use priority_queue::PriorityQueue;
use crate::foreign::{walk_queue, walk_queue_new, walk_queue_pop, walk_queue_push};

verus! {

/// The walk events queued for a player; a `WALK { x, y }` event is held as
/// its target `(x, y)`.
struct PlayerQueue {
    queue: PriorityQueue<(i32, i32), i32>,
}

impl PlayerQueue {
    fn new() -> (q: Self)
        ensures
            walk_queue(q.queue).is_empty(),
    {
        Self { queue: walk_queue_new() }
    }
}

/// A player, as the contracts see them.
pub struct PlayerView {
    pub x: i32,
    pub y: i32,
    /// The queued targets with their priorities.
    pub pending: Map<(i32, i32), i32>,
}

/// `after` is a possible outcome of one tick from `before`: with nothing
/// queued nothing changes; else the player moves to a queued target of the
/// greatest priority, which leaves the queue.
pub open spec fn tick_outcome(before: PlayerView, after: PlayerView) -> bool {
    if before.pending.is_empty() {
        after == before
    } else {
        exists|t: (i32, i32)| {
            &&& #[trigger] before.pending.contains_key(t)
            &&& forall|k: (i32, i32)| #[trigger] before.pending.contains_key(k) ==> before.pending[k] <= before.pending[t]
            &&& after == PlayerView { x: t.0, y: t.1, pending: before.pending.remove(t) }
        }
    }
}

/// A player in the world.
pub struct Player {
    x: i32,
    y: i32,
    queue: PlayerQueue,
}

impl View for Player {
    type V = PlayerView;

    closed spec fn view(&self) -> PlayerView {
        PlayerView { x: self.x, y: self.y, pending: walk_queue(self.queue.queue) }
    }
}

impl Player {
    /// Moves to the queued target with the greatest priority, if any.
    pub fn tick(&mut self)
        ensures
            tick_outcome(old(self)@, final(self)@),
    {
        if let Some(event) = walk_queue_pop(&mut self.queue.queue) {
            let (target, _) = event;
            self.x = target.0;
            self.y = target.1;
            assert(walk_queue(old(self).queue.queue).contains_key(target));
        }
    }

    /// Queues a walk to `(x, y)`, with priority 0.
    pub fn walk(&mut self, x: i32, y: i32)
        ensures
            final(self)@ == (PlayerView { pending: old(self)@.pending.insert((x, y), 0), ..old(self)@ }),
    {
        walk_queue_push(&mut self.queue.queue, (x, y), 0);
    }

    /// A player at the origin with nothing queued.
    pub fn new() -> (p: Self)
        ensures
            p@.x == 0,
            p@.y == 0,
            p@.pending.is_empty(),
    {
        Self { x: 0, y: 0, queue: PlayerQueue::new() }
    }

    /// Where the player is.
    pub fn position(&self) -> (r: (i32, i32))
        ensures
            r == (self@.x, self@.y),
    {
        (self.x, self.y)
    }
}


/// A player with nothing queued who is told to walk to `(x, y)` is there
/// after the next tick, with nothing queued.
pub proof fn law_walk_then_tick(p: PlayerView, x: i32, y: i32, after: PlayerView)
    requires
        p.pending.is_empty(),
        tick_outcome(PlayerView { pending: p.pending.insert((x, y), 0), ..p }, after),
    ensures
        after.x == x,
        after.y == y,
        after.pending.is_empty(),
{
    let q = p.pending.insert((x, y), 0);
    assert(q.contains_key((x, y)));
    assert(!q.is_empty());
    let t = choose|t: (i32, i32)| {
        &&& #[trigger] q.contains_key(t)
        &&& forall|k: (i32, i32)| #[trigger] q.contains_key(k) ==> q[k] <= q[t]
        &&& after == PlayerView { x: t.0, y: t.1, pending: q.remove(t) }
    };
    assert(t == (x, y));
    assert(q.remove(t).dom() =~= Set::<(i32, i32)>::empty());
}

} // verus!
