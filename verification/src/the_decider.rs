//! A chat helper bot: it adds voting reactions to questions, and on request
//! picks a "devil" at random among the members who spoke recently.

use vstd::prelude::*;
use crate::foreign::choose_u64;
use crate::strmap::{map_of, StrMap};
use crate::text::starts_with;

verus! {

/// How recent, in seconds, a member's last message must be for them to be a
/// candidate.
pub const TIME_LIMIT: i64 = 120;

/// The role that marks the devil.
pub const DEVIL_ROLE: u64 = 825089774251147355;

/// When a member last spoke, and who they are.
#[derive(Clone, Copy, Debug, PartialEq, Eq, Structural)]
pub struct Talker {
    pub time: i64,
    pub id: u64,
}

/// Which reactions a message gets.
pub enum Poll {
    /// A five-step scale, for messages that start with `??`.
    Scale,
    /// Yes, no or unsure, for messages that start with `?.`.
    Triple,
    /// Four choices, for messages that start with `?4`.
    Four,
    /// Yes or no, for other messages that start with `?`.
    YesNo,
    /// No reactions.
    Nothing,
}

/// The reactions that a message with text `content` gets.
pub open spec fn poll_of(content: Seq<char>) -> Poll {
    if seq!['?', '?'].is_prefix_of(content) {
        Poll::Scale
    } else if seq!['?', '.'].is_prefix_of(content) {
        Poll::Triple
    } else if seq!['?', '4'].is_prefix_of(content) {
        Poll::Four
    } else if seq!['?'].is_prefix_of(content) {
        Poll::YesNo
    } else {
        Poll::Nothing
    }
}

/// What a message asks of the bot.
pub enum Command {
    /// `!devil`: pick a new devil.
    Devil,
    /// `!nodevil`: take the role away from everyone.
    NoDevil,
    /// Nothing.
    Nothing,
}

/// The command in a message with text `content`.
pub open spec fn command_of(content: Seq<char>) -> Command {
    if seq!['!', 'd', 'e', 'v', 'i', 'l'].is_prefix_of(content) {
        Command::Devil
    } else if seq!['!', 'n', 'o', 'd', 'e', 'v', 'i', 'l'].is_prefix_of(content) {
        Command::NoDevil
    } else {
        Command::Nothing
    }
}

/// Which reactions a message gets.
pub fn poll_kind(content: &str) -> (p: Poll)
    ensures
        p == poll_of(content@),
{
    proof {
        reveal_strlit("??");
        reveal_strlit("?.");
        reveal_strlit("?4");
        reveal_strlit("?");
        assert("??"@ =~= seq!['?', '?']);
        assert("?."@ =~= seq!['?', '.']);
        assert("?4"@ =~= seq!['?', '4']);
        assert("?"@ =~= seq!['?']);
    }
    if starts_with(content, "??") {
        Poll::Scale
    } else if starts_with(content, "?.") {
        Poll::Triple
    } else if starts_with(content, "?4") {
        Poll::Four
    } else if starts_with(content, "?") {
        Poll::YesNo
    } else {
        Poll::Nothing
    }
}

/// The emoji of each kind of poll, in the order in which they are added.
pub open spec fn poll_emojis(p: Poll) -> Seq<&'static str> {
    match p {
        Poll::Scale => seq!["⏫", "🔼", "⏸", "🔽", "⏬"],
        Poll::Triple => seq!["✔", "❌", "🤔"],
        Poll::Four => seq!["🇦", "🇧", "🇨", "🇩"],
        Poll::YesNo => seq!["✔", "❌"],
        Poll::Nothing => Seq::empty(),
    }
}

/// The reactions that a message with text `content` gets, in order.
pub fn reactions(content: &str) -> (r: Vec<&'static str>)
    ensures
        r@ == poll_emojis(poll_of(content@)),
{
    let r = match poll_kind(content) {
        Poll::Scale => vec!["⏫", "🔼", "⏸", "🔽", "⏬"],
        Poll::Triple => vec!["✔", "❌", "🤔"],
        Poll::Four => vec!["🇦", "🇧", "🇨", "🇩"],
        Poll::YesNo => vec!["✔", "❌"],
        Poll::Nothing => Vec::new(),
    };
    assert(r@ =~= poll_emojis(poll_of(content@)));
    r
}

/// The command in a message.
pub fn command(content: &str) -> (c: Command)
    ensures
        c == command_of(content@),
{
    proof {
        reveal_strlit("!devil");
        reveal_strlit("!nodevil");
        assert("!devil"@ =~= seq!['!', 'd', 'e', 'v', 'i', 'l']);
        assert("!nodevil"@ =~= seq!['!', 'n', 'o', 'd', 'e', 'v', 'i', 'l']);
    }
    if starts_with(content, "!devil") {
        Command::Devil
    } else if starts_with(content, "!nodevil") {
        Command::NoDevil
    } else {
        Command::Nothing
    }
}

/// Whether a member who last spoke at `time` is a candidate at `now`.
pub open spec fn is_recent(now: i64, t: Talker) -> bool {
    now - t.time <= TIME_LIMIT
}

/// The ids of the recent talkers among `ts`, in order.
pub open spec fn recent_ids(now: i64, ts: Seq<Talker>) -> Seq<u64>
    decreases ts.len(),
{
    if ts.len() == 0 {
        Seq::empty()
    } else if is_recent(now, ts.last()) {
        recent_ids(now, ts.drop_last()).push(ts.last().id)
    } else {
        recent_ids(now, ts.drop_last())
    }
}

/// The bot's memory: each member's last message, by name, in the order in
/// which members first spoke.
pub struct Handler {
    talkers: StrMap<Talker>,
}

impl Handler {
    /// The names of the members, in the order in which they first spoke.
    pub closed spec fn names(&self) -> Seq<Seq<char>> {
        self.talkers.keys_view()
    }

    /// Each member's last message, in the order of `names`.
    pub closed spec fn talkers(&self) -> Seq<Talker> {
        self.talkers.vals_view()
    }

    /// The names and the talkers pair up, each name once.
    pub closed spec fn wf(&self) -> bool {
        self.talkers.wf()
    }

    /// Each member's last message, by name.
    pub open spec fn talker_map(&self) -> Map<Seq<char>, Talker> {
        map_of(self.names(), self.talkers())
    }

    /// A bot that has heard nobody.
    pub fn new() -> (h: Self)
        ensures
            h.wf(),
            h.names() == Seq::<Seq<char>>::empty(),
            h.talkers() == Seq::<Talker>::empty(),
    {
        Handler { talkers: StrMap::new() }
    }

    /// Notes that `name` (with user id `id`) spoke at `time`.
    pub fn record(&mut self, name: String, time: i64, id: u64)
        requires
            old(self).wf(),
        ensures
            final(self).wf(),
            final(self).talker_map() == old(self).talker_map().insert(name@, Talker { time, id }),
            old(self).talker_map().contains_key(name@) ==> final(self).names() == old(self).names(),
            !old(self).talker_map().contains_key(name@) ==> final(self).names() == old(self).names().push(name@),
    {
        self.talkers.insert(name, Talker { time, id });
    }

    /// Whether `candidates` may be called at `now`: no time difference
    /// overflows an `i64`.
    pub fn candidates_ok(&self, now: i64) -> (b: bool)
        requires
            self.wf(),
        ensures
            b == forall|i: int| 0 <= i < self.talkers().len() ==> i64::MIN <= now - #[trigger] self.talkers()[i].time <= i64::MAX,
    {
        let n = self.talkers.len();
        let mut i: usize = 0;
        while i < n
            invariant
                self.wf(),
                n == self.talkers().len(),
                i <= n,
                forall|j: int| 0 <= j < i ==> i64::MIN <= now - #[trigger] self.talkers()[j].time <= i64::MAX,
            decreases n - i,
        {
            let t = *self.talkers.val_at(i);
            if now.checked_sub(t.time).is_none() {
                return false;
            }
            i = i + 1;
        }
        true
    }

    /// The ids of the members who spoke within `TIME_LIMIT` seconds of `now`,
    /// in the order in which they first spoke.
    pub fn candidates(&self, now: i64) -> (r: Vec<u64>)
        requires
            self.wf(),
            forall|i: int| 0 <= i < self.talkers().len() ==> i64::MIN <= now - #[trigger] self.talkers()[i].time <= i64::MAX,
        ensures
            r@ == recent_ids(now, self.talkers()),
    {
        let n = self.talkers.len();
        let ghost ts = self.talkers();
        let mut r: Vec<u64> = Vec::new();
        let mut i: usize = 0;
        while i < n
            invariant
                self.wf(),
                ts == self.talkers(),
                n == ts.len(),
                i <= n,
                forall|j: int| 0 <= j < ts.len() ==> i64::MIN <= now - #[trigger] ts[j].time <= i64::MAX,
                r@ == recent_ids(now, ts.take(i as int)),
            decreases n - i,
        {
            let t = *self.talkers.val_at(i);
            proof {
                assert(ts.take(i + 1).drop_last() =~= ts.take(i as int));
                assert(ts[i as int] == t);
            }
            if now - t.time <= TIME_LIMIT {
                r.push(t.id);
            }
            i = i + 1;
        }
        assert(ts.take(n as int) =~= ts);
        r
    }
}

/// Picks the devil among `candidates` at random; 0 when there is none.
pub fn pick_devil(candidates: &Vec<u64>) -> (d: u64)
    ensures
        candidates@.len() == 0 ==> d == 0,
        candidates@.len() > 0 ==> candidates@.contains(d),
{
    match choose_u64(candidates) {
        Some(d) => d,
        None => 0,
    }
}


/// Every candidate is the id of a member whose last message is recent.
pub proof fn law_candidates_are_recent(now: i64, ts: Seq<Talker>, d: u64)
    requires
        recent_ids(now, ts).contains(d),
    ensures
        exists|i: int| 0 <= i < ts.len() && ts[i].id == d && is_recent(now, #[trigger] ts[i]),
    decreases ts.len(),
{
    let r = recent_ids(now, ts.drop_last());
    if is_recent(now, ts.last()) && d == ts.last().id {
        assert(ts[ts.len() - 1] == ts.last());
    } else {
        assert(r.contains(d)) by {
            if is_recent(now, ts.last()) {
                let j = choose|j: int| 0 <= j < recent_ids(now, ts).len() && recent_ids(now, ts)[j] == d;
                assert(j < r.len());
                assert(r[j] == d);
            }
        }
        law_candidates_are_recent(now, ts.drop_last(), d);
        let i = choose|i: int| 0 <= i < ts.drop_last().len() && ts.drop_last()[i].id == d && is_recent(now, #[trigger] ts.drop_last()[i]);
        assert(ts[i] == ts.drop_last()[i]);
    }
}

} // verus!
