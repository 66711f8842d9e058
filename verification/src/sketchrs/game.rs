//! One player of the drawing game: whether they are connected, the strokes of
//! their drawing, their score and who has already guessed their word.

use vstd::prelude::*;
use crate::arith::{div_i32, lemma_div_bound, trunc_div};
use crate::strmap::{lemma_map_values_insert, map_of, StrMap};
use crate::text::{clone_strings, contains_string, strings_view, take_chars, truncate_chars};
use crate::foreign::{edit_distance, levenshtein, lowercase, to_lowercase};
use vstd::utf8::encode_utf8;
use crate::sketchrs::packets::{replies_view, to_all, to_peer, Outgoing, OutgoingView, Recipient, Reply, ReplyView};

verus! {

/// What a player is, as the contracts see it.
pub struct PlayerView {
    pub active: bool,
    pub drawing: Seq<Seq<char>>,
    pub score: i32,
    /// The guessers, in the order of their first correct guess.
    pub guessers: Seq<Seq<char>>,
    /// The points each guesser earned on this player's word.
    pub guess_list: Map<Seq<char>, i32>,
}

/// A player as they are at the start of a round, before they connect.
pub open spec fn new_player_view() -> PlayerView {
    PlayerView {
        active: false,
        drawing: Seq::empty(),
        score: 0,
        guessers: Seq::empty(),
        guess_list: Map::empty(),
    }
}

/// Where `slice(i)` starts in a drawing of `len` strokes.
pub open spec fn slice_start(i: i32, len: nat) -> int {
    if (i as usize) < len {
        (i as usize) as int
    } else {
        len as int
    }
}

/// A negative index, taken as a `usize`, is past any drawing of at most
/// `i32::MAX` strokes.
pub proof fn lemma_negative_index(i: i32)
    requires
        i < 0,
    ensures
        (i as usize) > i32::MAX,
{
    assert((i as usize) > 0x7fff_ffffusize) by (bit_vector)
        requires
            i < 0,
    ;
}

/// How many strokes `undo(i)` keeps of a drawing of `len` strokes.
pub open spec fn undo_len(i: i32, len: nat) -> int {
    if (i as usize) < len {
        len - (i as usize)
    } else {
        0
    }
}

/// A player of the drawing game.
pub struct PlayerState {
    active: bool,
    drawing: Vec<String>,
    score: i32,
    guess_list: StrMap<i32>,
}

impl View for PlayerState {
    type V = PlayerView;

    closed spec fn view(&self) -> PlayerView {
        PlayerView {
            active: self.active,
            drawing: strings_view(self.drawing@),
            score: self.score,
            guessers: self.guess_list.keys_view(),
            guess_list: self.guess_list@,
        }
    }
}

impl PlayerState {
    /// The guess list is a well-formed map.
    pub closed spec fn wf(&self) -> bool {
        self.guess_list.wf()
    }

    /// A new, inactive player with no drawing, no score and no guesses.
    pub fn new() -> (p: Self)
        ensures
            p.wf(),
            p@ == new_player_view(),
    {
        let p = PlayerState { active: false, drawing: Vec::new(), score: 0, guess_list: StrMap::new() };
        assert(p@.drawing =~= Seq::<Seq<char>>::empty());
        p
    }

    /// Clears the drawing, the guesses and the score; keeps whether the player
    /// is connected.
    pub fn restart(&mut self)
        ensures
            final(self).wf(),
            final(self)@ == (PlayerView { active: old(self)@.active, ..new_player_view() }),
    {
        self.drawing = Vec::new();
        self.guess_list = StrMap::new();
        self.score = 0;
        assert(self@.drawing =~= Seq::<Seq<char>>::empty());
    }

    /// Marks the player as connected or not.
    pub fn set_active(&mut self, active: bool)
        requires
            old(self).wf(),
        ensures
            final(self).wf(),
            final(self)@ == (PlayerView { active, ..old(self)@ }),
    {
        self.active = active
    }

    /// Appends the strokes of `drawing` (leaving it empty) and returns the
    /// index of the first of them, as an `i32`.
    pub fn add_drawing(&mut self, drawing: &mut Vec<String>) -> (i: i32)
        requires
            old(self).wf(),
        ensures
            final(self).wf(),
            final(self)@ == (PlayerView {
                drawing: old(self)@.drawing + strings_view(old(drawing)@),
                ..old(self)@
            }),
            final(drawing)@ == Seq::<String>::empty(),
            i == old(self)@.drawing.len() as i32,
    {
        let i = self.drawing.len();
        self.drawing.append(drawing);
        assert(strings_view(self.drawing@) =~= old(self)@.drawing + strings_view(old(drawing)@));
        i as i32
    }

    /// Whether the player is connected.
    pub fn is_active(&self) -> (b: bool)
        ensures
            b == self@.active,
    {
        self.active
    }

    /// Removes the last `i` strokes; a count larger than the drawing, or a
    /// negative one, removes them all.
    pub fn undo(&mut self, i: i32)
        requires
            old(self).wf(),
        ensures
            final(self).wf(),
            final(self)@ == (PlayerView {
                drawing: old(self)@.drawing.take(undo_len(i, old(self)@.drawing.len())),
                ..old(self)@
            }),
            i < 0 && old(self)@.drawing.len() <= i32::MAX ==> final(self)@.drawing.len() == 0,
    {
        proof {
            if i < 0 {
                lemma_negative_index(i);
            }
        }
        let newlen = self.drawing.len().saturating_sub(i as usize);
        self.drawing.truncate(newlen);
        assert(strings_view(self.drawing@) =~= old(self)@.drawing.take(undo_len(i, old(self)@.drawing.len())));
    }

    /// The strokes from index `i` on; empty when `i` is past the end or
    /// negative.
    pub fn slice(&self, i: i32) -> (s: &[String])
        ensures
            strings_view(s@) == self@.drawing.subrange(slice_start(i, self@.drawing.len()), self@.drawing.len() as int),
            i < 0 && self@.drawing.len() <= i32::MAX ==> s@.len() == 0,
    {
        proof {
            if i < 0 {
                lemma_negative_index(i);
            }
        }
        let len = self.drawing.len();
        let start = if (i as usize) < len { i as usize } else { len };
        let s = &self.drawing.as_slice()[start..len];
        assert(strings_view(s@) =~= self@.drawing.subrange(slice_start(i, self@.drawing.len()), self@.drawing.len() as int));
        s
    }

    /// The player's score.
    pub fn score(&self) -> (s: i32)
        ensures
            s == self@.score,
    {
        self.score
    }

    /// The number of players who have guessed this player's word.
    pub fn guess_count(&self) -> (n: usize)
        requires
            self.wf(),
        ensures
            n == self@.guessers.len(),
    {
        self.guess_list.len()
    }

    /// The `k`-th guesser and the points they earned.
    pub fn guess_at(&self, k: usize) -> (r: (&String, i32))
        requires
            self.wf(),
            k < self@.guessers.len(),
        ensures
            r.0@ == self@.guessers[k as int],
            r.1 == self@.guess_list[r.0@],
    {
        proof {
            self.guess_list.lemma_view_at(k as int);
        }
        (self.guess_list.key_at(k), *self.guess_list.val_at(k))
    }

    /// The points `guesser` earned on this player's word, if they guessed it.
    pub fn guess_points(&self, guesser: &String) -> (r: Option<i32>)
        requires
            self.wf(),
        ensures
            r == (if self@.guess_list.contains_key(guesser@) {
                Some(self@.guess_list[guesser@])
            } else {
                None
            }),
    {
        match self.guess_list.get(guesser) {
            Some(p) => Some(*p),
            None => None,
        }
    }

    /// Records that `guesser` guessed this player's word for `points`, and adds
    /// `bonus` to the score.
    pub fn record_guess(&mut self, guesser: String, points: i32, bonus: i32)
        requires
            old(self).wf(),
            !old(self)@.guess_list.contains_key(guesser@),
            i32::MIN <= old(self)@.score + bonus <= i32::MAX,
        ensures
            final(self).wf(),
            final(self)@ == (PlayerView {
                score: (old(self)@.score + bonus) as i32,
                guessers: old(self)@.guessers.push(guesser@),
                guess_list: old(self)@.guess_list.insert(guesser@, points),
                ..old(self)@
            }),
    {
        self.guess_list.push_new(guesser, points);
        self.score = self.score + bonus;
    }

    /// Adds `points` to the score.
    pub fn add_score(&mut self, points: i32)
        requires
            old(self).wf(),
            i32::MIN <= old(self)@.score + points <= i32::MAX,
        ensures
            final(self).wf(),
            final(self)@ == (PlayerView { score: (old(self)@.score + points) as i32, ..old(self)@ }),
    {
        self.score = self.score + points;
    }
}


/// The phase of a round.
#[allow(non_camel_case_types)]
#[derive(Clone, Copy, Debug, PartialEq, Eq, Structural)]
pub enum GameState {
    LOBBY,
    RUNNING,
    POSTGAME,
}

/// What the shared game state is, as the contracts see it.
pub struct SendableView {
    /// The players' names, in the order in which they first appeared.
    pub names: Seq<Seq<char>>,
    pub players: Map<Seq<char>, PlayerView>,
    pub state: GameState,
    pub host: Option<Seq<char>>,
    pub time: i32,
    pub timelimit: i32,
    pub maxpoints: i32,
    pub end_on_time: bool,
}

/// The player called `name`, or a new one when there is none.
pub open spec fn player_or_new(players: Map<Seq<char>, PlayerView>, name: Seq<char>) -> PlayerView {
    if players.contains_key(name) {
        players[name]
    } else {
        new_player_view()
    }
}

/// The game state once a player called `name` exists.
pub open spec fn with_player(v: SendableView, name: Seq<char>) -> SendableView {
    if v.players.contains_key(name) {
        v
    } else {
        SendableView {
            names: v.names.push(name),
            players: v.players.insert(name, new_player_view()),
            ..v
        }
    }
}

/// A player after a restart: connected as before, with nothing else.
pub open spec fn restarted(p: PlayerView) -> PlayerView {
    PlayerView { active: p.active, ..new_player_view() }
}

/// Every player restarted.
pub open spec fn restarted_players(m: Map<Seq<char>, PlayerView>) -> Map<Seq<char>, PlayerView> {
    Map::new(|k: Seq<char>| m.contains_key(k), |k: Seq<char>| restarted(m[k]))
}

/// Whether `name` is a connected player.
pub open spec fn is_active_in(players: Map<Seq<char>, PlayerView>, name: Seq<char>) -> bool {
    players.contains_key(name) && players[name].active
}

/// How many of `names` are connected players.
pub open spec fn count_active(names: Seq<Seq<char>>, players: Map<Seq<char>, PlayerView>) -> int
    decreases names.len(),
{
    if names.len() == 0 {
        0
    } else {
        count_active(names.drop_last(), players) + if is_active_in(players, names.last()) {
            1int
        } else {
            0int
        }
    }
}

/// Over the connected players among `names`, the number of connected players
/// who have guessed their word.
pub open spec fn active_guess_total(names: Seq<Seq<char>>, players: Map<Seq<char>, PlayerView>) -> int
    decreases names.len(),
{
    if names.len() == 0 {
        0
    } else {
        active_guess_total(names.drop_last(), players) + if is_active_in(players, names.last()) {
            count_active(players[names.last()].guessers, players)
        } else {
            0int
        }
    }
}

/// The round is over when every connected player has guessed every other
/// connected player's word, or, when the round ends on time, once the time
/// is past the limit.
pub open spec fn is_over_spec(v: SendableView) -> bool {
    let a = count_active(v.names, v.players);
    a * (a - 1) == active_guess_total(v.names, v.players) || (v.end_on_time && v.time > v.timelimit)
}

/// The counts that `is_over` computes fit in an `i32`.
pub open spec fn counts_fit(v: SendableView) -> bool {
    let a = count_active(v.names, v.players);
    &&& a * (a - 1) <= i32::MAX
    &&& active_guess_total(v.names, v.players) <= i32::MAX
}

/// The points formula before the cap: `((timelimit / maxpoints) + timelimit
/// - time) * maxpoints / timelimit`, each division rounding toward zero.
pub open spec fn points_formula(time: i32, timelimit: i32, maxpoints: i32) -> int {
    trunc_div(
        (trunc_div(timelimit as int, maxpoints as int) + timelimit - time) * maxpoints,
        timelimit as int,
    )
}

/// The points a correct guess earns at `time`: the more of the time limit is
/// left, the more points, never more than `maxpoints`; none once time is up.
pub open spec fn points_spec(time: i32, timelimit: i32, maxpoints: i32) -> int {
    if time >= timelimit {
        0
    } else if points_formula(time, timelimit, maxpoints) > maxpoints {
        maxpoints as int
    } else {
        points_formula(time, timelimit, maxpoints)
    }
}

/// With a positive time limit and maximum, a guess earns between zero and
/// the maximum.
pub proof fn lemma_points_in_range(time: i32, timelimit: i32, maxpoints: i32)
    ensures
        maxpoints > 0 && timelimit > 0 ==> 0 <= points_spec(time, timelimit, maxpoints) <= maxpoints,
{
    if maxpoints > 0 && timelimit > 0 && time < timelimit {
        let q = trunc_div(timelimit as int, maxpoints as int);
        lemma_div_bound(timelimit as int, maxpoints as int);
        let a = q + timelimit - time;
        let m = maxpoints as int;
        assert(a * m >= 0) by (nonlinear_arith)
            requires
                a > 0,
                m > 0,
        ;
        lemma_div_bound(a * m, timelimit as int);
    }
}

/// Points never grow as the clock runs: for a positive time limit and
/// maximum, a later guess earns no more than an earlier one, and nothing once
/// the limit is reached.
pub proof fn law_points_fall_over_time(t1: i32, t2: i32, timelimit: i32, maxpoints: i32)
    requires
        t1 <= t2,
        timelimit > 0,
        maxpoints > 0,
    ensures
        points_spec(t1, timelimit, maxpoints) >= points_spec(t2, timelimit, maxpoints) >= 0,
        t2 >= timelimit ==> points_spec(t2, timelimit, maxpoints) == 0,
{
    lemma_points_in_range(t1, timelimit, maxpoints);
    lemma_points_in_range(t2, timelimit, maxpoints);
    if t2 < timelimit {
        let q = trunc_div(timelimit as int, maxpoints as int);
        lemma_div_bound(timelimit as int, maxpoints as int);
        let m = maxpoints as int;
        let d = timelimit as int;
        let x1 = (q + timelimit - t1) * m;
        let x2 = (q + timelimit - t2) * m;
        assert(0 <= x2 <= x1) by (nonlinear_arith)
            requires
                q + timelimit - t2 > 0,
                t1 <= t2,
                m > 0,
                x1 == (q + timelimit - t1) * m,
                x2 == (q + timelimit - t2) * m,
        ;
        assert(x2 / d <= x1 / d) by (nonlinear_arith)
            requires
                0 <= x2 <= x1,
                d > 0,
        ;
    }
}

/// A guess made later earns no more: of two games that differ only in their
/// clocks, with a positive time limit and maximum, a first correct guess at
/// the later clock earns no more than at the earlier one, never less than
/// zero, and nothing once the time limit is reached.
pub proof fn law_later_guess_earns_no_more(v: SendableView, t2: i32, drawer: Seq<char>, guesser: Seq<char>)
    requires
        v.time <= t2,
        v.timelimit > 0,
        v.maxpoints > 0,
        !with_player(v, drawer).players[drawer].guess_list.contains_key(guesser),
    ensures
        ({
            let later = SendableView { time: t2, ..v };
            &&& guess_spec(v, drawer, guesser).1 >= guess_spec(later, drawer, guesser).1 >= 0
            &&& t2 >= v.timelimit ==> guess_spec(later, drawer, guesser).1 == 0
        }),
{
    law_points_fall_over_time(v.time, t2, v.timelimit, v.maxpoints);
    let later = SendableView { time: t2, ..v };
    assert(with_player(later, drawer).players == with_player(v, drawer).players);
}

/// Every step of the points formula stays within `i32` and divides by a
/// number other than zero.
pub open spec fn points_defined(time: i32, timelimit: i32, maxpoints: i32) -> bool {
    time >= timelimit || {
        let q = trunc_div(timelimit as int, maxpoints as int);
        let x = (q + timelimit - time) * maxpoints;
        &&& maxpoints != 0
        &&& !(timelimit == i32::MIN && maxpoints == -1)
        &&& i32::MIN <= q + timelimit <= i32::MAX
        &&& i32::MIN <= q + timelimit - time <= i32::MAX
        &&& i32::MIN <= x <= i32::MAX
        &&& timelimit != 0
        &&& !(x == i32::MIN && timelimit == -1)
    }
}

/// The game state after `guesser` guesses `drawer`'s word.
pub open spec fn guess_spec(v: SendableView, drawer: Seq<char>, guesser: Seq<char>) -> (SendableView, int) {
    let p = points_spec(v.time, v.timelimit, v.maxpoints);
    let v1 = with_player(v, drawer);
    let d = v1.players[drawer];
    if d.guess_list.contains_key(guesser) {
        (v1, 0)
    } else {
        let d2 = PlayerView {
            score: (d.score + trunc_div(p, 5)) as i32,
            guessers: d.guessers.push(guesser),
            guess_list: d.guess_list.insert(guesser, p as i32),
            ..d
        };
        let v2 = SendableView { players: v1.players.insert(drawer, d2), ..v1 };
        let v3 = with_player(v2, guesser);
        let g = v3.players[guesser];
        (SendableView { players: v3.players.insert(guesser, PlayerView { score: (g.score + p) as i32, ..g }), ..v3 }, p)
    }
}

/// The scores that a guess changes stay within `i32`.
pub open spec fn guess_fits(v: SendableView, drawer: Seq<char>, guesser: Seq<char>) -> bool {
    let p = points_spec(v.time, v.timelimit, v.maxpoints);
    let v1 = with_player(v, drawer);
    let d = v1.players[drawer];
    &&& points_defined(v.time, v.timelimit, v.maxpoints)
    &&& !d.guess_list.contains_key(guesser) ==> {
        let d2 = PlayerView {
            score: (d.score + trunc_div(p, 5)) as i32,
            guessers: d.guessers.push(guesser),
            guess_list: d.guess_list.insert(guesser, p as i32),
            ..d
        };
        let v3 = with_player(SendableView { players: v1.players.insert(drawer, d2), ..v1 }, guesser);
        &&& i32::MIN <= d.score + trunc_div(p, 5) <= i32::MAX
        &&& i32::MIN <= v3.players[guesser].score + p <= i32::MAX
    }
}

/// The players, the phase, the host and the clock of one game; everything the
/// clients are sent.
pub struct SendableState {
    players: StrMap<PlayerState>,
    state: GameState,
    host: Option<String>,
    time: i32,
    timelimit: i32,
    maxpoints: i32,
    end_on_time: bool,
}

/// The view of each player.
pub open spec fn player_views(m: Map<Seq<char>, PlayerState>) -> Map<Seq<char>, PlayerView> {
    m.map_values(|p: PlayerState| p@)
}

impl View for SendableState {
    type V = SendableView;

    closed spec fn view(&self) -> SendableView {
        SendableView {
            names: self.players.keys_view(),
            players: player_views(self.players@),
            state: self.state,
            host: match self.host {
                Some(h) => Some(h@),
                None => None,
            },
            time: self.time,
            timelimit: self.timelimit,
            maxpoints: self.maxpoints,
            end_on_time: self.end_on_time,
        }
    }
}

impl SendableState {
    /// The player map is well formed, and so is every player.
    pub closed spec fn wf(&self) -> bool {
        &&& self.players.wf()
        &&& forall|i: int| 0 <= i < self.players.vals_view().len() ==> #[trigger] self.players.vals_view()[i].wf()
    }

    /// A game in the lobby, with no players, no host and the clock at zero.
    pub fn new(timelimit: i32, maxpoints: i32, end_on_time: bool) -> (s: Self)
        ensures
            s.wf(),
            s@ == (SendableView {
                names: Seq::empty(),
                players: Map::empty(),
                state: GameState::LOBBY,
                host: None,
                time: 0,
                timelimit,
                maxpoints,
                end_on_time,
            }),
    {
        let s = SendableState {
            players: StrMap::new(),
            state: GameState::LOBBY,
            time: 0,
            host: None,
            timelimit,
            maxpoints,
            end_on_time,
        };
        assert(player_views(s.players@) =~= Map::<Seq<char>, PlayerView>::empty());
        s
    }

    /// Back to the lobby with the clock at zero; every player keeps their
    /// connection and loses their drawing, guesses and score.
    pub fn restart(&mut self)
        requires
            old(self).wf(),
        ensures
            final(self).wf(),
            final(self)@ == (SendableView {
                state: GameState::LOBBY,
                time: 0,
                players: restarted_players(old(self)@.players),
                ..old(self)@
            }),
    {
        self.state = GameState::LOBBY;
        self.time = 0;
        let n = self.players.len();
        let ghost old_vals = self.players.vals_view();
        let mut i: usize = 0;
        while i < n
            invariant
                self.players.wf(),
                n == self.players.vals_view().len(),
                self.players.keys_view() == old(self).players.keys_view(),
                self.state == GameState::LOBBY,
                self.time == 0,
                self.host == old(self).host,
                self.timelimit == old(self).timelimit,
                self.maxpoints == old(self).maxpoints,
                self.end_on_time == old(self).end_on_time,
                old_vals.len() == n,
                i <= n,
                forall|j: int| 0 <= j < n ==> #[trigger] self.players.vals_view()[j].wf(),
                forall|j: int| 0 <= j < i ==> #[trigger] self.players.vals_view()[j]@ == restarted(old_vals[j]@),
                forall|j: int| i <= j < n ==> #[trigger] self.players.vals_view()[j] == old_vals[j],
            decreases n - i,
        {
            self.players.val_at_mut(i).restart();
            i = i + 1;
        }
        proof {
            assert forall|k: Seq<char>| #[trigger] player_views(self.players@).contains_key(k) implies
                player_views(self.players@)[k] == restarted_players(old(self)@.players)[k] by {
                let j = self.players.lemma_key_at(k);
                old(self).players.lemma_view_at(j);
            }
            assert(player_views(self.players@) =~= restarted_players(old(self)@.players));

        }
    }

    /// The host's name, if there is one.
    pub fn get_host(&self) -> (h: Option<&String>)
        ensures
            match h {
                Some(x) => self@.host == Some(x@),
                None => self@.host is None,
            },
    {
        self.host.as_ref()
    }

    /// Makes `new_host` the host, unless there already is one.
    pub fn set_host(&mut self, new_host: &str)
        requires
            old(self).wf(),
        ensures
            final(self).wf(),
            final(self)@ == (SendableView {
                host: if old(self)@.host is None { Some(new_host@) } else { old(self)@.host },
                ..old(self)@
            }),
    {
        if self.host.is_none() {
            self.host = Some(new_host.to_owned());
        }
    }

    /// The player called `name`, who is added, new, when there is none.
    pub fn get_player_mut(&mut self, name: &String) -> (p: &mut PlayerState)
        requires
            old(self).wf(),
        ensures
            p.wf(),
            p@ == player_or_new(old(self)@.players, name@),
            final(p).wf() ==> final(self).wf(),
            final(self)@ == (SendableView {
                players: with_player(old(self)@, name@).players.insert(name@, final(p)@),
                ..with_player(old(self)@, name@)
            }),
    {
        let i = match self.players.find(name) {
            Some(i) => {
                proof {
                    self.players.lemma_view_at(i as int);
                }
                i
            },
            None => {
                let ghost pre = self.players@;
                self.players.push_new(name.clone(), PlayerState::new());
                proof {
                    lemma_map_values_insert(pre, name@, |p: PlayerState| p@);
                    self.players.lemma_view_at(self.players.vals_view().len() - 1);
                }
                self.players.len() - 1
            },
        };
        proof {
            lemma_map_values_insert(self.players@, name@, |p: PlayerState| p@);
        }
        self.players.val_at_mut(i)
    }

    /// Advances the clock by one tick.
    pub fn tick_running(&mut self)
        requires
            old(self).wf(),
            old(self)@.time < i32::MAX,
        ensures
            final(self).wf(),
            final(self)@ == (SendableView { time: (old(self)@.time + 1) as i32, ..old(self)@ }),
    {
        self.time += 1;
    }

    /// Whether `name` is a connected player.
    fn player_is_active(&self, name: &String) -> (b: bool)
        requires
            self.wf(),
        ensures
            b == is_active_in(self@.players, name@),
    {
        if let Some(p) = self.players.get(name) {
            p.is_active()
        } else {
            false
        }
    }

    /// How many of the players who guessed `player`'s word are connected.
    fn player_count_guesses(&self, player: &PlayerState) -> (n: i32)
        requires
            self.wf(),
            player.wf(),
            count_active(player@.guessers, self@.players) <= i32::MAX,
        ensures
            n == count_active(player@.guessers, self@.players),
    {
        let m = player.guess_count();
        let mut acc: i32 = 0;
        let mut k: usize = 0;
        while k < m
            invariant
                self.wf(),
                player.wf(),
                m == player@.guessers.len(),
                k <= m,
                count_active(player@.guessers, self@.players) <= i32::MAX,
                acc == count_active(player@.guessers.take(k as int), self@.players),
            decreases m - k,
        {
            let (name, _) = player.guess_at(k);
            proof {
                let gs = player@.guessers;
                assert(gs.take(k + 1).drop_last() =~= gs.take(k as int));
                lemma_count_active_prefix(gs, self@.players, k + 1, m as int);
            }
            if self.player_is_active(name) {
                proof {
                    lemma_count_active_mono(player@.guessers, self@.players, k + 1);
                }
                acc = acc + 1;
            }
            k = k + 1;
        }
        assert(player@.guessers.take(m as int) =~= player@.guessers);
        acc
    }

    /// Whether the round is over; see `is_over_spec`.
    pub fn is_over(&self) -> (b: bool)
        requires
            self.wf(),
            counts_fit(self@),
        ensures
            b == is_over_spec(self@),
    {
        let n = self.players.len();
        let mut count_actives: i32 = 0;
        let mut count_guesses: i32 = 0;
        let mut i: usize = 0;
        let ghost names = self@.names;
        let ghost ps = self@.players;
        while i < n
            invariant
                self.wf(),
                n == names.len(),
                names == self@.names,
                ps == self@.players,
                counts_fit(self@),
                i <= n,
                count_actives == count_active(names.take(i as int), ps),
                count_guesses == active_guess_total(names.take(i as int), ps),
            decreases n - i,
        {
            proof {
                assert(names.take(i + 1).drop_last() =~= names.take(i as int));
                lemma_count_active_prefix(names, ps, i + 1, n as int);
                lemma_active_guess_total_prefix(names, ps, i + 1, n as int);
                self.players.lemma_view_at(i as int);
            }
            let p = self.players.val_at(i);
            if p.is_active() {
                proof {
                    assert(ps[names[i as int]] == p@);
                    lemma_count_active_le_total(names, ps, i as int, n as int);
                }
                let c = self.player_count_guesses(p);
                count_actives = count_actives + 1;
                count_guesses = count_guesses + c;
            }
            i = i + 1;
        }
        proof {
            assert(names.take(n as int) =~= names);
            let a = count_actives as int;
            lemma_count_active_nonneg(names, ps);
            assert(a * (a - 1) <= i32::MAX);
            if a == 0 {
                assert(a * (a - 1) == 0) by (nonlinear_arith)
                    requires
                        a == 0,
                ;
            } else {
                assert(a * (a - 1) >= 0) by (nonlinear_arith)
                    requires
                        a > 0,
                ;
            }
        }
        let over_by_count = count_actives * (count_actives - 1) == count_guesses;
        over_by_count || (self.end_on_time && self.time > self.timelimit)
    }

    /// Sets the phase.
    pub fn set_state(&mut self, new_state: GameState)
        ensures
            final(self).wf() == old(self).wf(),
            final(self)@ == (SendableView { state: new_state, ..old(self)@ }),
    {
        self.state = new_state;
    }

    /// The phase.
    pub fn get_state(&self) -> (s: GameState)
        ensures
            s == self@.state,
    {
        self.state
    }

    /// The number of players.
    pub fn player_count(&self) -> (n: usize)
        requires
            self.wf(),
        ensures
            n == self@.names.len(),
    {
        self.players.len()
    }

    /// The `i`-th player, with their name.
    pub fn player_at(&self, i: usize) -> (r: (&String, &PlayerState))
        requires
            self.wf(),
            i < self@.names.len(),
        ensures
            r.0@ == self@.names[i as int],
            r.1.wf(),
            r.1@ == self@.players[r.0@],
    {
        proof {
            self.players.lemma_view_at(i as int);
        }
        (self.players.key_at(i), self.players.val_at(i))
    }

    /// The clock, the time limit, the maximum points and whether the round
    /// ends on time.
    pub fn clock(&self) -> (r: (i32, i32, i32, bool))
        ensures
            r == (self@.time, self@.timelimit, self@.maxpoints, self@.end_on_time),
    {
        (self.time, self.timelimit, self.maxpoints, self.end_on_time)
    }

    /// Whether the counts of `is_over` fit in an `i32`; see `counts_fit`.
    pub fn counts_fit(&self) -> (b: bool)
        requires
            self.wf(),
        ensures
            b == counts_fit(self@),
    {
        let n = self.players.len();
        let ghost names = self@.names;
        let ghost ps = self@.players;
        let mut actives: u64 = 0;
        let mut total: u64 = 0;
        let mut i: usize = 0;
        while i < n
            invariant
                self.wf(),
                n == names.len(),
                names == self@.names,
                ps == self@.players,
                i <= n,
                actives == count_active(names.take(i as int), ps),
                total == active_guess_total(names.take(i as int), ps),
                total <= i32::MAX,
                actives <= i,
            decreases n - i,
        {
            proof {
                lemma_count_active_prefix(names, ps, i + 1, n as int);
                lemma_active_guess_total_prefix(names, ps, i + 1, n as int);
                self.players.lemma_view_at(i as int);
            }
            let p = self.players.val_at(i);
            if p.is_active() {
                assert(ps[names[i as int]] == p@);
                let m = p.guess_count();
                let mut c: u64 = 0;
                let mut k: usize = 0;
                while k < m
                    invariant
                        self.wf(),
                        p.wf(),
                        ps == self@.players,
                        names == self@.names,
                        n == names.len(),
                        i < n,
                        p@ == ps[names[i as int]],
                        is_active_in(ps, names[i as int]),
                        total == active_guess_total(names.take(i as int), ps),
                        m == p@.guessers.len(),
                        k <= m,
                        c == count_active(p@.guessers.take(k as int), ps),
                        c <= k,
                        total + c <= i32::MAX,
                    decreases m - k,
                {
                    let (name, _) = p.guess_at(k);
                    proof {
                        lemma_count_active_prefix(p@.guessers, ps, k + 1, m as int);
                    }
                    if self.player_is_active(name) {
                        c = c + 1;
                    }
                    k = k + 1;
                    if total + c > i32::MAX as u64 {
                        proof {
                            lemma_count_active_mono(p@.guessers, ps, k as int);
                            lemma_active_guess_total_mono(names, ps, i + 1);
                            lemma_active_guess_total_prefix(names, ps, i + 1, n as int);
                        }
                        return false;
                    }
                }
                assert(p@.guessers.take(m as int) =~= p@.guessers);
                actives = actives + 1;
                total = total + c;
            }
            i = i + 1;
        }
        assert(names.take(n as int) =~= names);
        proof {
            lemma_count_active_nonneg(names, ps);
        }
        if actives > 46341 {
            proof {
                let a = actives as int;
                assert(a * (a - 1) > i32::MAX) by (nonlinear_arith)
                    requires
                        a > 46341,
                ;
            }
            return false;
        }
        let a = actives as u64;
        proof {
            let ai = a as int;
            assert(ai * (ai - 1) <= 46341 * 46340 || ai == 0) by (nonlinear_arith)
                requires
                    0 <= ai <= 46341,
            ;
        }
        if a == 0 {
            proof {
                assert(0 * (0 - 1) == 0int) by (nonlinear_arith);
            }
            true
        } else {
            a * (a - 1) <= i32::MAX as u64
        }
    }

    /// Whether a guess by `guesser` at `drawer`'s word would keep its
    /// arithmetic within `i32`; see `guess_fits`.
    pub fn guess_fits(&self, drawer: &String, guesser: &String) -> (b: bool)
        requires
            self.wf(),
        ensures
            b == guess_fits(self@, drawer@, guesser@),
    {
        let time = self.time;
        let tl = self.timelimit;
        let mp = self.maxpoints;
        let p: i32 = if time >= tl {
            0
        } else {
            if mp == 0 || (tl == i32::MIN && mp == -1) {
                return false;
            }
            let q = div_i32(tl, mp) as i64;
            let s1 = q + tl as i64;
            if s1 < i32::MIN as i64 || s1 > i32::MAX as i64 {
                return false;
            }
            let s2 = s1 - time as i64;
            if s2 < i32::MIN as i64 || s2 > i32::MAX as i64 {
                return false;
            }
            proof {
                let a = s2 as int;
                let c = mp as int;
                assert(-0x80000000 * 0x80000000 <= a * c <= 0x80000000 * 0x80000000) by (nonlinear_arith)
                    requires
                        -0x80000000 <= a <= 0x80000000,
                        -0x80000000 <= c <= 0x80000000,
                ;
            }
            let x = s2 * mp as i64;
            if x < i32::MIN as i64 || x > i32::MAX as i64 {
                return false;
            }
            if tl == 0 || (x == i32::MIN as i64 && tl == -1) {
                return false;
            }
            let f = div_i32(x as i32, tl);
            if f > mp { mp } else { f }
        };
        assert(p == points_spec(self@.time, self@.timelimit, self@.maxpoints));
        let (dscore, guessed) = match self.players.get(drawer) {
            Some(pl) => (pl.score(), pl.guess_points(guesser).is_some()),
            None => (0i32, false),
        };
        if guessed {
            return true;
        }
        let bonus = div_i32(p, 5);
        let ds = dscore as i64 + bonus as i64;
        if ds < i32::MIN as i64 || ds > i32::MAX as i64 {
            return false;
        }
        let base: i64 = if *guesser == *drawer {
            ds
        } else {
            match self.players.get(guesser) {
                Some(pl) => pl.score() as i64,
                None => 0,
            }
        };
        let gs = base + p as i64;
        gs >= i32::MIN as i64 && gs <= i32::MAX as i64
    }

    /// Credits `guesser` with guessing `drawer`'s word: the first time, the
    /// guesser earns the points of the moment and the drawer a fifth of them,
    /// and those points are returned; a repeated guess earns nothing. Either
    /// player is added when missing.
    pub fn guess(&mut self, drawer: &String, guesser: &String) -> (r: i32)
        requires
            old(self).wf(),
            guess_fits(old(self)@, drawer@, guesser@),
        ensures
            final(self).wf(),
            final(self)@ == guess_spec(old(self)@, drawer@, guesser@).0,
            r == guess_spec(old(self)@, drawer@, guesser@).1,
            old(self)@.maxpoints > 0 && old(self)@.timelimit > 0 ==> 0 <= r <= old(self)@.maxpoints,
    {
        proof {
            lemma_points_in_range(old(self)@.time, old(self)@.timelimit, old(self)@.maxpoints);
        }
        let points = if self.time >= self.timelimit {
            0
        } else {
            let f = div_i32(
                (div_i32(self.timelimit, self.maxpoints) + self.timelimit - self.time) * self.maxpoints,
                self.timelimit,
            );
            if f > self.maxpoints { self.maxpoints } else { f }
        };
        let ghost v0 = self@;
        let ghost p = points_spec(v0.time, v0.timelimit, v0.maxpoints);
        assert(points == p);
        let player = self.get_player_mut(drawer);
        if player.guess_points(guesser).is_none() {
            let bonus = div_i32(points, 5);
            player.record_guess(guesser.clone(), points, bonus);
            let ghost v2 = self@;
            proof {
                let v1 = with_player(v0, drawer@);
                let d = v1.players[drawer@];
                let d2 = PlayerView {
                    score: (d.score + trunc_div(p, 5)) as i32,
                    guessers: d.guessers.push(guesser@),
                    guess_list: d.guess_list.insert(guesser@, p as i32),
                    ..d
                };
                assert(v2 == SendableView { players: v1.players.insert(drawer@, d2), ..v1 });
            }
            self.get_player_mut(guesser).add_score(points);
            proof {
                let v3 = with_player(v2, guesser@);
                let g = v3.players[guesser@];
                assert(self@ == SendableView {
                    players: v3.players.insert(guesser@, PlayerView { score: (g.score + p) as i32, ..g }),
                    ..v3
                });
            }
            points
        } else {
            proof {
                let v1 = with_player(v0, drawer@);
                assert(v1.players.insert(drawer@, v1.players[drawer@]) =~= v1.players);
                assert(self@ == v1);
            }
            0
        }
    }
}

/// Counting over a prefix one longer adds the next name.
pub proof fn lemma_count_active_prefix(names: Seq<Seq<char>>, players: Map<Seq<char>, PlayerView>, k: int, n: int)
    requires
        0 < k <= n,
        n == names.len(),
    ensures
        count_active(names.take(k), players) == count_active(names.take(k - 1), players)
            + if is_active_in(players, names[k - 1]) { 1int } else { 0int },
{
    assert(names.take(k).drop_last() =~= names.take(k - 1));
}

/// Summing over a prefix one longer adds the next name's count.
pub proof fn lemma_active_guess_total_prefix(names: Seq<Seq<char>>, players: Map<Seq<char>, PlayerView>, k: int, n: int)
    requires
        0 < k <= n,
        n == names.len(),
    ensures
        active_guess_total(names.take(k), players) == active_guess_total(names.take(k - 1), players)
            + if is_active_in(players, names[k - 1]) {
                count_active(players[names[k - 1]].guessers, players)
            } else {
                0int
            },
{
    assert(names.take(k).drop_last() =~= names.take(k - 1));
}

/// Counts are never negative.
pub proof fn lemma_count_active_nonneg(names: Seq<Seq<char>>, players: Map<Seq<char>, PlayerView>)
    ensures
        0 <= count_active(names, players) <= names.len(),
    decreases names.len(),
{
    if names.len() > 0 {
        lemma_count_active_nonneg(names.drop_last(), players);
    }
}

/// Totals are never negative.
pub proof fn lemma_active_guess_total_nonneg(names: Seq<Seq<char>>, players: Map<Seq<char>, PlayerView>)
    ensures
        0 <= active_guess_total(names, players),
    decreases names.len(),
{
    if names.len() > 0 {
        lemma_active_guess_total_nonneg(names.drop_last(), players);
        lemma_count_active_nonneg(players[names.last()].guessers, players);
    }
}

/// The partial sums of `active_guess_total` grow with the prefix.
pub proof fn lemma_active_guess_total_mono(names: Seq<Seq<char>>, players: Map<Seq<char>, PlayerView>, k: int)
    requires
        0 <= k <= names.len(),
    ensures
        active_guess_total(names.take(k), players) <= active_guess_total(names, players),
    decreases names.len() - k,
{
    if k < names.len() {
        lemma_active_guess_total_mono(names, players, k + 1);
        lemma_active_guess_total_prefix(names, players, k + 1, names.len() as int);
        lemma_count_active_nonneg(players[names[k]].guessers, players);
    } else {
        assert(names.take(k) =~= names);
    }
}

/// The partial counts of `count_active` grow with the prefix.
pub proof fn lemma_count_active_mono(names: Seq<Seq<char>>, players: Map<Seq<char>, PlayerView>, k: int)
    requires
        0 <= k <= names.len(),
    ensures
        count_active(names.take(k), players) <= count_active(names, players),
    decreases names.len() - k,
{
    if k < names.len() {
        lemma_count_active_mono(names, players, k + 1);
        lemma_count_active_prefix(names, players, k + 1, names.len() as int);
    } else {
        assert(names.take(k) =~= names);
    }
}

/// While `is_over` adds up the counts, every partial sum fits.
proof fn lemma_count_active_le_total(names: Seq<Seq<char>>, players: Map<Seq<char>, PlayerView>, i: int, n: int)
    requires
        0 <= i < n,
        n == names.len(),
        is_active_in(players, names[i]),
        active_guess_total(names, players) <= i32::MAX,
        count_active(names, players) * (count_active(names, players) - 1) <= i32::MAX,
    ensures
        active_guess_total(names.take(i), players) + count_active(players[names[i]].guessers, players) <= i32::MAX,
        count_active(names.take(i), players) + 1 <= i32::MAX,
        count_active(players[names[i]].guessers, players) <= i32::MAX,
        0 <= active_guess_total(names.take(i), players),
        0 <= count_active(players[names[i]].guessers, players),
        0 <= count_active(names.take(i), players),
{
    lemma_active_guess_total_mono(names, players, i + 1);
    lemma_active_guess_total_prefix(names, players, i + 1, n);
    lemma_count_active_mono(names, players, i + 1);
    lemma_count_active_prefix(names, players, i + 1, n);
    lemma_count_active_nonneg(names.take(i), players);
    lemma_active_guess_total_nonneg(names.take(i), players);
    let a = count_active(names, players);
    let b = count_active(names.take(i), players);
    assert(b + 1 <= a);
    assert(a * (a - 1) <= i32::MAX);
    if a >= 2 {
        assert(a <= a * (a - 1)) by (nonlinear_arith)
            requires
                a >= 2,
        ;
    }
    lemma_count_active_nonneg(players[names[i]].guessers, players);
    assert(names.take(i).take(0) =~= Seq::<Seq<char>>::empty());
}


/// The longest login name kept; longer names are cut to this many characters.
pub const MAX_NAME_LENGTH: usize = 24;

/// The first `max_chars` characters of `s`.
pub fn truncate(s: &str, max_chars: usize) -> (r: String)
    ensures
        r@ == take_chars(s@, max_chars as nat),
{
    truncate_chars(s, max_chars)
}

/// The length of a string in UTF-8 bytes, as `str::len` gives it.
pub open spec fn byte_len(s: Seq<char>) -> nat {
    (encode_utf8(s).len() as usize) as nat
}

/// A guess is good when, ignoring case, it is within one edit per five bytes
/// of the shorter of the guess and the word.
pub open spec fn good_guess(guess: Seq<char>, word: Seq<char>) -> bool {
    let g = byte_len(guess);
    let w = byte_len(word);
    edit_distance(lowercase(guess), lowercase(word)) <= (if g <= w { g } else { w }) / 5
}

/// What the whole server state is, as the contracts see it.
pub struct StateView {
    /// The connected clients' names, in the order in which they connected.
    pub peers: Seq<Seq<char>>,
    pub sendable: SendableView,
    /// The players who have a word, in the order in which they got it.
    pub drawers: Seq<Seq<char>>,
    /// The word of each drawer, at the same position.
    pub assigned: Seq<Seq<char>>,
    /// The words not handed out yet; the last one goes next.
    pub word_pool: Seq<Seq<char>>,
}

/// Each drawer's word.
pub open spec fn word_map(v: StateView) -> Map<Seq<char>, Seq<char>> {
    map_of(v.drawers, v.assigned)
}

/// Whether the guess matches the word of the drawer at position `j`, who is
/// not the guesser.
pub open spec fn matches_at(v: StateView, guess: Seq<char>, guesser: Seq<char>, j: int) -> bool {
    good_guess(guess, v.assigned[j]) && v.drawers[j] != guesser
}

/// The first position from `i` on whose word the guess matches.
pub open spec fn first_match_from(v: StateView, guess: Seq<char>, guesser: Seq<char>, i: int) -> Option<int>
    decreases v.drawers.len() - i,
{
    if i < 0 || i >= v.drawers.len() {
        None
    } else if matches_at(v, guess, guesser, i) {
        Some(i)
    } else {
        first_match_from(v, guess, guesser, i + 1)
    }
}

/// The state after a guess, and, when it matched someone's word, the points
/// and the drawer.
pub open spec fn state_guess_spec(v: StateView, guesser: Seq<char>, guess: Seq<char>) -> (StateView, Option<(int, Seq<char>)>) {
    match first_match_from(v, guess, guesser, 0) {
        None => (v, None),
        Some(j) => {
            let (s2, p) = guess_spec(v.sendable, v.drawers[j], guesser);
            (StateView { sendable: s2, ..v }, Some((p, v.drawers[j])))
        },
    }
}

/// The arithmetic of a guess fits, when it matches someone's word.
pub open spec fn state_guess_fits(v: StateView, guesser: Seq<char>, guess: Seq<char>) -> bool {
    match first_match_from(v, guess, guesser, 0) {
        None => true,
        Some(j) => guess_fits(v.sendable, v.drawers[j], guesser),
    }
}

/// Words handed out so far and words left, with the assignments made.
pub struct Assignment {
    pub drawers: Seq<Seq<char>>,
    pub assigned: Seq<Seq<char>>,
    pub word_pool: Seq<Seq<char>>,
    pub out: Seq<(Seq<char>, Seq<char>)>,
}

/// Gives `p` a word: the one they have, or else the last word of the pool.
pub open spec fn assign_step(a: Assignment, p: Seq<char>) -> Assignment {
    let m = map_of(a.drawers, a.assigned);
    if m.contains_key(p) {
        Assignment { out: a.out.push((p, m[p])), ..a }
    } else {
        let w = a.word_pool.last();
        Assignment {
            drawers: a.drawers.push(p),
            assigned: a.assigned.push(w),
            word_pool: a.word_pool.drop_last(),
            out: a.out.push((p, w)),
        }
    }
}

/// Gives each of `peers` a word, in order.
pub open spec fn assign_seq(a: Assignment, peers: Seq<Seq<char>>) -> Assignment
    decreases peers.len(),
{
    if peers.len() == 0 {
        a
    } else {
        assign_step(assign_seq(a, peers.drop_last()), peers.last())
    }
}

/// The pool has a word whenever one of `peers` needs one.
pub open spec fn assign_seq_ok(a: Assignment, peers: Seq<Seq<char>>) -> bool
    decreases peers.len(),
{
    if peers.len() == 0 {
        true
    } else {
        let b = assign_seq(a, peers.drop_last());
        assign_seq_ok(a, peers.drop_last()) && (map_of(b.drawers, b.assigned).contains_key(peers.last())
            || b.word_pool.len() > 0)
    }
}

/// The assignment state of a server state.
pub open spec fn assignment_of(v: StateView) -> Assignment {
    Assignment { drawers: v.drawers, assigned: v.assigned, word_pool: v.word_pool, out: Seq::empty() }
}

/// The state after `assign_all`.
pub open spec fn assign_all_spec(v: StateView) -> (StateView, Seq<(Seq<char>, Seq<char>)>) {
    let a = assign_seq(assignment_of(v), v.peers);
    (StateView { drawers: a.drawers, assigned: a.assigned, word_pool: a.word_pool, ..v }, a.out)
}

/// The replies that announce assignments, each to the player it concerns.
pub open spec fn assign_replies(out: Seq<(Seq<char>, Seq<char>)>) -> Seq<ReplyView> {
    out.map_values(
        |x: (Seq<char>, Seq<char>)| to_peer(x.0, OutgoingView::Assign { username: x.0, assignment: x.1 }),
    )
}

/// The names of connected clients after `name` connects.
pub open spec fn peers_with(peers: Seq<Seq<char>>, name: Seq<char>) -> Seq<Seq<char>> {
    if peers.contains(name) {
        peers
    } else {
        peers.push(name)
    }
}

/// The host may start and restart the game.
pub open spec fn is_host(v: SendableView, name: Seq<char>) -> bool {
    v.host == Some(name)
}

/// The game server: the connected clients, the shared game state, each
/// drawer's word and the words left to hand out.
pub struct State {
    peers: StrMap<()>,
    sendable: SendableState,
    words: StrMap<String>,
    word_pool: Vec<String>,
}

impl View for State {
    type V = StateView;

    closed spec fn view(&self) -> StateView {
        StateView {
            peers: self.peers.keys_view(),
            sendable: self.sendable@,
            drawers: self.words.keys_view(),
            assigned: strings_view(self.words.vals_view()),
            word_pool: strings_view(self.word_pool@),
        }
    }
}

impl State {
    /// The maps are well formed.
    pub closed spec fn wf(&self) -> bool {
        &&& self.peers.wf()
        &&& self.sendable.wf()
        &&& self.words.wf()
    }

    /// What a well-formed server's view keeps: no client is connected twice,
    /// every drawer has one word, and no drawer is listed twice.
    pub proof fn lemma_wf_view(&self)
        requires
            self.wf(),
        ensures
            self@.peers.no_duplicates(),
            self@.drawers.len() == self@.assigned.len(),
            self@.drawers.no_duplicates(),
    {
        assert(self@.assigned.len() == self.words.vals_view().len());
    }

    /// The words map agrees with the view.
    proof fn lemma_words(&self)
        requires
            self.wf(),
        ensures
            strings_view(self.words.vals_view()).len() == self.words.keys_view().len(),
            forall|k: Seq<char>| #[trigger] word_map(self@).contains_key(k) <==> self.words@.contains_key(k),
            forall|k: Seq<char>| #[trigger] word_map(self@).contains_key(k) ==> word_map(self@)[k] == self.words@[k]@,
    {
        assert forall|k: Seq<char>| #[trigger] word_map(self@).contains_key(k) implies word_map(self@)[k] == self.words@[k]@ by {
            let j = self.words.lemma_key_at(k);
            let ks = self.words.keys_view();
            assert(ks[j] == k);
            assert(ks.index_of(k) == j);
        }
    }

    /// A server with no clients, no words and a new game in the lobby.
    pub fn new(timelimit: i32, maxpoints: i32, end_on_time: bool) -> (s: Self)
        ensures
            s.wf(),
            s@.peers == Seq::<Seq<char>>::empty(),
            s@.sendable == (SendableView {
                names: Seq::empty(),
                players: Map::empty(),
                state: GameState::LOBBY,
                host: None,
                time: 0,
                timelimit,
                maxpoints,
                end_on_time,
            }),
            s@.drawers == Seq::<Seq<char>>::empty(),
            s@.assigned == Seq::<Seq<char>>::empty(),
            s@.word_pool == Seq::<Seq<char>>::empty(),
    {
        let s = State {
            peers: StrMap::new(),
            sendable: SendableState::new(timelimit, maxpoints, end_on_time),
            words: StrMap::new(),
            word_pool: Vec::new(),
        };
        assert(s@.assigned =~= Seq::<Seq<char>>::empty());
        assert(s@.word_pool =~= Seq::<Seq<char>>::empty());
        s
    }

    /// The connected clients' names.
    pub fn peer_count(&self) -> (n: usize)
        requires
            self.wf(),
        ensures
            n == self@.peers.len(),
    {
        self.peers.len()
    }

    /// The name of the `i`-th connected client.
    pub fn peer_at(&self, i: usize) -> (name: &String)
        requires
            self.wf(),
            i < self@.peers.len(),
        ensures
            name@ == self@.peers[i as int],
    {
        self.peers.key_at(i)
    }

    /// The shared game state.
    pub fn sendable(&self) -> (s: &SendableState)
        requires
            self.wf(),
        ensures
            s.wf(),
            s@ == self@.sendable,
    {
        &self.sendable
    }

    /// Adds words to the end of the pool.
    pub fn add_words(&mut self, words: Vec<String>)
        requires
            old(self).wf(),
        ensures
            final(self).wf(),
            final(self)@ == (StateView { word_pool: old(self)@.word_pool + strings_view(words@), ..old(self)@ }),
    {
        let ghost added = strings_view(words@);
        let mut words = words;
        self.word_pool.append(&mut words);
        assert(strings_view(self.word_pool@) =~= old(self)@.word_pool + added);
    }

    /// One tick of the clock: a running game's clock advances and, once the
    /// round is over, the game moves to its end. Returns whether it just
    /// ended, when the full state is owed to every client.
    pub fn tick(&mut self) -> (ended: bool)
        requires
            old(self).wf(),
            old(self)@.sendable.state == GameState::RUNNING ==> old(self)@.sendable.time < i32::MAX
                && counts_fit(old(self)@.sendable),
        ensures
            final(self).wf(),
            old(self)@.sendable.state != GameState::RUNNING ==> final(self)@ == old(self)@ && !ended,
            old(self)@.sendable.state == GameState::RUNNING ==> {
                let t = SendableView { time: (old(self)@.sendable.time + 1) as i32, ..old(self)@.sendable };
                &&& ended == is_over_spec(t)
                &&& final(self)@ == (StateView {
                    sendable: if ended { SendableView { state: GameState::POSTGAME, ..t } } else { t },
                    ..old(self)@
                })
            },
    {
        match self.sendable.get_state() {
            GameState::LOBBY => false,
            GameState::RUNNING => {
                self.sendable.tick_running();
                if self.sendable.is_over() {
                    self.sendable.set_state(GameState::POSTGAME);
                    true
                } else {
                    false
                }
            },
            GameState::POSTGAME => false,
        }
    }

    /// Whether `guess` is close enough to `word`; see `good_guess`.
    pub fn guess_is_good(&self, guess: &str, word: &str) -> (b: bool)
        ensures
            b == good_guess(guess@, word@),
    {
        let distance = levenshtein(to_lowercase(guess).as_str(), to_lowercase(word).as_str());
        let g = guess.len();
        let w = word.len();
        distance <= (if g <= w { g } else { w }) / 5
    }

    /// `guesser` guesses `guess`: the first drawer (in the order in which they
    /// got their words) other than the guesser whose word the guess matches
    /// is credited; returns the points and that drawer, or `None` when the
    /// guess matches nobody's word.
    pub fn guess(&mut self, guesser: &String, guess: &String) -> (r: Option<(i32, String)>)
        requires
            old(self).wf(),
            state_guess_fits(old(self)@, guesser@, guess@),
        ensures
            final(self).wf(),
            final(self)@ == state_guess_spec(old(self)@, guesser@, guess@).0,
            match r {
                None => state_guess_spec(old(self)@, guesser@, guess@).1 is None,
                Some((p, d)) => state_guess_spec(old(self)@, guesser@, guess@).1 == Some((p as int, d@)),
            },
            r matches Some((p, d)) ==> d@ != guesser@,
    {
        proof {
            law_guess_never_credits_the_guesser(old(self)@, guesser@, guess@);
        }
        let n = self.words.len();
        let mut i: usize = 0;
        while i < n
            invariant
                self.wf(),
                self@ == old(self)@,
                n == self@.drawers.len(),
                n == self.words.vals_view().len(),
                i <= n,
                first_match_from(self@, guess@, guesser@, 0) == first_match_from(self@, guess@, guesser@, i as int),
                state_guess_fits(old(self)@, guesser@, guess@),
            decreases n - i,
        {
            let drawer = self.words.key_at(i);
            let word = self.words.val_at(i);
            proof {
                assert(self@.assigned[i as int] == word@);
                assert(self@.drawers[i as int] == drawer@);
            }
            if self.guess_is_good(guess.as_str(), word.as_str()) && *drawer != *guesser {
                assert(matches_at(self@, guess@, guesser@, i as int));
                assert(first_match_from(self@, guess@, guesser@, i as int) == Some(i as int));
                let d = drawer.clone();
                let p = self.sendable.guess(&d, guesser);
                return Some((p, d));
            }
            i = i + 1;
        }
        None
    }

    /// Back to the lobby: the game restarts and every word assignment is
    /// forgotten.
    pub fn restart(&mut self)
        requires
            old(self).wf(),
        ensures
            final(self).wf(),
            final(self)@ == (StateView {
                sendable: SendableView {
                    state: GameState::LOBBY,
                    time: 0,
                    players: restarted_players(old(self)@.sendable.players),
                    ..old(self)@.sendable
                },
                drawers: Seq::empty(),
                assigned: Seq::empty(),
                ..old(self)@
            }),
    {
        self.sendable.restart();
        self.words = StrMap::new();
        assert(strings_view(self.words.vals_view()) =~= Seq::<Seq<char>>::empty());
    }

    /// Gives `drawer` a word, unless they have one: the last word of the pool.
    /// Returns the drawer's word.
    pub fn assign_word(&mut self, drawer: &String) -> (w: String)
        requires
            old(self).wf(),
            word_map(old(self)@).contains_key(drawer@) || old(self)@.word_pool.len() > 0,
        ensures
            final(self).wf(),
            ({
                let a = assign_step(assignment_of(old(self)@), drawer@);
                &&& final(self)@ == (StateView {
                    drawers: a.drawers,
                    assigned: a.assigned,
                    word_pool: a.word_pool,
                    ..old(self)@
                })
                &&& w@ == a.out.last().1
            }),
    {
        proof {
            self.lemma_words();
        }
        if let Some(x) = self.words.get(drawer) {
            return x.clone();
        }
        let word = match self.word_pool.pop() {
            Some(word) => word,
            None => {
                proof {
                    assert(false);
                }
                String::new()
            },
        };
        assert(strings_view(self.word_pool@) =~= old(self)@.word_pool.drop_last());
        self.words.push_new(drawer.clone(), word.clone());
        assert(strings_view(self.words.vals_view()) =~= old(self)@.assigned.push(word@));
        word
    }

    /// Gives every connected client a word, in the order in which they
    /// connected; returns each client with their word.
    pub fn assign_all(&mut self) -> (out: Vec<(String, String)>)
        requires
            old(self).wf(),
            assign_seq_ok(assignment_of(old(self)@), old(self)@.peers),
        ensures
            final(self).wf(),
            final(self)@ == assign_all_spec(old(self)@).0,
            out@.map_values(|x: (String, String)| (x.0@, x.1@)) == assign_all_spec(old(self)@).1,
    {
        let n = self.peers.len();
        let ghost peers = old(self)@.peers;
        let ghost a0 = assignment_of(old(self)@);
        let mut out: Vec<(String, String)> = Vec::new();
        let mut i: usize = 0;
        while i < n
            invariant
                self.wf(),
                n == peers.len(),
                i <= n,
                peers == self@.peers,
                assign_seq_ok(a0, peers),
                ({
                    let a = assign_seq(a0, peers.take(i as int));
                    &&& self@ == (StateView {
                        drawers: a.drawers,
                        assigned: a.assigned,
                        word_pool: a.word_pool,
                        ..old(self)@
                    })
                    &&& out@.map_values(|x: (String, String)| (x.0@, x.1@)) == a.out
                }),
            decreases n - i,
        {
            proof {
                assert(peers.take(i + 1).drop_last() =~= peers.take(i as int));
                lemma_assign_seq_ok_prefix(a0, peers, i + 1);
            }
            let p = self.peers.key_at(i).clone();
            let w = self.assign_word(&p);
            out.push((p, w));
            i = i + 1;
            proof {
                let a = assign_seq(a0, peers.take(i as int));
                assert(out@.map_values(|x: (String, String)| (x.0@, x.1@)) =~= a.out);
            }
        }
        proof {
            assert(peers.take(n as int) =~= peers);
        }
        out
    }

    /// A client asks to log in as `login_name_pre`, cut to
    /// `MAX_NAME_LENGTH` characters. The first client ever becomes the host
    /// and the player is added when new. When that player is already
    /// connected the login is refused (`Err`), else the client joins (`Ok`).
    /// Either way the cut name is returned.
    pub fn join(&mut self, login_name_pre: &str) -> (r: Result<String, String>)
        requires
            old(self).wf(),
        ensures
            final(self).wf(),
            ({
                let name = take_chars(login_name_pre@, MAX_NAME_LENGTH as nat);
                let s1 = SendableView {
                    host: if old(self)@.sendable.host is None { Some(name) } else { old(self)@.sendable.host },
                    ..old(self)@.sendable
                };
                let s2 = with_player(s1, name);
                if s2.players[name].active {
                    &&& r == Err::<String, String>(r->Err_0)
                    &&& r->Err_0@ == name
                    &&& final(self)@ == (StateView { sendable: s2, ..old(self)@ })
                } else {
                    &&& r == Ok::<String, String>(r->Ok_0)
                    &&& r->Ok_0@ == name
                    &&& final(self)@ == (StateView { sendable: s2, peers: peers_with(old(self)@.peers, name), ..old(self)@ })
                }
            }),
    {
        let login = truncate(login_name_pre, MAX_NAME_LENGTH);
        self.sendable.set_host(login.as_str());
        let ghost s1 = self.sendable@;
        let pm = self.sendable.get_player_mut(&login);
        let active = pm.is_active();
        proof {
            let s2 = with_player(s1, login@);
            assert(s2.players.insert(login@, s2.players[login@]) =~= s2.players);
        }
        if active {
            Err(login)
        } else {
            let ghost pre = self.peers.keys_view();
            self.peers.insert(login.clone(), ());
            proof {
                if pre.contains(login@) {
                    assert(self.peers.keys_view() == pre);
                }
            }
            Ok(login)
        }
    }

    /// The client logged in as `name` is now connected; everyone is sent the
    /// full state.
    pub fn activate(&mut self, name: &String) -> (r: Reply)
        requires
            old(self).wf(),
        ensures
            final(self).wf(),
            r@ == to_all(OutgoingView::FullState),
            ({
                let s1 = with_player(old(self)@.sendable, name@);
                final(self)@ == (StateView {
                    sendable: SendableView {
                        players: s1.players.insert(name@, PlayerView { active: true, ..s1.players[name@] }),
                        ..s1
                    },
                    ..old(self)@
                })
            }),
    {
        self.sendable.get_player_mut(name).set_active(true);
        Reply { to: Recipient::All, message: Outgoing::FullState {} }
    }

    /// The client logged in as `name` left: they are no longer connected, and
    /// everyone is sent the full state.
    pub fn leave(&mut self, name: &String) -> (r: Reply)
        requires
            old(self).wf(),
        ensures
            final(self).wf(),
            r@ == to_all(OutgoingView::FullState),
            ({
                let s1 = with_player(old(self)@.sendable, name@);
                final(self)@ == (StateView {
                    peers: old(self)@.peers.remove_value(name@),
                    sendable: SendableView {
                        players: s1.players.insert(name@, PlayerView { active: false, ..s1.players[name@] }),
                        ..s1
                    },
                    ..old(self)@
                })
            }),
            !final(self)@.peers.contains(name@),
    {
        self.peers.remove(name);
        proof {
            if self.peers.keys_view().contains(name@) {
                let i = choose|i: int| 0 <= i < self.peers.keys_view().len() && self.peers.keys_view()[i] == name@;
                self.peers.lemma_view_at(i);
            }
        }
        self.sendable.get_player_mut(name).set_active(false);
        Reply { to: Recipient::All, message: Outgoing::FullState {} }
    }
}

impl State {
    /// Whether `tick` may be called; see its `requires`.
    pub fn tick_ok(&self) -> (b: bool)
        requires
            self.wf(),
        ensures
            b == (self@.sendable.state == GameState::RUNNING ==> self@.sendable.time < i32::MAX
                && counts_fit(self@.sendable)),
    {
        match self.sendable.get_state() {
            GameState::RUNNING => {
                let (time, _, _, _) = self.sendable.clock();
                time < i32::MAX && self.sendable.counts_fit()
            },
            _ => true,
        }
    }

    /// Whether `assign_word` (or `on_assign`) may be called for `drawer`:
    /// they have a word or the pool has one.
    pub fn can_assign_word(&self, drawer: &String) -> (b: bool)
        requires
            self.wf(),
        ensures
            b == (word_map(self@).contains_key(drawer@) || self@.word_pool.len() > 0),
    {
        proof {
            self.lemma_words();
        }
        self.words.contains_key(drawer) || self.word_pool.len() > 0
    }

    /// Whether `assign_all` (or `on_start`) may be called: the pool has a
    /// word for every connected client who needs one.
    pub fn can_assign_all(&self) -> (b: bool)
        requires
            self.wf(),
        ensures
            b == assign_seq_ok(assignment_of(self@), self@.peers),
    {
        let ghost a0 = assignment_of(self@);
        let ghost peers = self@.peers;
        let m = self.words.len();
        let mut known: Vec<String> = Vec::new();
        let mut k: usize = 0;
        while k < m
            invariant
                self.wf(),
                m == self.words.keys_view().len(),
                k <= m,
                strings_view(known@) == self.words.keys_view().take(k as int),
            decreases m - k,
        {
            let key = self.words.key_at(k).clone();
            let ghost before = known@;
            known.push(key);
            assert(strings_view(known@) =~= strings_view(before).push(self.words.keys_view()[k as int]));
            assert(self.words.keys_view().take(k + 1) =~= self.words.keys_view().take(k as int).push(self.words.keys_view()[k as int]));
            k = k + 1;
        }
        assert(self.words.keys_view().take(m as int) =~= self.words.keys_view());
        let n = self.peers.len();
        let mut pool_left: usize = self.word_pool.len();
        let mut i: usize = 0;
        assert(peers.take(0) =~= Seq::<Seq<char>>::empty());
        while i < n
            invariant
                self.wf(),
                peers == self@.peers,
                a0 == assignment_of(self@),
                n == peers.len(),
                i <= n,
                assign_seq_ok(a0, peers.take(i as int)),
                strings_view(known@) == assign_seq(a0, peers.take(i as int)).drawers,
                pool_left == assign_seq(a0, peers.take(i as int)).word_pool.len(),
            decreases n - i,
        {
            let p = self.peers.key_at(i);
            proof {
                assert(peers.take(i + 1).drop_last() =~= peers.take(i as int));
                assert(peers.take(i + 1).last() == p@);
            }
            if !contains_string(&known, p) {
                if pool_left == 0 {
                    proof {
                        if assign_seq_ok(a0, peers) {
                            lemma_assign_seq_ok_prefix(a0, peers, i + 1);
                        }
                    }
                    return false;
                }
                pool_left = pool_left - 1;
                let ghost before = known@;
                known.push(p.clone());
                assert(strings_view(known@) =~= strings_view(before).push(p@));
            }
            i = i + 1;
        }
        assert(peers.take(n as int) =~= peers);
        true
    }

    /// Whether `guess` (or `on_guess`) may be called; see its `requires`.
    pub fn guess_ok(&self, guesser: &String, guess: &String) -> (b: bool)
        requires
            self.wf(),
        ensures
            b == state_guess_fits(self@, guesser@, guess@),
    {
        let n = self.words.len();
        let mut i: usize = 0;
        while i < n
            invariant
                self.wf(),
                n == self@.drawers.len(),
                n == self.words.vals_view().len(),
                i <= n,
                first_match_from(self@, guess@, guesser@, 0) == first_match_from(self@, guess@, guesser@, i as int),
            decreases n - i,
        {
            let drawer = self.words.key_at(i);
            let word = self.words.val_at(i);
            proof {
                assert(self@.assigned[i as int] == word@);
                assert(self@.drawers[i as int] == drawer@);
            }
            if self.guess_is_good(guess.as_str(), word.as_str()) && *drawer != *guesser {
                assert(first_match_from(self@, guess@, guesser@, i as int) == Some(i as int));
                return self.sendable.guess_fits(drawer, guesser);
            }
            i = i + 1;
        }
        true
    }
}

/// The game state after the host's `Start`: a start by anyone else changes
/// nothing.
pub open spec fn started(v: SendableView, login: Seq<char>) -> SendableView {
    if is_host(v, login) {
        SendableView { state: GameState::RUNNING, ..v }
    } else {
        v
    }
}

/// The game state after one player's drawing changes to `drawing`.
pub open spec fn with_drawing(v: SendableView, name: Seq<char>, drawing: Seq<Seq<char>>) -> SendableView {
    let s1 = with_player(v, name);
    SendableView { players: s1.players.insert(name, PlayerView { drawing, ..s1.players[name] }), ..s1 }
}

/// Turns each assignment into its announcement to the player concerned.
fn assignment_replies(out: Vec<(String, String)>) -> (r: Vec<Reply>)
    ensures
        replies_view(r@) == assign_replies(out@.map_values(|x: (String, String)| (x.0@, x.1@))),
{
    let n = out.len();
    let ghost outv = out@.map_values(|x: (String, String)| (x.0@, x.1@));
    let mut r: Vec<Reply> = Vec::new();
    let mut k: usize = 0;
    while k < n
        invariant
            n == out@.len(),
            outv == out@.map_values(|x: (String, String)| (x.0@, x.1@)),
            k <= n,
            replies_view(r@) == assign_replies(outv.take(k as int)),
        decreases n - k,
    {
        let p = out[k].0.clone();
        let w = out[k].1.clone();
        let ghost before = r@;
        r.push(Reply { to: Recipient::Peer { name: p.clone() }, message: Outgoing::Assign { username: p, assignment: w } });
        proof {
            assert(outv[k as int] == (out@[k as int].0@, out@[k as int].1@));
            assert(replies_view(r@) =~= replies_view(before).push(r@[k as int]@));
            assert(assign_replies(outv.take(k + 1)) =~= assign_replies(outv.take(k as int)).push(
                to_peer(outv[k as int].0, OutgoingView::Assign { username: outv[k as int].0, assignment: outv[k as int].1 }),
            ));
        }
        k = k + 1;
    }
    assert(outv.take(n as int) =~= outv);
    r
}

impl State {
    /// Whether `login` is the host.
    fn is_host(&self, login: &String) -> (b: bool)
        requires
            self.wf(),
        ensures
            b == is_host(self@.sendable, login@),
    {
        match self.sendable.get_host() {
            Some(h) => *h == *login,
            None => false,
        }
    }

    /// `Start` from `login`: the host's start sets the game running; then
    /// every connected client gets a word and everyone the full state.
    pub fn on_start(&mut self, login: &String) -> (r: Vec<Reply>)
        requires
            old(self).wf(),
            assign_seq_ok(assignment_of(old(self)@), old(self)@.peers),
        ensures
            final(self).wf(),
            ({
                let v1 = StateView { sendable: started(old(self)@.sendable, login@), ..old(self)@ };
                &&& final(self)@ == assign_all_spec(v1).0
                &&& replies_view(r@) == assign_replies(assign_all_spec(v1).1).push(to_all(OutgoingView::FullState))
            }),
    {
        if self.is_host(login) {
            self.sendable.set_state(GameState::RUNNING);
        }
        let out = self.assign_all();
        let mut r = assignment_replies(out);
        r.push(Reply { to: Recipient::All, message: Outgoing::FullState {} });
        r
    }

    /// `Restart` from `login`: the host's restart sends the game back to the
    /// lobby; everyone gets the full state.
    pub fn on_restart(&mut self, login: &String) -> (r: Vec<Reply>)
        requires
            old(self).wf(),
        ensures
            final(self).wf(),
            replies_view(r@) == seq![to_all(OutgoingView::FullState)],
            !is_host(old(self)@.sendable, login@) ==> final(self)@ == old(self)@,
            is_host(old(self)@.sendable, login@) ==> final(self)@ == (StateView {
                sendable: SendableView {
                    state: GameState::LOBBY,
                    time: 0,
                    players: restarted_players(old(self)@.sendable.players),
                    ..old(self)@.sendable
                },
                drawers: Seq::empty(),
                assigned: Seq::empty(),
                ..old(self)@
            }),
    {
        if self.is_host(login) {
            self.restart();
        }
        let r = vec![Reply { to: Recipient::All, message: Outgoing::FullState {} }];
        assert(replies_view(r@) =~= seq![to_all(OutgoingView::FullState)]);
        r
    }

    /// `Assign` from `login`: the sender gets their word, a new one when they
    /// have none.
    pub fn on_assign(&mut self, login: &String) -> (r: Vec<Reply>)
        requires
            old(self).wf(),
            word_map(old(self)@).contains_key(login@) || old(self)@.word_pool.len() > 0,
        ensures
            final(self).wf(),
            ({
                let a = assign_step(assignment_of(old(self)@), login@);
                &&& final(self)@ == (StateView {
                    drawers: a.drawers,
                    assigned: a.assigned,
                    word_pool: a.word_pool,
                    ..old(self)@
                })
                &&& replies_view(r@) == seq![
                    to_peer(login@, OutgoingView::Assign { username: login@, assignment: a.out.last().1 }),
                ]
            }),
    {
        let word = self.assign_word(login);
        let r = vec![Reply { to: Recipient::Peer { name: login.clone() }, message: Outgoing::Assign { username: login.clone(), assignment: word } }];
        assert(replies_view(r@) =~= seq![
            to_peer(login@, OutgoingView::Assign { username: login@, assignment: r@[0].message@->Assign_assignment }),
        ]);
        r
    }

    /// `Guess` from `login`: a guess that matches a word is announced as
    /// guessed, with its points; any other guess is shown to everyone.
    pub fn on_guess(&mut self, login: &String, guess: String) -> (r: Vec<Reply>)
        requires
            old(self).wf(),
            state_guess_fits(old(self)@, login@, guess@),
        ensures
            final(self).wf(),
            final(self)@ == state_guess_spec(old(self)@, login@, guess@).0,
            replies_view(r@) == seq![
                to_all(match state_guess_spec(old(self)@, login@, guess@).1 {
                    Some((p, d)) => OutgoingView::Guessed { guesser: login@, drawer: d, points: p as i32 },
                    None => OutgoingView::Guess { username: login@, guess: guess@ },
                }),
            ],
    {
        let m = match self.guess(login, &guess) {
            Some((time, drawer)) => Outgoing::Guessed { drawer, guesser: login.clone(), points: time },
            None => Outgoing::Guess { username: login.clone(), guess },
        };
        let r = vec![Reply { to: Recipient::All, message: m }];
        assert(replies_view(r@) =~= seq![r@[0]@]);
        r
    }

    /// `Image` from `login`: the strokes are added to the sender's drawing and
    /// sent to everyone with the index of the first of them.
    pub fn on_image(&mut self, login: &String, image: Vec<String>) -> (r: Vec<Reply>)
        requires
            old(self).wf(),
        ensures
            final(self).wf(),
            ({
                let old_drawing = player_or_new(old(self)@.sendable.players, login@).drawing;
                let drawing = old_drawing + strings_view(image@);
                let i = old_drawing.len() as i32;
                &&& final(self)@ == (StateView { sendable: with_drawing(old(self)@.sendable, login@, drawing), ..old(self)@ })
                &&& replies_view(r@) == seq![
                    to_all(OutgoingView::Image {
                        username: login@,
                        image: drawing.subrange(slice_start(i, drawing.len()), drawing.len() as int),
                        i,
                    }),
                ]
            }),
    {
        let mut strokes = image;
        let i = self.sendable.get_player_mut(login).add_drawing(&mut strokes);
        let ghost mid = self@.sendable;
        proof {
            assert(mid.players.insert(login@, mid.players[login@]) =~= mid.players);
        }
        let p = self.sendable.get_player_mut(login);
        let image = clone_strings(p.slice(i));
        let r = vec![Reply { to: Recipient::All, message: Outgoing::Image { username: login.clone(), image, i } }];
        assert(replies_view(r@) =~= seq![r@[0]@]);
        r
    }

    /// `Pull` from `login`: the sender gets `username`'s strokes from index `i`
    /// on; `username` is added as a player when new.
    pub fn on_pull(&mut self, login: &String, i: i32, username: &String) -> (r: Vec<Reply>)
        requires
            old(self).wf(),
        ensures
            final(self).wf(),
            final(self)@ == (StateView { sendable: with_player(old(self)@.sendable, username@), ..old(self)@ }),
            ({
                let drawing = player_or_new(old(self)@.sendable.players, username@).drawing;
                replies_view(r@) == seq![
                    to_peer(login@, OutgoingView::Image {
                        username: username@,
                        image: drawing.subrange(slice_start(i, drawing.len()), drawing.len() as int),
                        i,
                    }),
                ]
            }),
    {
        let p = self.sendable.get_player_mut(username);
        let image = clone_strings(p.slice(i));
        proof {
            let s1 = with_player(old(self)@.sendable, username@);
            assert(s1.players.insert(username@, s1.players[username@]) =~= s1.players);
        }
        let r = vec![Reply { to: Recipient::Peer { name: login.clone() }, message: Outgoing::Image { username: username.clone(), image, i } }];
        assert(replies_view(r@) =~= seq![r@[0]@]);
        r
    }

    /// `Undo` from `login`: the sender's last `i` strokes are removed and
    /// everyone is told.
    pub fn on_undo(&mut self, login: &String, i: i32) -> (r: Vec<Reply>)
        requires
            old(self).wf(),
        ensures
            final(self).wf(),
            ({
                let d = player_or_new(old(self)@.sendable.players, login@).drawing;
                final(self)@ == (StateView {
                    sendable: with_drawing(old(self)@.sendable, login@, d.take(undo_len(i, d.len()))),
                    ..old(self)@
                })
            }),
            replies_view(r@) == seq![to_all(OutgoingView::Undo { username: login@ })],
    {
        self.sendable.get_player_mut(login).undo(i);
        let r = vec![Reply { to: Recipient::All, message: Outgoing::Undo { username: login.clone() } }];
        assert(replies_view(r@) =~= seq![to_all(OutgoingView::Undo { username: login@ })]);
        r
    }
}

/// The prefix of a feasible assignment is feasible, and the next peer can
/// be served.
pub proof fn lemma_assign_seq_ok_prefix(a: Assignment, peers: Seq<Seq<char>>, k: int)
    requires
        0 < k <= peers.len(),
        assign_seq_ok(a, peers),
    ensures
        assign_seq_ok(a, peers.take(k)),
        ({
            let b = assign_seq(a, peers.take(k - 1));
            map_of(b.drawers, b.assigned).contains_key(peers[k - 1]) || b.word_pool.len() > 0
        }),
    decreases peers.len() - k,
{
    assert(peers.take(k).drop_last() =~= peers.take(k - 1));
    if k < peers.len() {
        lemma_assign_seq_ok_prefix(a, peers, k + 1);
        assert(peers.take(k + 1).drop_last() =~= peers.take(k));
    } else {
        assert(peers.take(k) =~= peers);
    }
    assert(peers.take(k).last() == peers[k - 1]);
    let t = peers.take(k);
    assert(assign_seq_ok(a, t));
    assert(assign_seq_ok(a, t.drop_last()) && (map_of(assign_seq(a, t.drop_last()).drawers, assign_seq(a, t.drop_last()).assigned).contains_key(t.last())
            || assign_seq(a, t.drop_last()).word_pool.len() > 0));
}


/// Strokes sent with `add_drawing` are exactly what `slice` gives back from
/// the index it returned, as long as the drawing had at most `i32::MAX`
/// strokes before.
pub proof fn law_slice_returns_added_strokes(before: Seq<Seq<char>>, added: Seq<Seq<char>>)
    requires
        before.len() <= i32::MAX,
    ensures
        ({
            let after = before + added;
            let i = before.len() as i32;
            after.subrange(slice_start(i, after.len()), after.len() as int) == added
        }),
{
    let after = before + added;
    let i = before.len() as i32;
    assert(i as usize == before.len());
    if (i as usize) < after.len() {
        assert(after.subrange(i as int, after.len() as int) =~= added);
    } else {
        assert(added.len() == 0);
        assert(after.subrange(after.len() as int, after.len() as int) =~= added);
    }
}

/// Undoing as many strokes as were just added gives back the drawing as it
/// was, as long as that many fit in an `i32`.
pub proof fn law_undo_reverts_add(before: Seq<Seq<char>>, added: Seq<Seq<char>>)
    requires
        added.len() <= i32::MAX,
    ensures
        ({
            let after = before + added;
            after.take(undo_len(added.len() as i32, after.len())) == before
        }),
{
    let after = before + added;
    let k = added.len() as i32;
    assert(k as usize == added.len());
    if (k as usize) < after.len() {
        assert(after.take(after.len() - added.len()) =~= before);
    } else {
        assert(before.len() == 0);
        assert(after.take(0) =~= before);
    }
}

/// Only the first host counts: once there is a host, `set_host` keeps them.
pub proof fn law_host_is_first_login(v: SendableView, a: Seq<char>, b: Seq<char>)
    ensures
        ({
            let h1 = if v.host is None { Some(a) } else { v.host };
            let h2 = if h1 is None { Some(b) } else { h1 };
            &&& h1 is Some
            &&& h2 == h1
        }),
{
}

/// A guesser is credited once per drawer: guessing the same drawer's word
/// again earns nothing and changes nothing.
pub proof fn law_repeated_guess_earns_nothing(v: SendableView, drawer: Seq<char>, guesser: Seq<char>)
    requires
        guess_fits(v, drawer, guesser),
    ensures
        ({
            let (v1, _) = guess_spec(v, drawer, guesser);
            let (v2, p2) = guess_spec(v1, drawer, guesser);
            &&& p2 == 0
            &&& v2 == v1
        }),
{
    let (v1, _) = guess_spec(v, drawer, guesser);
    let w = with_player(v, drawer);
    let d = w.players[drawer];
    if !d.guess_list.contains_key(guesser) {
        let p = points_spec(v.time, v.timelimit, v.maxpoints);
        let d2 = PlayerView {
            score: (d.score + trunc_div(p, 5)) as i32,
            guessers: d.guessers.push(guesser),
            guess_list: d.guess_list.insert(guesser, p as i32),
            ..d
        };
        let v2 = SendableView { players: w.players.insert(drawer, d2), ..w };
        let v3 = with_player(v2, guesser);
        assert(v3.players.contains_key(drawer));
        assert(v1.players.contains_key(drawer));
        assert(v1.players[drawer].guess_list.contains_key(guesser));
        assert(with_player(v1, drawer) == v1);
    }
}

/// Restarting twice is restarting once.
pub proof fn law_restart_idempotent(m: Map<Seq<char>, PlayerView>)
    ensures
        restarted_players(restarted_players(m)) == restarted_players(m),
{
    assert(restarted_players(restarted_players(m)) =~= restarted_players(m));
}

/// A drawer keeps their word: asking again gives the same word and takes
/// nothing from the pool. Every well-formed server meets the first two
/// requirements (see `State::lemma_wf_view`).
pub proof fn law_assignment_is_stable(v: StateView, drawer: Seq<char>)
    requires
        v.drawers.len() == v.assigned.len(),
        v.drawers.no_duplicates(),
        word_map(v).contains_key(drawer) || v.word_pool.len() > 0,
    ensures
        ({
            let a1 = assign_step(assignment_of(v), drawer);
            let a2 = assign_step(Assignment { out: Seq::empty(), ..a1 }, drawer);
            &&& a2.drawers == a1.drawers
            &&& a2.assigned == a1.assigned
            &&& a2.word_pool == a1.word_pool
            &&& a2.out.last().1 == a1.out.last().1
        }),
{
    let a0 = assignment_of(v);
    let m = map_of(a0.drawers, a0.assigned);
    if !m.contains_key(drawer) {
        let a1 = assign_step(a0, drawer);
        let k = a1.drawers.len() - 1;
        assert(a1.drawers[k] == drawer);
        assert(a1.drawers.contains(drawer));
        let j = a1.drawers.index_of(drawer);
        assert(a1.drawers[j] == drawer);
        if j != k {
            assert(a0.drawers[j] == drawer);
            assert(a0.drawers.contains(drawer));
        }
    }
}


/// A client who joins and then leaves leaves the list of connected clients
/// as it was.
pub proof fn law_leave_undoes_join(peers: Seq<Seq<char>>, name: Seq<char>)
    requires
        !peers.contains(name),
    ensures
        peers_with(peers, name).remove_value(name) == peers,
{
    let p = peers.push(name);
    assert(p[peers.len() as int] == name);
    assert(p.contains(name));
    p.index_of_first_ensures(name);
    let i = p.index_of_first(name).unwrap();
    if i < peers.len() {
        assert(p[i] == peers[i]);
        assert(peers.contains(name));
    }
    assert(i == peers.len());
    assert(p.remove(i) =~= peers);
}

/// A restart clears every player: each keeps their place and whether they
/// are connected, and has no strokes, no score and no guesses credited.
pub proof fn law_restart_clears_every_player(m: Map<Seq<char>, PlayerView>)
    ensures
        restarted_players(m).dom() == m.dom(),
        forall|k: Seq<char>| #[trigger] restarted_players(m).contains_key(k) ==> {
            let p = restarted_players(m)[k];
            &&& p.drawing.len() == 0
            &&& p.score == 0
            &&& p.guessers.len() == 0
            &&& p.guess_list.dom().is_empty()
            &&& p.active == m[k].active
        },
{
    assert(restarted_players(m).dom() =~= m.dom());
}

/// Where a guess matches from position `i` on: the first position at or
/// after `i` whose word it matches, none of the positions before it.
proof fn lemma_first_match_from(v: StateView, guess: Seq<char>, guesser: Seq<char>, i: int)
    requires
        0 <= i,
    ensures
        first_match_from(v, guess, guesser, i) matches Some(j) ==> i <= j < v.drawers.len() && matches_at(v, guess, guesser, j),
        first_match_from(v, guess, guesser, i) is None ==> forall|k: int| i <= k < v.drawers.len() ==> !matches_at(v, guess, guesser, k),
    decreases v.drawers.len() - i,
{
    if i < v.drawers.len() && !matches_at(v, guess, guesser, i) {
        lemma_first_match_from(v, guess, guesser, i + 1);
    }
}

/// Nobody is credited for their own word: a guess that matches is credited
/// to a drawer other than the guesser, whose word the guess matches; a guess
/// that matches nothing matches no other drawer's word and changes nothing.
pub proof fn law_guess_never_credits_the_guesser(v: StateView, guesser: Seq<char>, guess: Seq<char>)
    ensures
        state_guess_spec(v, guesser, guess).1 matches Some((p, d)) ==> {
            &&& d != guesser
            &&& exists|j: int| 0 <= j < v.drawers.len() && v.drawers[j] == d && good_guess(guess, #[trigger] v.assigned[j])
        },
        state_guess_spec(v, guesser, guess).1 is None ==> {
            &&& state_guess_spec(v, guesser, guess).0 == v
            &&& forall|j: int| 0 <= j < v.drawers.len() && v.drawers[j] != guesser ==> !good_guess(guess, #[trigger] v.assigned[j])
        },
{
    lemma_first_match_from(v, guess, guesser, 0);
    if let Some(j) = first_match_from(v, guess, guesser, 0) {
        assert(v.drawers[j] != guesser);
        assert(good_guess(guess, v.assigned[j]));
    } else {
        assert forall|j: int| 0 <= j < v.drawers.len() && v.drawers[j] != guesser implies !good_guess(guess, #[trigger] v.assigned[j]) by {
            assert(!matches_at(v, guess, guesser, j));
        }
    }
}

} // verus!
