//! The rules of the judged drawing game: players, the host, the clock and the
//! pool of words with their embeddings.
//!
//! Scores and embeddings are `f32` values; here they are held as their bit
//! patterns (`f32::to_bits`), since the rules only store and copy them.

use vstd::prelude::*;
use crate::sketch_bitaib::packets::{replies_view, to_all, Outgoing, OutgoingView, Reply, ReplyView};
pub use crate::sketchrs::game::GameState;
use crate::sketchrs::game::MAX_NAME_LENGTH;
use crate::sketchrs::packets::Recipient;
use crate::strmap::{lemma_map_values_insert, StrMap};
use crate::text::{take_chars, truncate_chars};

verus! {

/// A word to draw, with its embedding (the bit patterns of its `f32`
/// components).
#[derive(Debug)]
pub struct Word {
    pub word: String,
    pub embedding: Vec<u32>,
}

/// A player, as the contracts see them.
pub struct PlayerView {
    pub active: bool,
    /// The bit pattern of the score of the player's drawing.
    pub score: u32,
}

/// A player of the judged game.
pub struct PlayerState {
    active: bool,
    score: u32,
}

impl View for PlayerState {
    type V = PlayerView;

    closed spec fn view(&self) -> PlayerView {
        PlayerView { active: self.active, score: self.score }
    }
}

/// A new player: not connected, with a score of `0.0` (whose bits are 0).
pub open spec fn new_player_view() -> PlayerView {
    PlayerView { active: false, score: 0 }
}

impl PlayerState {
    /// A new, inactive player with a score of `0.0`.
    pub fn new() -> (p: Self)
        ensures
            p@ == new_player_view(),
    {
        PlayerState { active: false, score: 0 }
    }

    /// Resets the score to `0.0`.
    pub fn restart(&mut self)
        ensures
            final(self)@ == (PlayerView { score: 0, ..old(self)@ }),
    {
        self.score = 0;
    }

    /// Marks the player as connected or not.
    pub fn set_active(&mut self, active: bool)
        ensures
            final(self)@ == (PlayerView { active, ..old(self)@ }),
    {
        self.active = active
    }

    /// Whether the player is connected.
    pub fn is_active(&self) -> (b: bool)
        ensures
            b == self@.active,
    {
        self.active
    }

    /// The bit pattern of the score.
    pub fn score(&self) -> (s: u32)
        ensures
            s == self@.score,
    {
        self.score
    }

    /// Sets the score, given as the bit pattern of an `f32`.
    pub fn set_score(&mut self, score: u32)
        ensures
            final(self)@ == (PlayerView { score, ..old(self)@ }),
    {
        self.score = score;
    }
}

/// The shared game state, as the contracts see it.
pub struct SendableView {
    pub names: Seq<Seq<char>>,
    pub players: Map<Seq<char>, PlayerView>,
    pub state: GameState,
    pub word: Seq<char>,
    pub host: Option<Seq<char>>,
    pub time: i32,
    pub timelimit: i32,
    pub maxpoints: i32,
    pub end_on_time: bool,
}

/// The player called `name`, or a new one when there is none.
pub open spec fn player_or_new(players: Map<Seq<char>, PlayerView>, name: Seq<char>) -> PlayerView {
    if players.contains_key(name) {
        players[name]
    } else {
        new_player_view()
    }
}

/// The game state once a player called `name` exists.
pub open spec fn with_player(v: SendableView, name: Seq<char>) -> SendableView {
    if v.players.contains_key(name) {
        v
    } else {
        SendableView { names: v.names.push(name), players: v.players.insert(name, new_player_view()), ..v }
    }
}

/// Every player's score reset to `0.0`.
pub open spec fn restarted_players(m: Map<Seq<char>, PlayerView>) -> Map<Seq<char>, PlayerView> {
    Map::new(|k: Seq<char>| m.contains_key(k), |k: Seq<char>| PlayerView { score: 0, ..m[k] })
}

/// The word with each space turned into a hyphen.
pub open spec fn hyphenated(w: Seq<char>) -> Seq<char> {
    w.map_values(|c: char| if c == ' ' { '-' } else { c })
}

/// The view of each player.
pub open spec fn player_views(m: Map<Seq<char>, PlayerState>) -> Map<Seq<char>, PlayerView> {
    m.map_values(|p: PlayerState| p@)
}

/// The players, the word, the host and the clock of one judged game.
pub struct SendableState {
    players: StrMap<PlayerState>,
    state: GameState,
    word: String,
    host: Option<String>,
    time: i32,
    timelimit: i32,
    maxpoints: i32,
    end_on_time: bool,
}

impl View for SendableState {
    type V = SendableView;

    closed spec fn view(&self) -> SendableView {
        SendableView {
            names: self.players.keys_view(),
            players: player_views(self.players@),
            state: self.state,
            word: self.word@,
            host: match self.host {
                Some(h) => Some(h@),
                None => None,
            },
            time: self.time,
            timelimit: self.timelimit,
            maxpoints: self.maxpoints,
            end_on_time: self.end_on_time,
        }
    }
}

impl SendableState {
    /// The player map is well formed.
    pub closed spec fn wf(&self) -> bool {
        self.players.wf()
    }

    /// A game in the lobby with the given word, no players, no host and the
    /// clock at zero.
    pub fn new(word: String, timelimit: i32, maxpoints: i32, end_on_time: bool) -> (s: Self)
        ensures
            s.wf(),
            s@ == (SendableView {
                names: Seq::empty(),
                players: Map::empty(),
                state: GameState::LOBBY,
                word: word@,
                host: None,
                time: 0,
                timelimit,
                maxpoints,
                end_on_time,
            }),
    {
        let s = SendableState {
            players: StrMap::new(),
            state: GameState::LOBBY,
            word,
            host: None,
            time: 0,
            timelimit,
            maxpoints,
            end_on_time,
        };
        assert(player_views(s.players@) =~= Map::<Seq<char>, PlayerView>::empty());
        s
    }

    /// Back to the lobby with the clock at zero and every score at `0.0`.
    pub fn restart(&mut self)
        requires
            old(self).wf(),
        ensures
            final(self).wf(),
            final(self)@ == (SendableView {
                state: GameState::LOBBY,
                time: 0,
                players: restarted_players(old(self)@.players),
                ..old(self)@
            }),
    {
        self.state = GameState::LOBBY;
        self.time = 0;
        let n = self.players.len();
        let ghost old_vals = self.players.vals_view();
        let mut i: usize = 0;
        while i < n
            invariant
                self.players.wf(),
                n == self.players.vals_view().len(),
                self.players.keys_view() == old(self).players.keys_view(),
                self.state == GameState::LOBBY,
                self.time == 0,
                self.word == old(self).word,
                self.host == old(self).host,
                self.timelimit == old(self).timelimit,
                self.maxpoints == old(self).maxpoints,
                self.end_on_time == old(self).end_on_time,
                old_vals == old(self).players.vals_view(),
                i <= n,
                forall|j: int| 0 <= j < i ==> #[trigger] self.players.vals_view()[j]@ == (PlayerView { score: 0, ..old_vals[j]@ }),
                forall|j: int| i <= j < n ==> #[trigger] self.players.vals_view()[j] == old_vals[j],
            decreases n - i,
        {
            self.players.val_at_mut(i).restart();
            i = i + 1;
        }
        proof {
            assert forall|k: Seq<char>| #[trigger] player_views(self.players@).contains_key(k) implies
                player_views(self.players@)[k] == restarted_players(old(self)@.players)[k] by {
                let j = self.players.lemma_key_at(k);
                old(self).players.lemma_view_at(j);
            }
            assert(player_views(self.players@) =~= restarted_players(old(self)@.players));
        }
    }

    /// The host's name, if there is one.
    pub fn get_host(&self) -> (h: Option<&String>)
        ensures
            match h {
                Some(x) => self@.host == Some(x@),
                None => self@.host is None,
            },
    {
        self.host.as_ref()
    }

    /// Makes `new_host` the host, unless there already is one.
    pub fn set_host(&mut self, new_host: &str)
        requires
            old(self).wf(),
        ensures
            final(self).wf(),
            final(self)@ == (SendableView {
                host: if old(self)@.host is None { Some(new_host@) } else { old(self)@.host },
                ..old(self)@
            }),
    {
        if self.host.is_none() {
            self.host = Some(new_host.to_owned());
        }
    }

    /// The player called `name`, who is added, new, when there is none.
    pub fn get_player_mut(&mut self, name: &String) -> (p: &mut PlayerState)
        requires
            old(self).wf(),
        ensures
            p@ == player_or_new(old(self)@.players, name@),
            final(self).wf(),
            final(self)@ == (SendableView {
                players: with_player(old(self)@, name@).players.insert(name@, final(p)@),
                ..with_player(old(self)@, name@)
            }),
    {
        let i = match self.players.find(name) {
            Some(i) => {
                proof {
                    self.players.lemma_view_at(i as int);
                }
                i
            },
            None => {
                let ghost pre = self.players@;
                self.players.push_new(name.clone(), PlayerState::new());
                proof {
                    lemma_map_values_insert(pre, name@, |p: PlayerState| p@);
                    self.players.lemma_view_at(self.players.vals_view().len() - 1);
                }
                self.players.len() - 1
            },
        };
        proof {
            lemma_map_values_insert(self.players@, name@, |p: PlayerState| p@);
        }
        self.players.val_at_mut(i)
    }

    /// Advances the clock by one tick.
    pub fn tick_running(&mut self)
        requires
            old(self).wf(),
            old(self)@.time < i32::MAX,
        ensures
            final(self).wf(),
            final(self)@ == (SendableView { time: (old(self)@.time + 1) as i32, ..old(self)@ }),
    {
        self.time += 1;
    }

    /// The round is over when it ends on time and the time is past the limit.
    pub fn is_over(&self) -> (b: bool)
        ensures
            b == (self@.end_on_time && self@.time > self@.timelimit),
    {
        self.end_on_time && self.time > self.timelimit
    }

    /// Sets the phase.
    pub fn set_state(&mut self, new_state: GameState)
        ensures
            final(self).wf() == old(self).wf(),
            final(self)@ == (SendableView { state: new_state, ..old(self)@ }),
    {
        self.state = new_state;
    }

    /// The phase.
    pub fn get_state(&self) -> (s: GameState)
        ensures
            s == self@.state,
    {
        self.state
    }

    /// The word, with spaces turned into hyphens, for file names.
    pub fn wordname(&self) -> (w: String)
        ensures
            w@ == hyphenated(self@.word),
    {
        broadcast use vstd::string::group_string_axioms;
        let mut w = String::new();
        for c in iter: self.word.as_str().chars()
            invariant
                iter.seq() == self.word@,
                w@ == hyphenated(self.word@.take(iter.index() as int)),
        {
            proof {
                let k = iter.index() as int;
                assert(hyphenated(self.word@.take(k + 1)) =~= hyphenated(self.word@.take(k)).push(
                    if c == ' ' { '-' } else { c },
                ));
            }
            if c == ' ' {
                w.push('-');
            } else {
                w.push(c);
            }
        }
        assert(self.word@.take(self.word@.len() as int) =~= self.word@);
        w
    }

    /// The word to draw.
    pub fn word(&self) -> (w: &String)
        ensures
            w@ == self@.word,
    {
        &self.word
    }

    /// Sets the word.
    pub fn set_word(&mut self, word: String)
        ensures
            final(self).wf() == old(self).wf(),
            final(self)@ == (SendableView { word: word@, ..old(self)@ }),
    {
        self.word = word;
    }

    /// The number of players.
    pub fn player_count(&self) -> (n: usize)
        requires
            self.wf(),
        ensures
            n == self@.names.len(),
    {
        self.players.len()
    }

    /// The `i`-th player, with their name.
    pub fn player_at(&self, i: usize) -> (r: (&String, &PlayerState))
        requires
            self.wf(),
            i < self@.names.len(),
        ensures
            r.0@ == self@.names[i as int],
            r.1@ == self@.players[r.0@],
    {
        proof {
            self.players.lemma_view_at(i as int);
        }
        (self.players.key_at(i), self.players.val_at(i))
    }

    /// The clock, the time limit, the maximum points and whether the round
    /// ends on time.
    pub fn clock(&self) -> (r: (i32, i32, i32, bool))
        ensures
            r == (self@.time, self@.timelimit, self@.maxpoints, self@.end_on_time),
    {
        (self.time, self.timelimit, self.maxpoints, self.end_on_time)
    }
}

/// The first `max_chars` characters of `s`.
pub fn truncate(s: &str, max_chars: usize) -> (r: String)
    ensures
        r@ == take_chars(s@, max_chars as nat),
{
    truncate_chars(s, max_chars)
}

/// The server state, as the contracts see it.
pub struct StateView {
    pub peers: Seq<Seq<char>>,
    pub sendable: SendableView,
    /// The words left, each with its embedding; the last one goes next.
    pub word_pool: Seq<(Seq<char>, Seq<u32>)>,
    /// The embedding of the current word.
    pub embedding: Seq<u32>,
}

/// The views of a list of words.
pub open spec fn words_view(w: Seq<Word>) -> Seq<(Seq<char>, Seq<u32>)> {
    w.map_values(|x: Word| (x.word@, x.embedding@))
}

/// The server state after a restart: the next word of the pool, when there
/// is one, becomes the word to draw; then the game restarts.
pub open spec fn restart_spec(v: StateView) -> StateView {
    let (word, embedding, pool) = if v.word_pool.len() > 0 {
        (v.word_pool.last().0, v.word_pool.last().1, v.word_pool.drop_last())
    } else {
        (v.sendable.word, v.embedding, v.word_pool)
    };
    StateView {
        sendable: SendableView {
            state: GameState::LOBBY,
            time: 0,
            players: restarted_players(v.sendable.players),
            word,
            ..v.sendable
        },
        word_pool: pool,
        embedding,
        ..v
    }
}

/// The host may start and restart the game.
pub open spec fn is_host(v: SendableView, name: Seq<char>) -> bool {
    v.host == Some(name)
}

/// The names of connected clients after `name` connects.
pub open spec fn peers_with(peers: Seq<Seq<char>>, name: Seq<char>) -> Seq<Seq<char>> {
    if peers.contains(name) {
        peers
    } else {
        peers.push(name)
    }
}

/// Where the drawing of `login` for the word `word` is saved.
pub open spec fn drawing_path(login: Seq<char>, word: Seq<char>) -> Seq<char> {
    seq!['f', 'r', 'o', 'n', 't', 'e', 'n', 'd', '/', 'd', 'r', 'a', 'w', 'i', 'n', 'g', 's', '/'] + login + seq!['-']
        + hyphenated(word) + seq!['.', 'p', 'n', 'g']
}

/// The judged game's server: the connected clients, the shared state, the
/// pool of words and the current word's embedding. (The image model that
/// scores drawings is held beside it.)
pub struct State {
    peers: StrMap<()>,
    sendable: SendableState,
    word_pool: Vec<Word>,
    embedding: Vec<u32>,
}

impl View for State {
    type V = StateView;

    closed spec fn view(&self) -> StateView {
        StateView {
            peers: self.peers.keys_view(),
            sendable: self.sendable@,
            word_pool: words_view(self.word_pool@),
            embedding: self.embedding@,
        }
    }
}

impl State {
    /// The maps are well formed.
    pub closed spec fn wf(&self) -> bool {
        self.peers.wf() && self.sendable.wf()
    }

    /// A server with no clients, no words, an empty word and a game in the
    /// lobby.
    pub fn new(timelimit: i32, maxpoints: i32, end_on_time: bool) -> (s: Self)
        ensures
            s.wf(),
            s@.peers == Seq::<Seq<char>>::empty(),
            s@.sendable == (SendableView {
                names: Seq::empty(),
                players: Map::empty(),
                state: GameState::LOBBY,
                word: Seq::empty(),
                host: None,
                time: 0,
                timelimit,
                maxpoints,
                end_on_time,
            }),
            s@.word_pool == Seq::<(Seq<char>, Seq<u32>)>::empty(),
            s@.embedding == Seq::<u32>::empty(),
    {
        let s = State {
            peers: StrMap::new(),
            sendable: SendableState::new(String::new(), timelimit, maxpoints, end_on_time),
            word_pool: Vec::new(),
            embedding: Vec::new(),
        };
        assert(s@.word_pool =~= Seq::<(Seq<char>, Seq<u32>)>::empty());
        s
    }

    /// The shared game state.
    pub fn sendable(&self) -> (s: &SendableState)
        requires
            self.wf(),
        ensures
            s.wf(),
            s@ == self@.sendable,
    {
        &self.sendable
    }

    /// The embedding of the current word.
    pub fn embedding(&self) -> (e: &Vec<u32>)
        ensures
            e@ == self@.embedding,
    {
        &self.embedding
    }

    /// The number of connected clients.
    pub fn peer_count(&self) -> (n: usize)
        requires
            self.wf(),
        ensures
            n == self@.peers.len(),
    {
        self.peers.len()
    }

    /// The name of the `i`-th connected client.
    pub fn peer_at(&self, i: usize) -> (name: &String)
        requires
            self.wf(),
            i < self@.peers.len(),
        ensures
            name@ == self@.peers[i as int],
    {
        self.peers.key_at(i)
    }

    /// Takes the next word of the pool, if any, and restarts the game.
    pub fn restart(&mut self)
        requires
            old(self).wf(),
        ensures
            final(self).wf(),
            final(self)@ == restart_spec(old(self)@),
    {
        if let Some(word) = self.word_pool.pop() {
            self.sendable.set_word(word.word);
            self.embedding = word.embedding;
        }
        self.sendable.restart();
        assert(self@.word_pool =~= restart_spec(old(self)@).word_pool);
    }

    /// Adds words to the end of the pool, then restarts with the last of them.
    pub fn add_words(&mut self, words: Vec<Word>)
        requires
            old(self).wf(),
        ensures
            final(self).wf(),
            final(self)@ == restart_spec(StateView { word_pool: old(self)@.word_pool + words_view(words@), ..old(self)@ }),
    {
        let ghost added = words_view(words@);
        let mut words = words;
        self.word_pool.append(&mut words);
        assert(self@.word_pool =~= old(self)@.word_pool + added);
        self.restart();
    }

    /// One tick of the clock: a running game's clock advances and, once the
    /// time is up, the game moves to its end. Returns whether it just ended,
    /// when the full state is owed to every client.
    pub fn tick(&mut self) -> (ended: bool)
        requires
            old(self).wf(),
            old(self)@.sendable.state == GameState::RUNNING ==> old(self)@.sendable.time < i32::MAX,
        ensures
            final(self).wf(),
            old(self)@.sendable.state != GameState::RUNNING ==> final(self)@ == old(self)@ && !ended,
            old(self)@.sendable.state == GameState::RUNNING ==> {
                let t = SendableView { time: (old(self)@.sendable.time + 1) as i32, ..old(self)@.sendable };
                &&& ended == (t.end_on_time && t.time > t.timelimit)
                &&& final(self)@ == (StateView {
                    sendable: if ended { SendableView { state: GameState::POSTGAME, ..t } } else { t },
                    ..old(self)@
                })
            },
    {
        match self.sendable.get_state() {
            GameState::LOBBY => false,
            GameState::RUNNING => {
                self.sendable.tick_running();
                if self.sendable.is_over() {
                    self.sendable.set_state(GameState::POSTGAME);
                    true
                } else {
                    false
                }
            },
            GameState::POSTGAME => false,
        }
    }

    /// A client asks to log in as `login_name_pre`, cut to
    /// `MAX_NAME_LENGTH` characters. The first client ever becomes the host
    /// and the player is added when new. When that player is already
    /// connected the login is refused (`Err`), else the client joins (`Ok`).
    pub fn join(&mut self, login_name_pre: &str) -> (r: Result<String, String>)
        requires
            old(self).wf(),
        ensures
            final(self).wf(),
            ({
                let name = take_chars(login_name_pre@, MAX_NAME_LENGTH as nat);
                let s1 = SendableView {
                    host: if old(self)@.sendable.host is None { Some(name) } else { old(self)@.sendable.host },
                    ..old(self)@.sendable
                };
                let s2 = with_player(s1, name);
                if s2.players[name].active {
                    &&& r == Err::<String, String>(r->Err_0)
                    &&& r->Err_0@ == name
                    &&& final(self)@ == (StateView { sendable: s2, ..old(self)@ })
                } else {
                    &&& r == Ok::<String, String>(r->Ok_0)
                    &&& r->Ok_0@ == name
                    &&& final(self)@ == (StateView { sendable: s2, peers: peers_with(old(self)@.peers, name), ..old(self)@ })
                }
            }),
    {
        let login = truncate(login_name_pre, MAX_NAME_LENGTH);
        self.sendable.set_host(login.as_str());
        let ghost s1 = self.sendable@;
        let pm = self.sendable.get_player_mut(&login);
        let active = pm.is_active();
        proof {
            let s2 = with_player(s1, login@);
            assert(s2.players.insert(login@, s2.players[login@]) =~= s2.players);
        }
        if active {
            Err(login)
        } else {
            let ghost pre = self.peers.keys_view();
            self.peers.insert(login.clone(), ());
            proof {
                if pre.contains(login@) {
                    assert(self.peers.keys_view() == pre);
                }
            }
            Ok(login)
        }
    }

    /// The client logged in as `name` is now connected; everyone is sent the
    /// full state.
    pub fn activate(&mut self, name: &String) -> (r: Reply)
        requires
            old(self).wf(),
        ensures
            final(self).wf(),
            r@ == to_all(OutgoingView::FullState),
            ({
                let s1 = with_player(old(self)@.sendable, name@);
                final(self)@ == (StateView {
                    sendable: SendableView {
                        players: s1.players.insert(name@, PlayerView { active: true, ..s1.players[name@] }),
                        ..s1
                    },
                    ..old(self)@
                })
            }),
    {
        self.sendable.get_player_mut(name).set_active(true);
        Reply { to: Recipient::All, message: Outgoing::FullState {} }
    }

    /// The client logged in as `name` left: they are no longer connected, and
    /// everyone is sent the full state.
    pub fn leave(&mut self, name: &String) -> (r: Reply)
        requires
            old(self).wf(),
        ensures
            final(self).wf(),
            r@ == to_all(OutgoingView::FullState),
            ({
                let s1 = with_player(old(self)@.sendable, name@);
                final(self)@ == (StateView {
                    peers: old(self)@.peers.remove_value(name@),
                    sendable: SendableView {
                        players: s1.players.insert(name@, PlayerView { active: false, ..s1.players[name@] }),
                        ..s1
                    },
                    ..old(self)@
                })
            }),
    {
        self.peers.remove(name);
        self.sendable.get_player_mut(name).set_active(false);
        Reply { to: Recipient::All, message: Outgoing::FullState {} }
    }

    /// Whether `login` is the host.
    fn is_host(&self, login: &String) -> (b: bool)
        requires
            self.wf(),
        ensures
            b == is_host(self@.sendable, login@),
    {
        match self.sendable.get_host() {
            Some(h) => *h == *login,
            None => false,
        }
    }

    /// `Start` from `login`: the host's start sets the game running;
    /// everyone gets the full state.
    pub fn on_start(&mut self, login: &String) -> (r: Vec<Reply>)
        requires
            old(self).wf(),
        ensures
            final(self).wf(),
            final(self)@ == (StateView {
                sendable: if is_host(old(self)@.sendable, login@) {
                    SendableView { state: GameState::RUNNING, ..old(self)@.sendable }
                } else {
                    old(self)@.sendable
                },
                ..old(self)@
            }),
            replies_view(r@) == seq![to_all(OutgoingView::FullState)],
    {
        if self.is_host(login) {
            self.sendable.set_state(GameState::RUNNING);
        }
        let r = vec![Reply { to: Recipient::All, message: Outgoing::FullState {} }];
        assert(replies_view(r@) =~= seq![to_all(OutgoingView::FullState)]);
        r
    }

    /// `Restart` from `login`: the host's restart takes the next word and
    /// restarts the game; everyone gets the full state.
    pub fn on_restart(&mut self, login: &String) -> (r: Vec<Reply>)
        requires
            old(self).wf(),
        ensures
            final(self).wf(),
            final(self)@ == if is_host(old(self)@.sendable, login@) { restart_spec(old(self)@) } else { old(self)@ },
            replies_view(r@) == seq![to_all(OutgoingView::FullState)],
    {
        if self.is_host(login) {
            self.restart();
        }
        let r = vec![Reply { to: Recipient::All, message: Outgoing::FullState {} }];
        assert(replies_view(r@) =~= seq![to_all(OutgoingView::FullState)]);
        r
    }

    /// `Guess` from `login`: the guess is shown to everyone.
    pub fn on_guess(&self, login: &String, guess: String) -> (r: Vec<Reply>)
        ensures
            replies_view(r@) == seq![to_all(OutgoingView::Guess { username: login@, guess: guess@ })],
    {
        let r = vec![Reply { to: Recipient::All, message: Outgoing::Guess { username: login.clone(), guess } }];
        assert(replies_view(r@) =~= seq![to_all(OutgoingView::Guess { username: login@, guess: guess@ })]);
        r
    }

    /// Where `login`'s drawing of the current word is to be saved and scored.
    pub fn drawing_path(&self, login: &String) -> (p: String)
        requires
            self.wf(),
        ensures
            p@ == drawing_path(login@, self@.sendable.word),
    {
        let mut p = String::new();
        p.append("frontend/drawings/");
        p.append(login.as_str());
        p.push('-');
        p.append(self.sendable.wordname().as_str());
        p.append(".png");
        proof {
            reveal_strlit("frontend/drawings/");
            reveal_strlit(".png");
        }
        assert(p@ =~= drawing_path(login@, self@.sendable.word));
        p
    }

    /// `login`'s drawing was scored `score` (the bit pattern of an `f32`):
    /// the score is recorded and announced, then everyone gets the full
    /// state.
    pub fn record_score(&mut self, login: &String, score: u32) -> (r: Vec<Reply>)
        requires
            old(self).wf(),
        ensures
            final(self).wf(),
            ({
                let s1 = with_player(old(self)@.sendable, login@);
                final(self)@ == (StateView {
                    sendable: SendableView {
                        players: s1.players.insert(login@, PlayerView { score, ..s1.players[login@] }),
                        ..s1
                    },
                    ..old(self)@
                })
            }),
            replies_view(r@) == seq![to_all(OutgoingView::Score { score }), to_all(OutgoingView::FullState)],
    {
        self.sendable.get_player_mut(login).set_score(score);
        let r = vec![
            Reply { to: Recipient::All, message: Outgoing::Score { score } },
            Reply { to: Recipient::All, message: Outgoing::FullState {} },
        ];
        assert(replies_view(r@) =~= seq![to_all(OutgoingView::Score { score }), to_all(OutgoingView::FullState)]);
        r
    }
}


/// Words added to the pool are drawn last first: right after `add_words`
/// with at least one word, the word to draw is the last one added, and the
/// others stay in the pool.
pub proof fn law_added_words_drawn_last_first(v: StateView, words: Seq<(Seq<char>, Seq<u32>)>)
    requires
        words.len() > 0,
    ensures
        ({
            let r = restart_spec(StateView { word_pool: v.word_pool + words, ..v });
            &&& r.sendable.word == words.last().0
            &&& r.embedding == words.last().1
            &&& r.word_pool == v.word_pool + words.drop_last()
        }),
{
    let p = v.word_pool + words;
    assert(p.last() == words.last());
    assert(p.drop_last() =~= v.word_pool + words.drop_last());
}

/// A restart goes back to the lobby: whatever the phase before, the game is
/// in the lobby with the clock at zero, every player keeps their place and
/// whether they are connected and has a score of zero, and the clients, the
/// host and the clock settings are unchanged.
pub proof fn law_restart_returns_to_lobby(v: StateView)
    ensures
        ({
            let r = restart_spec(v);
            &&& r.sendable.state == GameState::LOBBY
            &&& r.sendable.time == 0
            &&& r.sendable.players.dom() == v.sendable.players.dom()
            &&& forall|k: Seq<char>| #[trigger] r.sendable.players.contains_key(k) ==> {
                &&& r.sendable.players[k].score == 0
                &&& r.sendable.players[k].active == v.sendable.players[k].active
            }
            &&& r.sendable.names == v.sendable.names
            &&& r.sendable.host == v.sendable.host
            &&& r.sendable.timelimit == v.sendable.timelimit
            &&& r.sendable.maxpoints == v.sendable.maxpoints
            &&& r.sendable.end_on_time == v.sendable.end_on_time
            &&& r.peers == v.peers
        }),
{
    assert(restart_spec(v).sendable.players.dom() =~= v.sendable.players.dom());
}

} // verus!
