//! The rules of the daily challenge: which word is today's, where drawings
//! go and how saved drawings are named.

use vstd::prelude::*;
use crate::foreign::{sqid_numbers, sqid_of, sqids_decode, sqids_encode};
use crate::sketch_daily::packets::Outgoing;
use crate::strmap::{lemma_map_values_insert, StrMap};

verus! {

/// A word with its embedding (the bit patterns of its `f32` components).
#[derive(Debug)]
pub struct Word {
    pub word: String,
    pub embedding: Vec<u32>,
}

/// The state, as the contracts see it.
pub struct StateView {
    /// The dates that have a word, in the order in which they were added.
    pub dates: Seq<Seq<char>>,
    /// The word of each date, with its embedding.
    pub word_pool: Map<Seq<char>, (Seq<char>, Seq<u32>)>,
    /// The embedding of the current word.
    pub embedding: Seq<u32>,
    /// The current word.
    pub word: Seq<char>,
}

/// The views of a map of words.
pub open spec fn pool_view(m: Map<Seq<char>, Word>) -> Map<Seq<char>, (Seq<char>, Seq<u32>)> {
    m.map_values(|w: Word| (w.word@, w.embedding@))
}

/// The state once `today`'s word, when there is one, is the current word.
pub open spec fn restart_spec(v: StateView, today: Seq<char>) -> StateView {
    if v.word_pool.contains_key(today) {
        StateView { word: v.word_pool[today].0, embedding: v.word_pool[today].1, ..v }
    } else {
        v
    }
}

/// The words of the challenge, by date, and the current word.
pub struct State {
    word_pool: StrMap<Word>,
    embedding: Vec<u32>,
    word: String,
}

impl View for State {
    type V = StateView;

    closed spec fn view(&self) -> StateView {
        StateView {
            dates: self.word_pool.keys_view(),
            word_pool: pool_view(self.word_pool@),
            embedding: self.embedding@,
            word: self.word@,
        }
    }
}

/// A copy of a list of numbers.
fn copy_u32s(v: &Vec<u32>) -> (r: Vec<u32>)
    ensures
        r@ == v@,
{
    let mut r: Vec<u32> = Vec::new();
    let n = v.len();
    let mut i: usize = 0;
    while i < n
        invariant
            n == v@.len(),
            i <= n,
            r@ == v@.take(i as int),
        decreases n - i,
    {
        r.push(v[i]);
        i = i + 1;
        assert(r@ =~= v@.take(i as int));
    }
    assert(v@.take(n as int) =~= v@);
    r
}

impl State {
    /// The word pool is well formed.
    pub closed spec fn wf(&self) -> bool {
        self.word_pool.wf()
    }

    /// No words and an empty current word.
    pub fn new() -> (s: Self)
        ensures
            s.wf(),
            s@ == (StateView {
                dates: Seq::empty(),
                word_pool: Map::empty(),
                embedding: Seq::empty(),
                word: Seq::empty(),
            }),
    {
        let s = State { word_pool: StrMap::new(), embedding: Vec::new(), word: String::new() };
        assert(pool_view(s.word_pool@) =~= Map::<Seq<char>, (Seq<char>, Seq<u32>)>::empty());
        s
    }

    /// Makes `today`'s word, when there is one, the current word.
    pub fn restart(&mut self, today: &str)
        requires
            old(self).wf(),
        ensures
            final(self).wf(),
            final(self)@ == restart_spec(old(self)@, today@),
    {
        let date = today.to_owned();
        if let Some(word) = self.word_pool.get(&date) {
            let e = copy_u32s(&word.embedding);
            let w = word.word.clone();
            self.embedding = e;
            self.word = w;
        }
    }

    /// Adds dated words (a later word for a date replaces an earlier one),
    /// then makes `today`'s word current.
    pub fn add_words(&mut self, words: Vec<(String, Word)>, today: &str)
        requires
            old(self).wf(),
        ensures
            final(self).wf(),
            final(self)@ == restart_spec(
                StateView {
                    word_pool: dated_pool(old(self)@.word_pool, dated_view(words@)),
                    dates: dated_keys(old(self)@.dates, dated_view(words@)),
                    ..old(self)@
                },
                today@,
            ),
    {
        let ghost ws = dated_view(words@);
        for x in iter: words.into_iter()
            invariant
                self.wf(),
                ws == dated_view(iter.seq()),
                self@.word_pool == dated_pool(old(self)@.word_pool, ws.take(iter.index() as int)),
                self@.dates == dated_keys(old(self)@.dates, ws.take(iter.index() as int)),
                self@.embedding == old(self)@.embedding,
                self@.word == old(self)@.word,
        {
            let (k, w) = x;
            proof {
                let j = iter.index() as int;
                assert(ws.take(j + 1).drop_last() =~= ws.take(j));
                assert(ws.take(j + 1).last() == (k@, (w.word@, w.embedding@)));
                lemma_map_values_insert(self.word_pool@, k@, |w: Word| (w.word@, w.embedding@));
            }
            self.word_pool.insert(k, w);
        }
        assert(ws.take(ws.len() as int) =~= ws);
        self.restart(today);
    }

    /// Each time the clock ticks, `today`'s word becomes current.
    pub fn tick(&mut self, today: &str)
        requires
            old(self).wf(),
        ensures
            final(self).wf(),
            final(self)@ == restart_spec(old(self)@, today@),
    {
        self.restart(today);
    }

    /// The current word.
    pub fn word(&self) -> (w: String)
        ensures
            w@ == self@.word,
    {
        self.word.clone()
    }

    /// The embedding of the current word.
    pub fn embedding(&self) -> (e: &Vec<u32>)
        ensures
            e@ == self@.embedding,
    {
        &self.embedding
    }

    /// Where a drawing of the current word, saved under `unique`, goes.
    pub fn drawing_path(&self, unique: &str) -> (p: String)
        ensures
            p@ == seq!['f', 'r', 'o', 'n', 't', 'e', 'n', 'd', '/', 'd', 'r', 'a', 'w', 'i', 'n', 'g', 's', '/']
                + self@.word + seq!['-'] + unique@ + seq!['.', 'p', 'n', 'g'],
    {
        let mut p = String::new();
        p.append("frontend/drawings/");
        p.append(self.word.as_str());
        p.push('-');
        p.append(unique);
        p.append(".png");
        proof {
            reveal_strlit("frontend/drawings/");
            reveal_strlit(".png");
        }
        assert(p@ =~= seq!['f', 'r', 'o', 'n', 't', 'e', 'n', 'd', '/', 'd', 'r', 'a', 'w', 'i', 'n', 'g', 's', '/']
            + self@.word + seq!['-'] + unique@ + seq!['.', 'p', 'n', 'g']);
        p
    }
}

/// The dated words, as the contracts see them.
pub open spec fn dated_view(ws: Seq<(String, Word)>) -> Seq<(Seq<char>, (Seq<char>, Seq<u32>))> {
    ws.map_values(|x: (String, Word)| (x.0@, (x.1.word@, x.1.embedding@)))
}

/// The word pool after adding dated words in order.
pub open spec fn dated_pool(
    m: Map<Seq<char>, (Seq<char>, Seq<u32>)>,
    ws: Seq<(Seq<char>, (Seq<char>, Seq<u32>))>,
) -> Map<Seq<char>, (Seq<char>, Seq<u32>)>
    decreases ws.len(),
{
    if ws.len() == 0 {
        m
    } else {
        dated_pool(m, ws.drop_last()).insert(ws.last().0, ws.last().1)
    }
}

/// The dates after adding dated words in order: new dates go at the end.
pub open spec fn dated_keys(keys: Seq<Seq<char>>, ws: Seq<(Seq<char>, (Seq<char>, Seq<u32>))>) -> Seq<Seq<char>>
    decreases ws.len(),
{
    if ws.len() == 0 {
        keys
    } else {
        let k = dated_keys(keys, ws.drop_last());
        if k.contains(ws.last().0) {
            k
        } else {
            k.push(ws.last().0)
        }
    }
}

/// The reply to a judged drawing: its score (the bit pattern of an `f32`)
/// and the sqid of the id under which it was saved; `None` when the id has
/// no sqid. The sqid decodes back to the id, so `decode_id` finds the saved
/// drawing again.
pub fn judge_reply(score: u32, id: u64) -> (r: Option<Outgoing>)
    ensures
        match sqid_of(seq![id]) {
            Some(s) => r matches Some(Outgoing::Score { score: sc, id: sid }) && sc == score && sid@ == s,
            None => r is None,
        },
        r matches Some(Outgoing::Score { id: sid, .. }) ==> sqid_numbers(sid@) == seq![id],
{
    let ids = vec![id];
    assert(ids@ =~= seq![id]);
    match sqids_encode(ids.as_slice()) {
        Some(s) => Some(Outgoing::Score { score, id: s }),
        None => None,
    }
}

/// The id that a sqid names: the first number it decodes to, if any.
pub fn decode_id(id: &str) -> (r: Option<u64>)
    ensures
        sqid_numbers(id@).len() == 0 ==> r is None,
        sqid_numbers(id@).len() > 0 ==> r == Some(sqid_numbers(id@)[0]),
{
    let numbers = sqids_decode(id);
    if numbers.len() > 0 {
        Some(numbers[0])
    } else {
        None
    }
}


/// Within one day the word stays: a second tick on the same date changes
/// nothing.
pub proof fn law_tick_same_day_is_stable(v: StateView, today: Seq<char>)
    ensures
        restart_spec(restart_spec(v, today), today) == restart_spec(v, today),
{
}

/// A judged drawing is found again by its sqid: when `judge_reply` gave the
/// sqid `sid` for the saved id `id`, `decode_id(sid)` gives `Some(id)`.
pub proof fn law_judged_sqid_decodes(sid: Seq<char>, id: u64)
    requires
        sqid_numbers(sid) == seq![id],
    ensures
        sqid_numbers(sid).len() > 0,
        sqid_numbers(sid)[0] == id,
{
}

} // verus!
