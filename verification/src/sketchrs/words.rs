//! The words to draw, read from a text with one word per line.

use vstd::prelude::*;
use crate::text::strings_view;

verus! {

/// Lines found so far, and the line being read.
pub struct LineState {
    pub lines: Seq<Seq<char>>,
    pub cur: Seq<char>,
}

/// The state after reading all of `s`: each `'\n'` ends a line.
pub open spec fn line_state(s: Seq<char>) -> LineState
    decreases s.len(),
{
    if s.len() == 0 {
        LineState { lines: Seq::empty(), cur: Seq::empty() }
    } else {
        let st = line_state(s.drop_last());
        if s.last() == '\n' {
            LineState { lines: st.lines.push(st.cur), cur: Seq::empty() }
        } else {
            LineState { cur: st.cur.push(s.last()), ..st }
        }
    }
}

/// The pieces of `s` between `'\n'` characters, as `s.split('\n')` gives
/// them.
pub open spec fn split_lines(s: Seq<char>) -> Seq<Seq<char>> {
    line_state(s).lines.push(line_state(s).cur)
}

/// The non-empty lines of `s`, in order.
pub open spec fn word_lines(s: Seq<char>) -> Seq<Seq<char>> {
    split_lines(s).filter(|l: Seq<char>| l.len() > 0)
}

/// The non-empty lines of `text`, in order.
pub fn lines_of(text: &str) -> (r: Vec<String>)
    ensures
        strings_view(r@) == word_lines(text@),
{
    broadcast use vstd::string::group_string_axioms;
    let ghost nonempty = |l: Seq<char>| l.len() > 0;
    let mut lines: Vec<String> = Vec::new();
    let mut cur = String::new();
    for x in iter: text.chars()
        invariant
            iter.seq() == text@,
            nonempty == (|l: Seq<char>| l.len() > 0),
            strings_view(lines@) == line_state(text@.take(iter.index() as int)).lines.filter(nonempty),
            cur@ == line_state(text@.take(iter.index() as int)).cur,
    {
        proof {
            let k = iter.index() as int;
            assert(text@.take(k + 1).drop_last() =~= text@.take(k));
            let st = line_state(text@.take(k));
            st.lines.lemma_filter_push(st.cur, nonempty);
        }
        if x == '\n' {
            if cur.unicode_len() > 0 {
                let ghost before = lines@;
                lines.push(cur);
                assert(strings_view(lines@) =~= strings_view(before).push(lines@.last()@));
            }
            cur = String::new();
        } else {
            cur.push(x);
        }
    }
    proof {
        assert(text@.take(text@.len() as int) =~= text@);
        let st = line_state(text@);
        st.lines.lemma_filter_push(st.cur, nonempty);
    }
    if cur.unicode_len() > 0 {
        let ghost before = lines@;
        lines.push(cur);
        assert(strings_view(lines@) =~= strings_view(before).push(lines@.last()@));
    }
    lines
}

/// The words of a words file: one per non-empty line, in the file's order.
pub fn words_from_text(text: &str) -> (r: Vec<String>)
    ensures
        strings_view(r@) == word_lines(text@),
{
    lines_of(text)
}

} // verus!
