//! Text helpers shared by the games and the file tools.

use vstd::prelude::*;
use crate::foreign::{lowercase, to_lowercase};

verus! {

/// The characters with the Unicode `White_Space` property.
pub open spec fn is_white_space(c: char) -> bool {
    let u = c as u32;
    (0x9 <= u <= 0xD) || u == 0x20 || u == 0x85 || u == 0xA0 || u == 0x1680 || (0x2000 <= u <= 0x200A)
        || u == 0x2028 || u == 0x2029 || u == 0x202F || u == 0x205F || u == 0x3000
}

/// Whether `c` is white space, as `char::is_whitespace` answers: the
/// characters with the Unicode `White_Space` property.
pub fn char_is_whitespace(c: char) -> (b: bool)
    ensures
        b == is_white_space(c),
{
    let u = c as u32;
    (0x9 <= u && u <= 0xD) || u == 0x20 || u == 0x85 || u == 0xA0 || u == 0x1680 || (0x2000 <= u && u <= 0x200A)
        || u == 0x2028 || u == 0x2029 || u == 0x202F || u == 0x205F || u == 0x3000
}

/// A character with an ASCII capital letter turned into its small letter.
pub open spec fn ascii_lower(c: char) -> char {
    if 'A' <= c <= 'Z' {
        ((c as u32) + 32) as char
    } else {
        c
    }
}

/// `s` with ASCII letters 'A' to 'Z' turned into 'a' to 'z' and every other
/// character unchanged, as `str::to_ascii_lowercase` gives it.
pub fn to_ascii_lowercase(s: &str) -> (r: String)
    ensures
        r@ == s@.map_values(|c: char| ascii_lower(c)),
{
    let mut r = String::new();
    for x in iter: s.chars()
        invariant
            iter.seq() == s@,
            r@ == s@.take(iter.index() as int).map_values(|c: char| ascii_lower(c)),
    {
        let ghost k = iter.index();
        let l = if 'A' <= x && x <= 'Z' {
            let b = (x as u8) + 32;
            b as char
        } else {
            x
        };
        assert(l == ascii_lower(x));
        r.push(l);
        assert(s@.take(k + 1) =~= s@.take(k as int).push(x));
        assert(r@ =~= s@.take(k + 1).map_values(|c: char| ascii_lower(c)));
    }
    assert(s@.take(s@.len() as int) =~= s@);
    r
}

/// The characters of each string.
pub open spec fn strings_view(v: Seq<String>) -> Seq<Seq<char>> {
    v.map_values(|s: String| s@)
}

/// A copy of a list of strings.
pub fn clone_strings(s: &[String]) -> (r: Vec<String>)
    ensures
        r@ == s@,
{
    let mut r: Vec<String> = Vec::new();
    let n = s.len();
    let mut k: usize = 0;
    while k < n
        invariant
            n == s@.len(),
            k <= n,
            r@ == s@.take(k as int),
        decreases n - k,
    {
        r.push(s[k].clone());
        k = k + 1;
        assert(r@ =~= s@.take(k as int));
    }
    assert(s@.take(n as int) =~= s@);
    r
}

/// `s` without any occurrence of `c`.
pub open spec fn without_char(s: Seq<char>, c: char) -> Seq<char> {
    s.filter(|x: char| x != c)
}

/// `s` with every `c` removed, as `s.replace(c, "")` gives it.
pub fn remove_char(s: &str, c: char) -> (r: String)
    ensures
        r@ == without_char(s@, c),
{
    broadcast use vstd::string::group_string_axioms;
    let mut r = String::new();
    for x in iter: s.chars()
        invariant
            iter.seq() == s@,
            r@ == without_char(s@.take(iter.index() as int), c),
    {
        proof {
            let k = iter.index() as int;
            assert(s@.take(k + 1).drop_last() =~= s@.take(k));
            reveal_with_fuel(Seq::filter, 1);
        }
        if x != c {
            r.push(x);
        }
    }
    assert(s@.take(s@.len() as int) =~= s@);
    r
}

/// Words found so far, and the word being read.
pub struct SplitState {
    pub words: Seq<Seq<char>>,
    pub cur: Seq<char>,
}

/// Reads one more character: white space ends the current word, anything
/// else extends it.
pub open spec fn split_step(st: SplitState, c: char) -> SplitState {
    if is_white_space(c) {
        if st.cur.len() > 0 {
            SplitState { words: st.words.push(st.cur), cur: Seq::empty() }
        } else {
            st
        }
    } else {
        SplitState { cur: st.cur.push(c), ..st }
    }
}

/// The state after reading all of `s`.
pub open spec fn split_state(s: Seq<char>) -> SplitState
    decreases s.len(),
{
    if s.len() == 0 {
        SplitState { words: Seq::empty(), cur: Seq::empty() }
    } else {
        split_step(split_state(s.drop_last()), s.last())
    }
}

/// The words of `s`: its longest runs of characters other than white space,
/// in order, as `str::split_whitespace` gives them.
pub open spec fn split_words(s: Seq<char>) -> Seq<Seq<char>> {
    let st = split_state(s);
    if st.cur.len() > 0 {
        st.words.push(st.cur)
    } else {
        st.words
    }
}

/// The words of `s`.
pub fn words_of(s: &str) -> (r: Vec<String>)
    ensures
        strings_view(r@) == split_words(s@),
{
    broadcast use vstd::string::group_string_axioms;
    let mut words: Vec<String> = Vec::new();
    let mut cur = String::new();
    for x in iter: s.chars()
        invariant
            iter.seq() == s@,
            strings_view(words@) == split_state(s@.take(iter.index() as int)).words,
            cur@ == split_state(s@.take(iter.index() as int)).cur,
    {
        proof {
            let k = iter.index() as int;
            assert(s@.take(k + 1).drop_last() =~= s@.take(k));
        }
        if char_is_whitespace(x) {
            if cur.unicode_len() > 0 {
                let ghost before = words@;
                words.push(cur);
                assert(strings_view(words@) =~= strings_view(before).push(words@.last()@));
                cur = String::new();
            }
        } else {
            cur.push(x);
        }
    }
    assert(s@.take(s@.len() as int) =~= s@);
    if cur.unicode_len() > 0 {
        let ghost before = words@;
        words.push(cur);
        assert(strings_view(words@) =~= strings_view(before).push(words@.last()@));
    }
    words
}

/// Three consecutive words from position `i`, joined by single spaces.
pub open spec fn trigram(w: Seq<Seq<char>>, i: int) -> Seq<char> {
    w[i] + seq![' '] + w[i + 1] + seq![' '] + w[i + 2]
}

/// The trigrams that start at positions `0 .. w.len() - 3`; the one that
/// starts at `w.len() - 3` is not among them, and fewer than three words have
/// none.
pub open spec fn trigrams_of(w: Seq<Seq<char>>) -> Seq<Seq<char>> {
    Seq::new(if w.len() >= 3 { (w.len() - 3) as nat } else { 0 }, |i: int| trigram(w, i))
}

/// A text with its apostrophes removed, in lower case.
pub open spec fn normalized(s: Seq<char>) -> Seq<char> {
    lowercase(without_char(s, '\''))
}

/// The words of a normalized text.
pub open spec fn normalized_words(s: Seq<char>) -> Seq<Seq<char>> {
    split_words(normalized(s))
}

/// Joins three words with single spaces.
fn join3(a: &String, b: &String, c: &String) -> (r: String)
    ensures
        r@ == a@ + seq![' '] + b@ + seq![' '] + c@,
{
    let mut r = String::new();
    r.append(a.as_str());
    r.push(' ');
    r.append(b.as_str());
    r.push(' ');
    r.append(c.as_str());
    assert(r@ =~= a@ + seq![' '] + b@ + seq![' '] + c@);
    r
}

/// The trigrams of a text, once normalized; none when it has fewer than
/// three words.
pub fn trigram_list(contents: &str) -> (r: Vec<String>)
    ensures
        strings_view(r@) == trigrams_of(normalized_words(contents@)),
{
    let cleaned = remove_char(contents, '\'');
    let lower = to_lowercase(cleaned.as_str());
    let words = words_of(lower.as_str());
    let ghost w = strings_view(words@);
    if words.len() < 3 {
        let r: Vec<String> = Vec::new();
        assert(strings_view(r@) =~= trigrams_of(w));
        return r;
    }
    let n = words.len() - 3;
    let mut r: Vec<String> = Vec::new();
    let mut i: usize = 0;
    while i < n
        invariant
            n == w.len() - 3,
            w == strings_view(words@),
            i <= n,
            strings_view(r@) == trigrams_of(w).take(i as int),
        decreases n - i,
    {
        let t = join3(&words[i], &words[i + 1], &words[i + 2]);
        let ghost before = r@;
        assert(t@ == trigram(w, i as int));
        r.push(t);
        assert(strings_view(r@) =~= strings_view(before).push(trigram(w, i as int)));
        assert(strings_view(r@) =~= trigrams_of(w).take(i + 1));
        i = i + 1;
    }
    assert(trigrams_of(w).take(n as int) =~= trigrams_of(w));
    r
}

/// Whether `s` begins with `prefix`.
pub fn starts_with(s: &str, prefix: &str) -> (b: bool)
    ensures
        b == prefix@.is_prefix_of(s@),
{
    let n = prefix.unicode_len();
    let m = s.unicode_len();
    if n > m {
        return false;
    }
    let mut i: usize = 0;
    while i < n
        invariant
            n == prefix@.len(),
            m == s@.len(),
            n <= m,
            i <= n,
            forall|j: int| 0 <= j < i ==> prefix@[j] == s@[j],
        decreases n - i,
    {
        if s.get_char(i) != prefix.get_char(i) {
            return false;
        }
        i = i + 1;
    }
    true
}

/// Whether `s` is one of `v`.
pub fn contains_string(v: &Vec<String>, s: &String) -> (b: bool)
    ensures
        b == strings_view(v@).contains(s@),
{
    let n = v.len();
    let mut i: usize = 0;
    while i < n
        invariant
            n == v@.len(),
            i <= n,
            forall|j: int| 0 <= j < i ==> v@[j]@ != s@,
        decreases n - i,
    {
        if v[i] == *s {
            assert(strings_view(v@)[i as int] == s@);
            return true;
        }
        i = i + 1;
    }
    assert(!strings_view(v@).contains(s@)) by {
        if strings_view(v@).contains(s@) {
            let j = choose|j: int| 0 <= j < strings_view(v@).len() && strings_view(v@)[j] == s@;
            assert(v@[j]@ == s@);
        }
    }
    false
}

/// The first `max_chars` characters of `s` (all of `s` when it is shorter).
pub open spec fn take_chars(s: Seq<char>, max_chars: nat) -> Seq<char> {
    if s.len() <= max_chars {
        s
    } else {
        s.take(max_chars as int)
    }
}

/// Returns the first `max_chars` characters of `s`.
pub fn truncate_chars(s: &str, max_chars: usize) -> (r: String)
    ensures
        r@ == take_chars(s@, max_chars as nat),
{
    let n = s.unicode_len();
    if n <= max_chars {
        s.to_owned()
    } else {
        s.substring_char(0, max_chars).to_owned()
    }
}

} // verus!
