//! Finds texts that share word trigrams: an index from each trigram to the
//! files it occurs in.

use vstd::prelude::*;
use crate::strmap::{lemma_map_values_insert, StrMap};
use crate::text::{ascii_lower, normalized_words, strings_view, to_ascii_lowercase, trigram_list, trigrams_of};

verus! {

/// The characters that file names lose.
pub open spec fn is_dropped(c: char) -> bool {
    c == '\'' || c == '(' || c == ')' || c == ',' || c == '.'
}

/// A file name in ASCII lower case, without apostrophes, parentheses, commas
/// and dots.
pub open spec fn normalized_name(s: Seq<char>) -> Seq<char> {
    s.map_values(|c: char| ascii_lower(c)).filter(|c: char| !is_dropped(c))
}

/// The name under which a file is indexed; see `normalized_name`.
pub fn normalize_file_name(name: &str) -> (r: String)
    ensures
        r@ == normalized_name(name@),
{
    broadcast use vstd::string::group_string_axioms;
    let lower = to_ascii_lowercase(name);
    let ghost l = lower@;
    let ghost keep = |c: char| !is_dropped(c);
    let mut r = String::new();
    for c in iter: lower.as_str().chars()
        invariant
            iter.seq() == l,
            keep == (|c: char| !is_dropped(c)),
            r@ == l.take(iter.index() as int).filter(keep),
    {
        proof {
            let k = iter.index() as int;
            assert(l.take(k + 1) =~= l.take(k).push(c));
            l.take(k).lemma_filter_push(c, keep);
        }
        if !(c == '\'' || c == '(' || c == ')' || c == ',' || c == '.') {
            r.push(c);
        }
    }
    assert(l.take(l.len() as int) =~= l);
    r
}

/// The index, as the contracts see it.
pub struct IndexView {
    /// The trigrams, in the order in which they were first found.
    pub trigrams: Seq<Seq<char>>,
    /// For each trigram, the files it occurs in, in the order in which they
    /// were found, each once.
    pub files: Map<Seq<char>, Seq<Seq<char>>>,
}

/// The names after adding `f`, at the end when it is new.
pub open spec fn names_with(names: Seq<Seq<char>>, f: Seq<char>) -> Seq<Seq<char>> {
    if names.contains(f) {
        names
    } else {
        names.push(f)
    }
}

/// The index after noting that `t` occurs in `f`.
pub open spec fn index_add(v: IndexView, t: Seq<char>, f: Seq<char>) -> IndexView {
    if v.files.contains_key(t) {
        IndexView { files: v.files.insert(t, names_with(v.files[t], f)), ..v }
    } else {
        IndexView { trigrams: v.trigrams.push(t), files: v.files.insert(t, seq![f]) }
    }
}

/// The index after noting each of `ts` in `f`, in order.
pub open spec fn index_add_all(v: IndexView, ts: Seq<Seq<char>>, f: Seq<char>) -> IndexView
    decreases ts.len(),
{
    if ts.len() == 0 {
        v
    } else {
        index_add(index_add_all(v, ts.drop_last(), f), ts.last(), f)
    }
}

/// The file list of the first trigram, in index order, that occurs in more
/// files than every trigram before it.
pub open spec fn longest_of(ts: Seq<Seq<char>>, files: Map<Seq<char>, Seq<Seq<char>>>) -> Option<Seq<Seq<char>>>
    decreases ts.len(),
{
    if ts.len() == 0 {
        None
    } else {
        let v = files[ts.last()];
        match longest_of(ts.drop_last(), files) {
            Some(x) => if x.len() < v.len() { Some(v) } else { Some(x) },
            None => Some(v),
        }
    }
}

/// The trigrams that occur in more than one file, with their files, in
/// index order.
pub open spec fn shared_of(ts: Seq<Seq<char>>, files: Map<Seq<char>, Seq<Seq<char>>>) -> Seq<(Seq<char>, Seq<Seq<char>>)>
    decreases ts.len(),
{
    if ts.len() == 0 {
        Seq::empty()
    } else if files[ts.last()].len() > 1 {
        shared_of(ts.drop_last(), files).push((ts.last(), files[ts.last()]))
    } else {
        shared_of(ts.drop_last(), files)
    }
}

/// For each trigram, the files it occurs in.
pub struct TrigramIndex {
    files: StrMap<StrMap<()>>,
}

/// The file lists of an index.
pub open spec fn file_lists(m: Map<Seq<char>, StrMap<()>>) -> Map<Seq<char>, Seq<Seq<char>>> {
    m.map_values(|s: StrMap<()>| s.keys_view())
}

impl View for TrigramIndex {
    type V = IndexView;

    closed spec fn view(&self) -> IndexView {
        IndexView { trigrams: self.files.keys_view(), files: file_lists(self.files@) }
    }
}

/// The names of a list of strings, as pairs with their views.
pub open spec fn entries_view(v: Seq<(String, Vec<String>)>) -> Seq<(Seq<char>, Seq<Seq<char>>)> {
    v.map_values(|x: (String, Vec<String>)| (x.0@, strings_view(x.1@)))
}

impl TrigramIndex {
    /// The maps are well formed.
    pub closed spec fn wf(&self) -> bool {
        &&& self.files.wf()
        &&& forall|i: int| 0 <= i < self.files.vals_view().len() ==> #[trigger] self.files.vals_view()[i].wf()
    }

    /// An empty index.
    pub fn new() -> (r: Self)
        ensures
            r.wf(),
            r@ == (IndexView { trigrams: Seq::empty(), files: Map::empty() }),
    {
        let r = TrigramIndex { files: StrMap::new() };
        assert(file_lists(r.files@) =~= Map::<Seq<char>, Seq<Seq<char>>>::empty());
        r
    }

    /// Notes that `trigram` occurs in the file `fname`.
    pub fn add(&mut self, trigram: String, fname: &String)
        requires
            old(self).wf(),
        ensures
            final(self).wf(),
            final(self)@ == index_add(old(self)@, trigram@, fname@),
    {
        match self.files.find(&trigram) {
            Some(i) => {
                proof {
                    self.files.lemma_view_at(i as int);
                    lemma_map_values_insert(self.files@, trigram@, |s: StrMap<()>| s.keys_view());
                }
                let ghost pre = self.files.vals_view()[i as int].keys_view();
                let inner = self.files.val_at_mut(i);
                inner.insert(fname.clone(), ());
                proof {
                    if pre.contains(fname@) {
                        assert(inner.keys_view() == pre);
                    }
                }
            },
            None => {
                let mut inner: StrMap<()> = StrMap::new();
                inner.push_new(fname.clone(), ());
                assert(inner.keys_view() =~= seq![fname@]);
                proof {
                    lemma_map_values_insert(self.files@, trigram@, |s: StrMap<()>| s.keys_view());
                }
                self.files.push_new(trigram, inner);
            },
        }
    }

    /// Notes every trigram of `contents` (see `trigram_list`) as occurring
    /// in the file `fname`; a text of fewer than three words has none.
    pub fn add_file(&mut self, fname: &String, contents: &str)
        requires
            old(self).wf(),
        ensures
            final(self).wf(),
            final(self)@ == index_add_all(old(self)@, trigrams_of(normalized_words(contents@)), fname@),
    {
        let ts = trigram_list(contents);
        let ghost tv = strings_view(ts@);
        for t in iter: ts.into_iter()
            invariant
                self.wf(),
                tv == strings_view(iter.seq()),
                self@ == index_add_all(old(self)@, tv.take(iter.index() as int), fname@),
        {
            proof {
                let k = iter.index() as int;
                assert(tv.take(k + 1).drop_last() =~= tv.take(k));
                assert(tv.take(k + 1).last() == t@);
            }
            self.add(t, fname);
        }
        assert(tv.take(tv.len() as int) =~= tv);
    }

    /// The files of the `i`-th trigram.
    fn files_at(&self, i: usize) -> (r: Vec<String>)
        requires
            self.wf(),
            i < self@.trigrams.len(),
        ensures
            strings_view(r@) == self@.files[self@.trigrams[i as int]],
    {
        proof {
            self.files.lemma_view_at(i as int);
        }
        let inner = self.files.val_at(i);
        let n = inner.len();
        let mut r: Vec<String> = Vec::new();
        let mut k: usize = 0;
        while k < n
            invariant
                inner.wf(),
                n == inner.keys_view().len(),
                k <= n,
                strings_view(r@) == inner.keys_view().take(k as int),
            decreases n - k,
        {
            let key = inner.key_at(k).clone();
            let ghost before = r@;
            r.push(key);
            assert(strings_view(r@) =~= strings_view(before).push(inner.keys_view()[k as int]));
            assert(inner.keys_view().take(k + 1) =~= inner.keys_view().take(k as int).push(inner.keys_view()[k as int]));
            k = k + 1;
        }
        assert(inner.keys_view().take(n as int) =~= inner.keys_view());
        r
    }

    /// The trigrams that occur in more than one file, with their files.
    pub fn shared(&self) -> (r: Vec<(String, Vec<String>)>)
        requires
            self.wf(),
        ensures
            entries_view(r@) == shared_of(self@.trigrams, self@.files),
    {
        let n = self.files.len();
        let ghost ts = self@.trigrams;
        let mut r: Vec<(String, Vec<String>)> = Vec::new();
        let mut i: usize = 0;
        while i < n
            invariant
                self.wf(),
                ts == self@.trigrams,
                n == ts.len(),
                i <= n,
                entries_view(r@) == shared_of(ts.take(i as int), self@.files),
            decreases n - i,
        {
            proof {
                assert(ts.take(i + 1).drop_last() =~= ts.take(i as int));
            }
            let names = self.files_at(i);
            if names.len() > 1 {
                let ghost before = r@;
                r.push((self.files.key_at(i).clone(), names));
                assert(entries_view(r@) =~= entries_view(before).push((ts[i as int], self@.files[ts[i as int]])));
            }
            i = i + 1;
        }
        assert(ts.take(n as int) =~= ts);
        r
    }

    /// The files of the trigram that occurs in the most files: the first
    /// such trigram, in index order. `None` for an empty index.
    pub fn longest(&self) -> (r: Option<Vec<String>>)
        requires
            self.wf(),
        ensures
            match r {
                None => longest_of(self@.trigrams, self@.files) is None,
                Some(v) => longest_of(self@.trigrams, self@.files) == Some(strings_view(v@)),
            },
    {
        let n = self.files.len();
        let ghost ts = self@.trigrams;
        let mut longest: Option<Vec<String>> = None;
        let mut i: usize = 0;
        while i < n
            invariant
                self.wf(),
                ts == self@.trigrams,
                n == ts.len(),
                i <= n,
                match longest {
                    None => longest_of(ts.take(i as int), self@.files) is None,
                    Some(v) => longest_of(ts.take(i as int), self@.files) == Some(strings_view(v@)),
                },
            decreases n - i,
        {
            proof {
                assert(ts.take(i + 1).drop_last() =~= ts.take(i as int));
            }
            let v = self.files_at(i);
            let replace = match &longest {
                Some(x) => x.len() < v.len(),
                None => true,
            };
            if replace {
                longest = Some(v);
            }
            i = i + 1;
        }
        assert(ts.take(n as int) =~= ts);
        longest
    }
}

/// The shared trigrams are exactly those in two files or more: every
/// trigram of the index whose files number two or more is listed with its
/// files, and every listed entry is such a trigram with its files.
pub proof fn law_shared_lists_trigrams_in_two_files(ts: Seq<Seq<char>>, files: Map<Seq<char>, Seq<Seq<char>>>)
    ensures
        forall|t: Seq<char>| ts.contains(t) && #[trigger] files[t].len() >= 2 ==> shared_of(ts, files).contains((t, files[t])),
        forall|e: (Seq<char>, Seq<Seq<char>>)| #[trigger] shared_of(ts, files).contains(e) ==> {
            &&& ts.contains(e.0)
            &&& e.1 == files[e.0]
            &&& e.1.len() >= 2
        },
    decreases ts.len(),
{
    if ts.len() > 0 {
        let d = ts.drop_last();
        let l = ts.last();
        law_shared_lists_trigrams_in_two_files(d, files);
        let sd = shared_of(d, files);
        assert forall|t: Seq<char>| ts.contains(t) && #[trigger] files[t].len() >= 2 implies shared_of(ts, files).contains((t, files[t])) by {
            let i = choose|i: int| 0 <= i < ts.len() && ts[i] == t;
            if i < ts.len() - 1 {
                assert(d[i] == t);
                assert(d.contains(t));
                let k = choose|k: int| 0 <= k < sd.len() && sd[k] == (t, files[t]);
                if files[l].len() > 1 {
                    assert(shared_of(ts, files)[k] == (t, files[t]));
                }
            } else {
                assert(t == l);
                let r = shared_of(ts, files);
                assert(r[r.len() - 1] == (t, files[t]));
            }
        }
        assert forall|e: (Seq<char>, Seq<Seq<char>>)| #[trigger] shared_of(ts, files).contains(e) implies {
            &&& ts.contains(e.0)
            &&& e.1 == files[e.0]
            &&& e.1.len() >= 2
        } by {
            let r = shared_of(ts, files);
            let k = choose|k: int| 0 <= k < r.len() && r[k] == e;
            if files[l].len() > 1 && k == r.len() - 1 {
                assert(ts[ts.len() - 1] == l);
            } else {
                assert(sd[k] == e);
                assert(sd.contains(e));
                let i = choose|i: int| 0 <= i < d.len() && d[i] == e.0;
                assert(ts[i] == e.0);
            }
        }
    }
}

} // verus!
