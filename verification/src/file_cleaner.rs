//! Finds files that are near copies of each other: two texts are similar
//! when most of their word trigrams match.

use vstd::prelude::*;
use crate::arith::{div_i32, trunc_div};
use crate::strmap::StrMap;
use crate::foreign::to_lowercase;
use crate::text::{normalized_words, remove_char, strings_view, trigram_list, trigrams_of, words_of};

verus! {

/// The percentage of matching trigrams above which two files are similar.
pub const THRESHOLD: i32 = 70;

/// How often each trigram occurs in a text.
pub type Tracker = StrMap<i32>;

/// How often `t` occurs in `ts`.
pub open spec fn occurrences(ts: Seq<Seq<char>>, t: Seq<char>) -> nat
    decreases ts.len(),
{
    if ts.len() == 0 {
        0
    } else {
        occurrences(ts.drop_last(), t) + if ts.last() == t { 1nat } else { 0nat }
    }
}

/// Each trigram of `ts` with the number of its occurrences.
pub open spec fn count_map(ts: Seq<Seq<char>>) -> Map<Seq<char>, i32> {
    Map::new(|t: Seq<char>| occurrences(ts, t) > 0, |t: Seq<char>| occurrences(ts, t) as i32)
}

/// A count never exceeds the length.
pub proof fn lemma_occurrences_le(ts: Seq<Seq<char>>, t: Seq<char>)
    ensures
        occurrences(ts, t) <= ts.len(),
    decreases ts.len(),
{
    if ts.len() > 0 {
        lemma_occurrences_le(ts.drop_last(), t);
    }
}

/// Every count of the tracker is at least one.
pub open spec fn counts_positive(t: Tracker) -> bool {
    forall|k: Seq<char>| #[trigger] t@.contains_key(k) ==> t@[k] >= 1
}

/// The trigrams of the text `contents`, counted: the text loses its
/// apostrophes, goes to lower case and is split into words; a trigram is
/// three consecutive words joined by spaces. A text of fewer than three
/// words has none.
pub fn find_trigrams(contents: &str) -> (t: Tracker)
    requires
        normalized_words(contents@).len() - 3 <= i32::MAX,
    ensures
        t.wf(),
        t@ == count_map(trigrams_of(normalized_words(contents@))),
        normalized_words(contents@).len() < 3 ==> t@ == Map::<Seq<char>, i32>::empty(),
        counts_positive(t),
{
    let ts = trigram_list(contents);
    let ghost tv = strings_view(ts@);
    let n = ts.len();
    assert(tv.len() <= i32::MAX);
    let mut trigrams: Tracker = StrMap::new();
    let mut k: usize = 0;
    while k < n
        invariant
            n == tv.len(),
            tv == strings_view(ts@),
            n <= i32::MAX,
            k <= n,
            trigrams.wf(),
            trigrams@ == count_map(tv.take(k as int)),
        decreases n - k,
    {
        let s = &ts[k];
        let ghost pre = tv.take(k as int);
        proof {
            assert(tv.take(k + 1).drop_last() =~= pre);
            assert(tv.take(k + 1).last() == s@);
            lemma_occurrences_le(pre, s@);
        }
        match trigrams.find(s) {
            Some(i) => {
                proof {
                    trigrams.lemma_view_at(i as int);
                }
                let c = *trigrams.val_at(i);
                trigrams.set_at(i, c + 1);
            },
            None => {
                trigrams.push_new(s.clone(), 1);
            },
        }
        proof {
            assert(trigrams@ =~= count_map(tv.take(k + 1)));
        }
        k = k + 1;
    }
    assert(tv.take(n as int) =~= tv);
    proof {
        if normalized_words(contents@).len() < 3 {
            assert(tv.len() == 0);
            assert(count_map(tv) =~= Map::<Seq<char>, i32>::empty());
        }
        assert forall|k: Seq<char>| #[trigger] trigrams@.contains_key(k) implies trigrams@[k] >= 1 by {
            lemma_occurrences_le(tv, k);
        }
    }
    trigrams
}

/// The smaller of two numbers.
pub open spec fn min_i32(x: i32, y: i32) -> i32 {
    if x <= y { x } else { y }
}

/// Over `keys` of `a`, the counts that `a` shares with `b`: for each key of
/// both, the smaller of the two counts.
pub open spec fn common_score(keys: Seq<Seq<char>>, a: Map<Seq<char>, i32>, b: Map<Seq<char>, i32>) -> int
    decreases keys.len(),
{
    if keys.len() == 0 {
        0
    } else {
        common_score(keys.drop_last(), a, b) + if b.contains_key(keys.last()) {
            min_i32(a[keys.last()], b[keys.last()]) as int
        } else {
            0int
        }
    }
}

/// The shared count of two trackers, in `a`'s key order.
pub open spec fn score_of(a: Tracker, b: Tracker) -> int {
    common_score(a.keys_view(), a@, b@)
}

/// The number of distinct trigrams of the larger tracker, as an `i32`.
pub open spec fn tracker_len(a: Tracker, b: Tracker) -> i32 {
    (if a.keys_view().len() >= b.keys_view().len() { a.keys_view().len() } else { b.keys_view().len() }) as usize as i32
}

/// Two trackers are similar when the percentage of shared trigram counts,
/// out of the distinct trigrams of the larger one, exceeds `THRESHOLD`.
pub open spec fn similar_spec(a: Tracker, b: Tracker) -> bool {
    trunc_div(score_of(a, b) * 100, tracker_len(a, b) as int) > THRESHOLD
}

/// The arithmetic of `is_similar` stays within `i32` and its divisor is not
/// zero (it is zero when both trackers are empty).
pub open spec fn similar_defined(a: Tracker, b: Tracker) -> bool {
    let s = score_of(a, b) * 100;
    &&& a.wf()
    &&& b.wf()
    &&& forall|k: int| 0 <= k <= a.keys_view().len() ==> i32::MIN <= #[trigger] common_score(a.keys_view().take(k), a@, b@) <= i32::MAX
    &&& i32::MIN <= s <= i32::MAX
    &&& tracker_len(a, b) != 0
    &&& !(s == i32::MIN && tracker_len(a, b) == -1)
}

/// Whether two trackers are similar; see `similar_spec`.
pub fn is_similar(a: &Tracker, b: &Tracker) -> (r: bool)
    requires
        similar_defined(*a, *b),
    ensures
        r == similar_spec(*a, *b),
        r == similar_spec(*b, *a),
{
    proof {
        law_similarity_is_symmetric(*a, *b);
    }
    let ghost keys = a.keys_view();
    let n = a.len();
    let mut score: i32 = 0;
    let mut i: usize = 0;
    while i < n
        invariant
            similar_defined(*a, *b),
            keys == a.keys_view(),
            n == keys.len(),
            i <= n,
            score == common_score(keys.take(i as int), a@, b@),
        decreases n - i,
    {
        let k = a.key_at(i);
        let v = *a.val_at(i);
        proof {
            a.lemma_view_at(i as int);
            assert(keys.take(i + 1).drop_last() =~= keys.take(i as int));
            assert(keys.take(i + 1).last() == k@);
            assert(i32::MIN <= common_score(keys.take(i + 1), a@, b@) <= i32::MAX);
        }
        if let Some(x) = b.get(k) {
            score += if *x <= v { *x } else { v };
        }
        i = i + 1;
    }
    assert(keys.take(n as int) =~= keys);
    let len = (if a.len() >= b.len() { a.len() } else { b.len() }) as i32;
    div_i32(score * 100, len) > THRESHOLD
}

/// Which of `others` are similar to `mine`: their indices, in order. Each of
/// them is to be reported as a copy of `mine`.
pub fn handle_file(mine: &Tracker, others: &[Tracker]) -> (r: Vec<usize>)
    requires
        forall|j: int| 0 <= j < others@.len() ==> similar_defined(*mine, #[trigger] others@[j]),
    ensures
        r@ == Seq::new(others@.len(), |j: int| j).filter(|j: int| similar_spec(*mine, others@[j])).map_values(|j: int| j as usize),
{
    let n = others.len();
    let ghost all = Seq::new(others@.len(), |j: int| j);
    let ghost pred = |j: int| similar_spec(*mine, others@[j]);
    let mut r: Vec<usize> = Vec::new();
    let mut j: usize = 0;
    while j < n
        invariant
            n == others@.len(),
            all == Seq::new(others@.len(), |j: int| j),
            pred == (|j: int| similar_spec(*mine, others@[j])),
            j <= n,
            forall|k: int| 0 <= k < others@.len() ==> similar_defined(*mine, #[trigger] others@[k]),
            r@ == all.take(j as int).filter(pred).map_values(|k: int| k as usize),
        decreases n - j,
    {
        proof {
            assert(all.take(j + 1) =~= all.take(j as int).push(j as int));
            all.take(j as int).lemma_filter_push(j as int, pred);
        }
        if is_similar(mine, &others[j]) {
            r.push(j);
            assert(r@ =~= all.take(j + 1).filter(pred).map_values(|k: int| k as usize));
        } else {
            assert(r@ =~= all.take(j + 1).filter(pred).map_values(|k: int| k as usize));
        }
        j = j + 1;
    }
    assert(all.take(n as int) =~= all);
    r
}


/// Over keys that all count at least once, the shared count of a tracker
/// with itself is at least the number of keys.
proof fn lemma_self_score(keys: Seq<Seq<char>>, m: Map<Seq<char>, i32>)
    requires
        forall|k: Seq<char>| #[trigger] keys.contains(k) ==> m.contains_key(k) && m[k] >= 1,
    ensures
        common_score(keys, m, m) >= keys.len(),
    decreases keys.len(),
{
    if keys.len() > 0 {
        assert forall|k: Seq<char>| #[trigger] keys.drop_last().contains(k) implies m.contains_key(k) && m[k] >= 1 by {
            let i = choose|i: int| 0 <= i < keys.drop_last().len() && keys.drop_last()[i] == k;
            assert(keys[i] == k);
            assert(keys.contains(k));
        }
        lemma_self_score(keys.drop_last(), m);
        assert(keys.contains(keys.last())) by {
            assert(keys[keys.len() - 1] == keys.last());
        }
    }
}

/// A file is a copy of itself: the tracker of a text with trigrams is
/// similar to itself.
pub proof fn law_identical_texts_are_similar(ts: Seq<Seq<char>>, t: Tracker)
    requires
        t.wf(),
        t@ == count_map(ts),
        ts.len() > 0,
        ts.len() <= i32::MAX,
        similar_defined(t, t),
    ensures
        similar_spec(t, t),
{
    let keys = t.keys_view();
    let m = t@;
    assert forall|k: Seq<char>| #[trigger] keys.contains(k) implies m.contains_key(k) && m[k] >= 1 by {
        let i = choose|i: int| 0 <= i < keys.len() && keys[i] == k;
        t.lemma_view_at(i);
        lemma_occurrences_le(ts, k);
    }
    lemma_self_score(keys, m);
    lemma_occurrences_le(ts, ts[0]);
    assert(occurrences(ts, ts[0]) > 0) by {
        lemma_occurrences_pos(ts, 0);
    }
    assert(m.contains_key(ts[0]));
    let j = t.lemma_key_at(ts[0]);
    let n = keys.len();
    assert(n >= 1);
    let s = score_of(t, t);
    assert(s >= n);
    assert(s * 100 >= n * 100);
    assert(n <= i32::MAX);
    assert(tracker_len(t, t) == n);
    assert(s * 100 / (n as int) >= 100) by (nonlinear_arith)
        requires
            s * 100 >= n * 100,
            n >= 1,
    ;
}

/// An element at position `i` occurs.
proof fn lemma_occurrences_pos(ts: Seq<Seq<char>>, i: int)
    requires
        0 <= i < ts.len(),
    ensures
        occurrences(ts, ts[i]) > 0,
    decreases ts.len(),
{
    if i < ts.len() - 1 {
        lemma_occurrences_pos(ts.drop_last(), i);
    }
}


/// The count that two trackers share on one trigram.
pub open spec fn shared_term(a: Map<Seq<char>, i32>, b: Map<Seq<char>, i32>, k: Seq<char>) -> int {
    if a.contains_key(k) && b.contains_key(k) {
        min_i32(a[k], b[k]) as int
    } else {
        0
    }
}

/// The shared counts over a list of trigrams.
pub open spec fn sum_terms(keys: Seq<Seq<char>>, a: Map<Seq<char>, i32>, b: Map<Seq<char>, i32>) -> int
    decreases keys.len(),
{
    if keys.len() == 0 {
        0
    } else {
        sum_terms(keys.drop_last(), a, b) + shared_term(a, b, keys.last())
    }
}

/// Over keys of `a`, `common_score` adds the shared terms.
proof fn lemma_common_is_sum(keys: Seq<Seq<char>>, a: Map<Seq<char>, i32>, b: Map<Seq<char>, i32>)
    requires
        forall|k: Seq<char>| #[trigger] keys.contains(k) ==> a.contains_key(k),
    ensures
        common_score(keys, a, b) == sum_terms(keys, a, b),
    decreases keys.len(),
{
    if keys.len() > 0 {
        assert forall|k: Seq<char>| #[trigger] keys.drop_last().contains(k) implies a.contains_key(k) by {
            let i = choose|i: int| 0 <= i < keys.drop_last().len() && keys.drop_last()[i] == k;
            assert(keys[i] == k);
            assert(keys.contains(k));
        }
        lemma_common_is_sum(keys.drop_last(), a, b);
        assert(keys.contains(keys.last())) by {
            assert(keys[keys.len() - 1] == keys.last());
        }
    }
}

/// Taking one trigram out of the list takes out its term.
proof fn lemma_sum_remove(s: Seq<Seq<char>>, j: int, a: Map<Seq<char>, i32>, b: Map<Seq<char>, i32>)
    requires
        0 <= j < s.len(),
    ensures
        sum_terms(s, a, b) == sum_terms(s.remove(j), a, b) + shared_term(a, b, s[j]),
    decreases s.len(),
{
    if j == s.len() - 1 {
        assert(s.remove(j) =~= s.drop_last());
    } else {
        lemma_sum_remove(s.drop_last(), j, a, b);
        assert(s.drop_last().remove(j) =~= s.remove(j).drop_last());
        assert(s.remove(j).last() == s.last());
    }
}

/// The sum of the shared terms does not depend on the order of the
/// trigrams, nor on trigrams whose term is zero.
proof fn lemma_sum_perm(s1: Seq<Seq<char>>, s2: Seq<Seq<char>>, a: Map<Seq<char>, i32>, b: Map<Seq<char>, i32>)
    requires
        s1.no_duplicates(),
        s2.no_duplicates(),
        forall|k: Seq<char>| shared_term(a, b, k) != 0 ==> (s1.contains(k) <==> s2.contains(k)),
    ensures
        sum_terms(s1, a, b) == sum_terms(s2, a, b),
    decreases s1.len() + s2.len(),
{
    if s1.len() == 0 {
        if s2.len() > 0 {
            let x = s2.last();
            assert(s2.contains(x)) by {
                assert(s2[s2.len() - 1] == x);
            }
            assert(shared_term(a, b, x) == 0);
            assert forall|k: Seq<char>| shared_term(a, b, k) != 0 implies (s1.contains(k) <==> s2.drop_last().contains(k)) by {
                if s2.drop_last().contains(k) {
                    let i = choose|i: int| 0 <= i < s2.drop_last().len() && s2.drop_last()[i] == k;
                    assert(s2[i] == k);
                    assert(s2.contains(k));
                }
            }
            lemma_sum_perm(s1, s2.drop_last(), a, b);
        }
    } else {
        let x = s1.last();
        let s1p = s1.drop_last();
        assert(s1.contains(x)) by {
            assert(s1[s1.len() - 1] == x);
        }
        assert(!s1p.contains(x)) by {
            if s1p.contains(x) {
                let i = choose|i: int| 0 <= i < s1p.len() && s1p[i] == x;
                assert(s1[i] == s1[s1.len() - 1]);
            }
        }
        if s2.contains(x) {
            let j = choose|j: int| 0 <= j < s2.len() && s2[j] == x;
            let s2p = s2.remove(j);
            assert(!s2p.contains(x)) by {
                if s2p.contains(x) {
                    let i = choose|i: int| 0 <= i < s2p.len() && s2p[i] == x;
                    if i < j {
                        assert(s2[i] == s2[j]);
                    } else {
                        assert(s2[i + 1] == s2[j]);
                    }
                }
            }
            assert forall|k: Seq<char>| shared_term(a, b, k) != 0 implies (s1p.contains(k) <==> s2p.contains(k)) by {
                if k != x {
                    if s1p.contains(k) {
                        let i = choose|i: int| 0 <= i < s1p.len() && s1p[i] == k;
                        assert(s1[i] == k);
                        assert(s1.contains(k));
                        let i2 = choose|i2: int| 0 <= i2 < s2.len() && s2[i2] == k;
                        assert(i2 != j);
                        if i2 < j {
                            assert(s2p[i2] == k);
                        } else {
                            assert(s2p[i2 - 1] == k);
                        }
                    }
                    if s2p.contains(k) {
                        let i = choose|i: int| 0 <= i < s2p.len() && s2p[i] == k;
                        if i < j {
                            assert(s2[i] == k);
                        } else {
                            assert(s2[i + 1] == k);
                        }
                        assert(s2.contains(k));
                        let i1 = choose|i1: int| 0 <= i1 < s1.len() && s1[i1] == k;
                        assert(i1 != s1.len() - 1);
                        assert(s1p[i1] == k);
                    }
                }
            }
            assert(s2p.no_duplicates()) by {
                assert forall|p: int, q: int| 0 <= p < q < s2p.len() implies s2p[p] != s2p[q] by {
                    let p0 = if p < j { p } else { p + 1 };
                    let q0 = if q < j { q } else { q + 1 };
                    assert(s2p[p] == s2[p0] && s2p[q] == s2[q0]);
                }
            }
            lemma_sum_perm(s1p, s2p, a, b);
            lemma_sum_remove(s2, j, a, b);
        } else {
            assert(shared_term(a, b, x) == 0);
            assert forall|k: Seq<char>| shared_term(a, b, k) != 0 implies (s1p.contains(k) <==> s2.contains(k)) by {
                if s1p.contains(k) {
                    let i = choose|i: int| 0 <= i < s1p.len() && s1p[i] == k;
                    assert(s1[i] == k);
                    assert(s1.contains(k));
                }
                if s2.contains(k) {
                    assert(s1.contains(k));
                    let i1 = choose|i1: int| 0 <= i1 < s1.len() && s1[i1] == k;
                    assert(i1 != s1.len() - 1);
                    assert(s1p[i1] == k);
                }
            }
            lemma_sum_perm(s1p, s2, a, b);
        }
    }
}

/// Similarity does not depend on which file comes first.
pub proof fn law_similarity_is_symmetric(a: Tracker, b: Tracker)
    requires
        a.wf(),
        b.wf(),
    ensures
        score_of(a, b) == score_of(b, a),
        tracker_len(a, b) == tracker_len(b, a),
        similar_spec(a, b) == similar_spec(b, a),
{
    let ka = a.keys_view();
    let kb = b.keys_view();
    assert forall|k: Seq<char>| #[trigger] ka.contains(k) implies a@.contains_key(k) by {}
    assert forall|k: Seq<char>| #[trigger] kb.contains(k) implies b@.contains_key(k) by {}
    lemma_common_is_sum(ka, a@, b@);
    lemma_common_is_sum(kb, b@, a@);
    assert forall|k: Seq<char>| shared_term(a@, b@, k) != 0 implies (ka.contains(k) <==> kb.contains(k)) by {}
    lemma_sum_perm(ka, kb, a@, b@);
    lemma_sum_swap(kb, a@, b@);
}

/// Whether two trackers may be compared does not depend on their order,
/// for trackers whose counts are positive, as `find_trigrams` makes them.
pub proof fn law_comparable_is_symmetric(a: Tracker, b: Tracker)
    requires
        counts_positive(a),
        counts_positive(b),
        similar_defined(a, b),
    ensures
        similar_defined(b, a),
{
    law_similarity_is_symmetric(a, b);
    let kb = b.keys_view();
    assert forall|i: int| 0 <= i < kb.len() implies #[trigger] b@.contains_key(kb[i]) by {
        b.lemma_view_at(i);
    }
    assert forall|k: int| 0 <= k <= kb.len() implies i32::MIN <= #[trigger] common_score(kb.take(k), b@, a@) <= i32::MAX by {
        lemma_common_prefix_bounds(kb, b@, a@, k);
    }
}

/// Over keys whose counts are positive in both maps, the shared count of a
/// prefix lies between zero and the shared count of all the keys.
proof fn lemma_common_prefix_bounds(keys: Seq<Seq<char>>, a: Map<Seq<char>, i32>, b: Map<Seq<char>, i32>, k: int)
    requires
        0 <= k <= keys.len(),
        forall|i: int| 0 <= i < keys.len() ==> #[trigger] a.contains_key(keys[i]),
        forall|x: Seq<char>| #[trigger] a.contains_key(x) ==> a[x] >= 1,
        forall|x: Seq<char>| #[trigger] b.contains_key(x) ==> b[x] >= 1,
    ensures
        0 <= common_score(keys.take(k), a, b) <= common_score(keys, a, b),
    decreases keys.len(),
{
    if keys.len() > 0 {
        let d = keys.drop_last();
        assert forall|i: int| 0 <= i < d.len() implies #[trigger] a.contains_key(d[i]) by {
            assert(d[i] == keys[i]);
        }
        assert(a.contains_key(keys[keys.len() - 1]));
        if k == keys.len() {
            assert(keys.take(k) =~= keys);
            lemma_common_prefix_bounds(d, a, b, d.len() as int);
            assert(d.take(d.len() as int) =~= d);
        } else {
            assert(keys.take(k) =~= d.take(k));
            lemma_common_prefix_bounds(d, a, b, k);
        }
    }
}

/// `is_similar` may be called either way round and answers the same: for
/// trackers with positive counts, as `find_trigrams` makes them, whenever
/// `is_similar(a, b)` may be called so may `is_similar(b, a)`, and both
/// give the same answer.
pub proof fn law_is_similar_is_symmetric(a: Tracker, b: Tracker)
    requires
        counts_positive(a),
        counts_positive(b),
        similar_defined(a, b),
    ensures
        similar_defined(b, a),
        similar_spec(a, b) == similar_spec(b, a),
{
    law_comparable_is_symmetric(a, b);
    law_similarity_is_symmetric(a, b);
}

/// Over `keys`, the counts in `m` of the keys that `present` holds.
pub open spec fn counts_over(keys: Seq<Seq<char>>, m: Map<Seq<char>, i32>, present: Map<Seq<char>, i32>) -> int
    decreases keys.len(),
{
    if keys.len() == 0 {
        0
    } else {
        counts_over(keys.drop_last(), m, present) + if present.contains_key(keys.last()) {
            m[keys.last()] as int
        } else {
            0int
        }
    }
}

/// Each shared trigram adds no more than its count in either tracker, and
/// a trigram adds all of its count when both trackers hold it that often.
proof fn lemma_common_within_counts(keys: Seq<Seq<char>>, a: Map<Seq<char>, i32>, b: Map<Seq<char>, i32>)
    ensures
        common_score(keys, a, b) <= counts_over(keys, a, b),
        common_score(keys, a, b) <= counts_over(keys, b, b),
        common_score(keys, a, a) == counts_over(keys, a, a),
    decreases keys.len(),
{
    if keys.len() > 0 {
        lemma_common_within_counts(keys.drop_last(), a, b);
    }
}

/// The shared score never counts a trigram more often than either file
/// holds it: it is at most the first tracker's counts of the trigrams that
/// both hold, and at most the second tracker's counts of them; and a
/// tracker shares with itself exactly its own counts.
pub proof fn law_shared_score_within_each_count(a: Tracker, b: Tracker)
    ensures
        score_of(a, b) <= counts_over(a.keys_view(), a@, b@),
        score_of(a, b) <= counts_over(a.keys_view(), b@, b@),
        score_of(a, a) == counts_over(a.keys_view(), a@, a@),
{
    lemma_common_within_counts(a.keys_view(), a@, b@);
}

/// Swapping the trackers leaves each term as it is.
proof fn lemma_sum_swap(keys: Seq<Seq<char>>, a: Map<Seq<char>, i32>, b: Map<Seq<char>, i32>)
    ensures
        sum_terms(keys, a, b) == sum_terms(keys, b, a),
    decreases keys.len(),
{
    if keys.len() > 0 {
        lemma_sum_swap(keys.drop_last(), a, b);
    }
}


/// Whether `find_trigrams` may be called on `contents`: the normalized text
/// has no more trigrams than an `i32` counts.
pub fn can_find_trigrams(contents: &str) -> (b: bool)
    ensures
        b == (normalized_words(contents@).len() - 3 <= i32::MAX),
{
    let cleaned = remove_char(contents, '\'');
    let lower = to_lowercase(cleaned.as_str());
    let words = words_of(lower.as_str());
    let n = words.len();
    n < 3 || n - 3 <= i32::MAX as usize
}

/// Whether `is_similar` may be called on `a` and `b`; see
/// `similar_defined`.
pub fn can_compare(a: &Tracker, b: &Tracker) -> (r: bool)
    requires
        a.wf(),
        b.wf(),
    ensures
        r == similar_defined(*a, *b),
{
    let ghost keys = a.keys_view();
    let n = a.len();
    let mut score: i64 = 0;
    let mut i: usize = 0;
    while i < n
        invariant
            a.wf(),
            b.wf(),
            keys == a.keys_view(),
            n == keys.len(),
            i <= n,
            score == common_score(keys.take(i as int), a@, b@),
            i32::MIN <= score <= i32::MAX,
            forall|k: int| 0 <= k <= i ==> i32::MIN <= #[trigger] common_score(keys.take(k), a@, b@) <= i32::MAX,
        decreases n - i,
    {
        let k = a.key_at(i);
        let v = *a.val_at(i);
        proof {
            a.lemma_view_at(i as int);
            assert(keys.take(i + 1).drop_last() =~= keys.take(i as int));
            assert(keys.take(i + 1).last() == k@);
        }
        if let Some(x) = b.get(k) {
            score = score + (if *x <= v { *x } else { v }) as i64;
        }
        assert(score == common_score(keys.take(i + 1), a@, b@));
        if score < i32::MIN as i64 || score > i32::MAX as i64 {
            assert(!(i32::MIN <= common_score(keys.take(i + 1), a@, b@) <= i32::MAX));
            return false;
        }
        i = i + 1;
    }
    assert(keys.take(n as int) =~= keys);
    let s = score * 100;
    let len = (if a.len() >= b.len() { a.len() } else { b.len() }) as i32;
    s >= i32::MIN as i64 && s <= i32::MAX as i64 && len != 0 && !(s == i32::MIN as i64 && len == -1)
}

} // verus!
