//! Calls into std and into outside crates whose results the library's
//! contracts speak of. Each item here is believed, not proved: its doc comment
//! says what it claims of the function it calls.

use base64::Engine;
use priority_queue::PriorityQueue;
use std::hash::Hash;
use rand::seq::SliceRandom;
use vstd::prelude::*;

verus! {

/// `String::push` appends one character.
pub assume_specification[ String::push ](s: &mut String, ch: char)
    ensures
        final(s)@ == old(s)@.push(ch),
;

/// Calls `rand::seq::SliceRandom::choose` with the thread's random number
/// generator. Claimed, as its documentation says: `None` for an empty list,
/// else one of its elements; which one is left to chance.
#[verifier::external_body]
pub fn choose_u64(v: &Vec<u64>) -> (r: Option<u64>)
    ensures
        v@.len() == 0 <==> r is None,
        r matches Some(x) ==> v@.contains(x),
{
    v.choose(&mut rand::thread_rng()).copied()
}

/// What the standard base64 alphabet (with padding) decodes `s` to, or
/// `None` when `s` is not valid base64.
pub uninterp spec fn base64_decoded(s: Seq<char>) -> Option<Seq<u8>>;

/// Calls `base64::prelude::BASE64_STANDARD.decode`. Claimed: the result is
/// the named decoding of the input; the decoding rules are not stated.
#[verifier::external_body]
pub fn base64_decode(s: &str) -> (r: Option<Vec<u8>>)
    ensures
        match r {
            Some(v) => base64_decoded(s@) == Some(v@),
            None => base64_decoded(s@) is None,
        },
{
    base64::prelude::BASE64_STANDARD.decode(s).ok()
}

/// The sqid that `sqids::Sqids::default()` makes of a list of numbers, or
/// `None` when it cannot make one.
pub uninterp spec fn sqid_of(numbers: Seq<u64>) -> Option<Seq<char>>;

/// Calls `sqids::Sqids::default().encode`. Claimed: the result is the named
/// encoding of the numbers, and, as the crate's documentation shows, decoding
/// a sqid it made gives the numbers back; the encoding itself is not stated.
#[verifier::external_body]
pub fn sqids_encode(numbers: &[u64]) -> (r: Option<String>)
    ensures
        match r {
            Some(s) => sqid_of(numbers@) == Some(s@),
            None => sqid_of(numbers@) is None,
        },
        r matches Some(s) ==> sqid_numbers(s@) == numbers@,
{
    sqids::Sqids::default().encode(numbers).ok()
}

/// The numbers that `sqids::Sqids::default()` reads from a sqid (none when
/// the sqid is invalid).
pub uninterp spec fn sqid_numbers(id: Seq<char>) -> Seq<u64>;

/// Calls `sqids::Sqids::default().decode`. Claimed: the result is the named
/// decoding of the sqid; the decoding itself is not stated.
#[verifier::external_body]
pub fn sqids_decode(id: &str) -> (r: Vec<u64>)
    ensures
        r@ == sqid_numbers(id@),
{
    sqids::Sqids::default().decode(id)
}

/// `priority_queue::PriorityQueue`, a queue of distinct items, each with a
/// priority; the item with the greatest priority leaves first.
#[verifier::external_type_specification]
#[verifier::external_body]
#[verifier::reject_recursive_types(I)]
#[verifier::reject_recursive_types(P)]
#[verifier::reject_recursive_types(H)]
pub struct ExPriorityQueue<I, P, H>(PriorityQueue<I, P, H>) where I: Hash + Eq, P: Ord;

/// The walk targets in a queue, each with its priority.
pub uninterp spec fn walk_queue(q: PriorityQueue<(i32, i32), i32>) -> Map<(i32, i32), i32>;

/// Calls `PriorityQueue::new`. Claimed: the queue is empty.
#[verifier::external_body]
pub fn walk_queue_new() -> (q: PriorityQueue<(i32, i32), i32>)
    ensures
        walk_queue(q).is_empty(),
{
    PriorityQueue::new()
}

/// Calls `PriorityQueue::push`. Claimed, as its documentation says: the item
/// is in the queue with the given priority afterwards, replacing an equal
/// item's priority, which is returned.
#[verifier::external_body]
pub fn walk_queue_push(q: &mut PriorityQueue<(i32, i32), i32>, item: (i32, i32), priority: i32) -> (r: Option<i32>)
    ensures
        walk_queue(*final(q)) == walk_queue(*old(q)).insert(item, priority),
        r == (if walk_queue(*old(q)).contains_key(item) { Some(walk_queue(*old(q))[item]) } else { None::<i32> }),
{
    q.push(item, priority)
}

/// Calls `PriorityQueue::pop`. Claimed, as its documentation says: on an
/// empty queue `None`, and the queue stays empty; otherwise an item with the
/// greatest priority leaves the queue and is returned with its priority.
/// Which of several items with that priority leaves is not stated.
#[verifier::external_body]
pub fn walk_queue_pop(q: &mut PriorityQueue<(i32, i32), i32>) -> (r: Option<((i32, i32), i32)>)
    ensures
        walk_queue(*old(q)).is_empty() <==> r is None,
        r is None ==> walk_queue(*final(q)) == walk_queue(*old(q)),
        r matches Some((item, p)) ==> {
            &&& walk_queue(*old(q)).contains_key(item)
            &&& walk_queue(*old(q))[item] == p
            &&& forall|k: (i32, i32)| #[trigger] walk_queue(*old(q)).contains_key(k) ==> walk_queue(*old(q))[k] <= p
            &&& walk_queue(*final(q)) == walk_queue(*old(q)).remove(item)
        },
{
    q.pop()
}

/// The messages in a queue, each with its priority.
pub uninterp spec fn message_queue(q: PriorityQueue<String, i32>) -> Map<Seq<char>, i32>;

/// Calls `PriorityQueue::new`. Claimed: the queue is empty.
#[verifier::external_body]
pub fn message_queue_new() -> (q: PriorityQueue<String, i32>)
    ensures
        message_queue(q).is_empty(),
{
    PriorityQueue::new()
}

/// Calls `PriorityQueue::push`. Claimed, as its documentation says: the
/// message is in the queue with the given priority afterwards, replacing an
/// equal message's priority, which is returned.
#[verifier::external_body]
pub fn message_queue_push(q: &mut PriorityQueue<String, i32>, item: String, priority: i32) -> (r: Option<i32>)
    ensures
        message_queue(*final(q)) == message_queue(*old(q)).insert(item@, priority),
        r == (if message_queue(*old(q)).contains_key(item@) { Some(message_queue(*old(q))[item@]) } else { None::<i32> }),
{
    q.push(item, priority)
}

/// The lower-case mapping of a string, as Unicode defines it.
pub uninterp spec fn lowercase(s: Seq<char>) -> Seq<char>;

/// Calls `str::to_lowercase`. Claimed: the result is `lowercase` of the input;
/// the Unicode tables behind it are not stated.
#[verifier::external_body]
pub fn to_lowercase(s: &str) -> (r: String)
    ensures
        r@ == lowercase(s@),
{
    s.to_lowercase()
}

/// The least of three numbers.
pub open spec fn min3(a: nat, b: nat, c: nat) -> nat {
    if a <= b && a <= c {
        a
    } else if b <= c {
        b
    } else {
        c
    }
}

/// The least number of one-character insertions, deletions and substitutions
/// that turn `a` into `b`.
pub open spec fn edit_distance(a: Seq<char>, b: Seq<char>) -> nat
    decreases a.len() + b.len(),
{
    if a.len() == 0 {
        b.len()
    } else if b.len() == 0 {
        a.len()
    } else {
        let sub: nat = if a[0] == b[0] { 0 } else { 1 };
        min3(
            edit_distance(a.drop_first(), b) + 1,
            edit_distance(a, b.drop_first()) + 1,
            edit_distance(a.drop_first(), b.drop_first()) + sub,
        )
    }
}

/// Calls `strsim::levenshtein`. Claimed, as its documentation says: the result
/// is the edit distance between the two strings, counted in characters.
#[verifier::external_body]
pub fn levenshtein(a: &str, b: &str) -> (r: usize)
    ensures
        r == edit_distance(a@, b@),
{
    strsim::levenshtein(a, b)
}

} // verus!
