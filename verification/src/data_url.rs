//! Drawings arrive as `data:` URLs; this module takes out their bytes.

use vstd::prelude::*;
use crate::foreign::{base64_decode, base64_decoded};

verus! {

/// Why a `data:` URL could not be decoded.
#[derive(Debug, Clone, Copy, PartialEq, Eq, Structural)]
pub enum DataUrlError {
    /// There is no comma before the payload.
    InvalidDataUrl,
    /// The payload is not valid base64.
    InvalidBase64,
}

impl DataUrlError {
    /// The error's message.
    pub fn message(&self) -> (r: &'static str)
        ensures
            *self == DataUrlError::InvalidDataUrl ==> r@ == "Invalid data URL"@,
            *self == DataUrlError::InvalidBase64 ==> r@ == "Failed to decode base64 data"@,
    {
        match self {
            DataUrlError::InvalidDataUrl => "Invalid data URL",
            DataUrlError::InvalidBase64 => "Failed to decode base64 data",
        }
    }
}

/// The position of the first `c` in `s`, if any.
pub open spec fn first_index_of(s: Seq<char>, c: char) -> Option<int> {
    if s.contains(c) {
        Some(choose|i: int| 0 <= i < s.len() && s[i] == c && forall|j: int| 0 <= j < i ==> s[j] != c)
    } else {
        None
    }
}

/// The position of the first `c` in `s`, if any.
pub fn find_char(s: &str, c: char) -> (r: Option<usize>)
    ensures
        r is None <==> !s@.contains(c),
        r matches Some(i) ==> i < s@.len() && s@[i as int] == c && forall|j: int| 0 <= j < i ==> s@[j] != c,
        r matches Some(i) ==> first_index_of(s@, c) == Some(i as int),
{
    let n = s.unicode_len();
    let mut i: usize = 0;
    while i < n
        invariant
            n == s@.len(),
            i <= n,
            forall|j: int| 0 <= j < i ==> s@[j] != c,
        decreases n - i,
    {
        if s.get_char(i) == c {
            proof {
                assert(s@.contains(c));
                let k = choose|k: int| 0 <= k < s@.len() && s@[k] == c && forall|j: int| 0 <= j < k ==> s@[j] != c;
                assert(k == i) by {
                    if k < i {
                    } else if k > i {
                        assert(s@[i as int] == c);
                    }
                }
            }
            return Some(i);
        }
        i = i + 1;
    }
    None
}

/// The payload of a `data:` URL: whatever follows its first comma.
pub open spec fn payload_of(data_url: Seq<char>) -> Option<Seq<char>> {
    match first_index_of(data_url, ',') {
        Some(i) => Some(data_url.subrange(i + 1, data_url.len() as int)),
        None => None,
    }
}

/// The bytes of a `data:` URL: its payload, after the first comma, decoded
/// from base64.
pub fn decode_data_url(data_url: &str) -> (r: Result<Vec<u8>, DataUrlError>)
    ensures
        match payload_of(data_url@) {
            None => r == Err::<Vec<u8>, DataUrlError>(DataUrlError::InvalidDataUrl),
            Some(p) => match base64_decoded(p) {
                None => r == Err::<Vec<u8>, DataUrlError>(DataUrlError::InvalidBase64),
                Some(bytes) => r is Ok && r->Ok_0@ == bytes,
            },
        },
{
    let n = data_url.unicode_len();
    let comma_pos = match find_char(data_url, ',') {
        Some(i) => i,
        None => {
            return Err(DataUrlError::InvalidDataUrl);
        },
    };
    let payload = data_url.substring_char(comma_pos + 1, n);
    match base64_decode(payload) {
        Some(v) => Ok(v),
        None => Err(DataUrlError::InvalidBase64),
    }
}

} // verus!
