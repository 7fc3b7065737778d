//! JSON documents as the storage reads and writes them. Numbers are kept as
//! what the storage can make of them: an integer, an integer out of the
//! `i64` range, or something else.
use vstd::prelude::*;

use crate::text::str_eq;

verus! {

/// A JSON number, classified as the storage reads it.
pub enum JsonNumber {
    /// A finite number without fraction, within the `i64` range.
    Integer(i64),
    /// A finite number without fraction, outside the `i64` range.
    OutOfRange,
    /// A number with a fraction, or not finite.
    NotInteger,
}

/// A JSON value. An object keeps its members as they were read or built;
/// looking a key up gives its last member, as a map filled in that order
/// would.
pub enum JsonValue {
    Null,
    Bool(bool),
    Number(JsonNumber),
    String(String),
    Array(Vec<JsonValue>),
    Object(Vec<(String, JsonValue)>),
}

/// Why a JSON document could not be read or written.
pub enum JsonIoError {
    /// The file could not be read or written; the system's message.
    Io(String),
    /// The text is not JSON.
    Parse { message: String, position: usize },
    /// The document is not of the expected kind.
    InvalidRootType(String),
}

/// Whether `i` is the last position of `k` in `keys`.
pub open spec fn is_last_match(keys: Seq<Seq<char>>, k: Seq<char>, i: int) -> bool {
    &&& 0 <= i < keys.len()
    &&& keys[i] == k
    &&& forall|j: int| i < j < keys.len() ==> keys[j] != k
}

/// The last position of `k` in `keys`, if it occurs.
pub open spec fn last_match(keys: Seq<Seq<char>>, k: Seq<char>) -> Option<int> {
    if exists|i: int| is_last_match(keys, k, i) {
        Some(choose|i: int| is_last_match(keys, k, i))
    } else {
        None
    }
}

/// There is one last position, and none exactly when `k` does not occur.
pub proof fn lemma_last_match(keys: Seq<Seq<char>>, k: Seq<char>)
    ensures
        last_match(keys, k) matches Some(i) ==> is_last_match(keys, k, i),
        last_match(keys, k) is None <==> forall|j: int| 0 <= j < keys.len() ==> keys[j] != k,
        forall|i: int| #[trigger] is_last_match(keys, k, i) ==> last_match(keys, k) == Some(i),
{
    assert forall|i: int| #[trigger] is_last_match(keys, k, i) implies last_match(keys, k) == Some(i) by {
        let c = choose|c: int| is_last_match(keys, k, c);
        if c < i {
            assert(keys[i] != k);
        } else if i < c {
            assert(keys[c] != k);
        }
    }
    if exists|j: int| 0 <= j < keys.len() && keys[j] == k {
        let j = choose|j: int| 0 <= j < keys.len() && keys[j] == k;
        lemma_greatest_match(keys, k, j);
    }
}

/// Some position at or after `j` is the last position of `k`.
proof fn lemma_greatest_match(keys: Seq<Seq<char>>, k: Seq<char>, j: int)
    requires
        0 <= j < keys.len(),
        keys[j] == k,
    ensures
        exists|i: int| is_last_match(keys, k, i),
    decreases keys.len() - j,
{
    if forall|m: int| j < m < keys.len() ==> keys[m] != k {
        assert(is_last_match(keys, k, j));
    } else {
        let m = choose|m: int| j < m < keys.len() && keys[m] == k;
        lemma_greatest_match(keys, k, m);
    }
}

/// The member `key` of an object; where several members share the key, the
/// last one, as inserting the members in turn into a map keeps it.
pub open spec fn member(entries: Seq<(String, JsonValue)>, key: Seq<char>) -> Option<JsonValue> {
    match last_match(entries.map_values(|e: (String, JsonValue)| e.0@), key) {
        Some(i) => Some(entries[i].1),
        None => None,
    }
}

/// Looks up the member `key` of an object.
pub fn get_member<'a>(entries: &'a Vec<(String, JsonValue)>, key: &str) -> (r: Option<&'a JsonValue>)
    ensures
        match r {
            Some(v) => member(entries@, key@) == Some(*v),
            None => member(entries@, key@) is None,
        },
{
    let ghost keys = entries@.map_values(|e: (String, JsonValue)| e.0@);
    proof {
        lemma_last_match(keys, key@);
    }
    let mut i: usize = entries.len();
    while i > 0
        invariant
            i <= entries@.len(),
            keys == entries@.map_values(|e: (String, JsonValue)| e.0@),
            forall|j: int| i <= j < entries@.len() ==> keys[j] != key@,
        decreases i,
    {
        i = i - 1;
        if str_eq(entries[i].0.as_str(), key) {
            assert(is_last_match(keys, key@, i as int));
            proof {
                lemma_last_match(keys, key@);
            }
            return Some(&entries[i].1);
        }
    }
    None
}

} // verus!
