//! A JSON value as this library reads it: the schema document.
use vstd::prelude::*;

verus! {

/// A JSON value. Numbers keep their text; object members keep their order.
pub enum JsonValue {
    Null,
    Bool(bool),
    Number(String),
    Str(String),
    Array(Vec<JsonValue>),
    Object(Vec<(String, JsonValue)>),
}

/// Every object, at any depth, has each key once, as a JSON parser's map keeps it.
pub open spec fn json_wf(v: JsonValue) -> bool
    decreases v,
{
    match v {
        JsonValue::Array(items) => forall|i: int| 0 <= i < items.len() ==> json_wf(#[trigger] items@[i]),
        JsonValue::Object(ms) => {
            &&& forall|i: int, j: int| 0 <= i < j < ms.len() ==> #[trigger] ms@[i].0@ != #[trigger] ms@[j].0@
            &&& forall|i: int| 0 <= i < ms.len() ==> json_wf(#[trigger] ms@[i].1)
        },
        _ => true,
    }
}

/// Index of the first member at or after `start` whose key is `key`.
pub open spec fn find_member(ms: Seq<(String, JsonValue)>, key: Seq<char>, start: int) -> Option<int>
    decreases ms.len() - start,
{
    if start < 0 || start >= ms.len() {
        None
    } else if ms[start].0@ == key {
        Some(start)
    } else {
        find_member(ms, key, start + 1)
    }
}

/// The value of the first member named `key`.
pub open spec fn member(ms: Seq<(String, JsonValue)>, key: Seq<char>) -> Option<JsonValue> {
    match find_member(ms, key, 0) {
        Some(j) => Some(ms[j].1),
        None => None,
    }
}

/// Index of the first member named `key`, as `find_member` states it.
pub fn member_index(ms: &Vec<(String, JsonValue)>, key: &str) -> (r: Option<usize>)
    ensures
        r matches Some(j) ==> find_member(ms@, key@, 0) == Some(j as int) && j < ms.len(),
        r is None ==> find_member(ms@, key@, 0) is None,
{
    let k = key.to_owned();
    let mut i: usize = 0;
    while i < ms.len()
        invariant
            i <= ms.len(),
            k@ == key@,
            find_member(ms@, key@, 0) == find_member(ms@, key@, i as int),
        decreases ms.len() - i,
    {
        if ms[i].0 == k {
            return Some(i);
        }
        i = i + 1;
    }
    None
}

} // verus!
