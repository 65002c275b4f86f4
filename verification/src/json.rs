//! A JSON document as the feeds deliver it, holding what the parsers read.
use vstd::prelude::*;

verus! {

/// A JSON value.
///
/// An object keeps its members in order; a JSON object has distinct keys,
/// and lookup finds the first member with the key asked for.
#[derive(Debug)]
pub enum JsonValue {
    Null,
    Bool(bool),
    /// A number: its value when it is an integer within the range of `i64`,
    /// `None` for any other number.
    Number(Option<i64>),
    String(String),
    Array(Vec<JsonValue>),
    Object(Vec<(String, JsonValue)>),
}

/// Errors of the feed parsers.
#[derive(Debug)]
pub enum DataError {
    /// A member the format requires is absent (or not of the expected kind).
    MissingField(String),
    /// A timestamp member does not hold an RFC 3339 date and time.
    InvalidTimestamp(String),
}

/// The value of the first member of `es` at or after `i` whose key is `key`.
pub open spec fn member_from(es: Seq<(String, JsonValue)>, key: Seq<char>, i: int) -> Option<JsonValue>
    decreases es.len() - i,
{
    if i < 0 || i >= es.len() {
        None
    } else if es[i].0@ == key {
        Some(es[i].1)
    } else {
        member_from(es, key, i + 1)
    }
}

/// Member `key` of `v` when `v` is an object that has it (`Value::get`).
pub open spec fn json_get(v: JsonValue, key: Seq<char>) -> Option<JsonValue> {
    match v {
        JsonValue::Object(es) => member_from(es@, key, 0),
        _ => None,
    }
}

/// `json_get` lifted to an optional value (`and_then(|v| v.get(key))`).
pub open spec fn json_at(v: Option<JsonValue>, key: Seq<char>) -> Option<JsonValue> {
    match v {
        Some(x) => json_get(x, key),
        None => None,
    }
}

/// The text of an optional value when it is a string (`as_str`).
pub open spec fn json_str(v: Option<JsonValue>) -> Option<Seq<char>> {
    match v {
        Some(JsonValue::String(s)) => Some(s@),
        _ => None,
    }
}

/// The integer of an optional value when it is an integer number (`as_i64`).
pub open spec fn json_i64(v: Option<JsonValue>) -> Option<i64> {
    match v {
        Some(JsonValue::Number(n)) => n,
        _ => None,
    }
}

/// `s` when present, else `d` (`unwrap_or`).
pub open spec fn text_or(s: Option<Seq<char>>, d: Seq<char>) -> Seq<char> {
    match s {
        Some(t) => t,
        None => d,
    }
}

pub open spec fn deref_opt(r: Option<&JsonValue>) -> Option<JsonValue> {
    match r {
        Some(x) => Some(*x),
        None => None,
    }
}

pub open spec fn str_view_opt(r: Option<&str>) -> Option<Seq<char>> {
    match r {
        Some(s) => Some(s@),
        None => None,
    }
}

impl JsonValue {
    /// Member `key` of this value when it is an object that has it.
    pub fn get(&self, key: &str) -> (r: Option<&JsonValue>)
        ensures
            deref_opt(r) == json_get(*self, key@),
    {
        match self {
            JsonValue::Object(es) => {
                let k = key.to_owned();
                let n = es.len();
                assert(json_get(*self, key@) == member_from(es@, key@, 0));
                let mut i: usize = 0;
                while i < n
                    invariant
                        n == es@.len(),
                        i <= n,
                        k@ == key@,
                        json_get(*self, key@) == member_from(es@, key@, 0),
                        member_from(es@, key@, 0) == member_from(es@, key@, i as int),
                    decreases n - i,
                {
                    if es[i].0 == k {
                        return Some(&es[i].1);
                    }
                    i = i + 1;
                }
                None
            },
            _ => None,
        }
    }

    /// The text of this value when it is a string.
    pub fn as_str(&self) -> (r: Option<&str>)
        ensures
            str_view_opt(r) == json_str(Some(*self)),
    {
        match self {
            JsonValue::String(s) => Some(s.as_str()),
            _ => None,
        }
    }

    /// The integer of this value when it is an integer number.
    pub fn as_i64(&self) -> (r: Option<i64>)
        ensures
            r == json_i64(Some(*self)),
    {
        match self {
            JsonValue::Number(n) => *n,
            _ => None,
        }
    }

    /// The elements of this value when it is an array.
    pub fn as_array(&self) -> (r: Option<&Vec<JsonValue>>)
        ensures
            match *self {
                JsonValue::Array(a) => r == Some(&a),
                _ => r is None,
            },
    {
        match self {
            JsonValue::Array(a) => Some(a),
            _ => None,
        }
    }
}

/// `get` on an optional value.
pub fn get_at<'a>(v: Option<&'a JsonValue>, key: &str) -> (r: Option<&'a JsonValue>)
    ensures
        deref_opt(r) == json_at(deref_opt(v), key@),
{
    match v {
        Some(x) => x.get(key),
        None => None,
    }
}

/// `as_str` on an optional value.
pub fn str_at<'a>(v: Option<&'a JsonValue>) -> (r: Option<&'a str>)
    ensures
        str_view_opt(r) == json_str(deref_opt(v)),
{
    match v {
        Some(x) => x.as_str(),
        None => None,
    }
}

} // verus!
