//! A parsed JSON document as plain values: the shape the alert parser reads
//! field by field. Numbers are carried as the IEEE-754 bit patterns of their
//! `f64` values, and object members keep their document order.

use vstd::prelude::*;
use crate::text::str_eq;

verus! {

/// One JSON value.
#[derive(Debug, PartialEq)]
pub enum JsonValue {
    Null,
    Bool(bool),
    /// A number, as the bit pattern of its `f64` value (`f64::to_bits`).
    Number(u64),
    String(String),
    Array(Vec<JsonValue>),
    /// Members in document order; a lookup takes the first member of a name.
    Object(Vec<JsonMember>),
}

/// One member of a JSON object.
#[derive(Debug, PartialEq)]
pub struct JsonMember {
    pub name: String,
    pub value: JsonValue,
}

/// The value of the first member named `key`.
pub open spec fn member(entries: Seq<JsonMember>, key: Seq<char>) -> Option<JsonValue>
    decreases entries.len(),
{
    if entries.len() == 0 {
        None
    } else if entries[0].name@ == key {
        Some(entries[0].value)
    } else {
        member(entries.drop_first(), key)
    }
}

/// `v[key]` for an object `v`; nothing for any other value.
pub open spec fn json_get(v: JsonValue, key: Seq<char>) -> Option<JsonValue> {
    match v {
        JsonValue::Object(entries) => member(entries@, key),
        _ => None,
    }
}

/// The text of a string value.
pub open spec fn json_str(v: JsonValue) -> Option<Seq<char>> {
    match v {
        JsonValue::String(s) => Some(s@),
        _ => None,
    }
}

/// The text of member `key` of `v`, when it is a string.
pub open spec fn json_get_str(v: JsonValue, key: Seq<char>) -> Option<Seq<char>> {
    match json_get(v, key) {
        Some(x) => json_str(x),
        None => None,
    }
}

impl JsonValue {
    /// The value of member `key` when `self` is an object holding one.
    pub fn get(&self, key: &str) -> (r: Option<&JsonValue>)
        ensures
            match json_get(*self, key@) {
                Some(x) => r matches Some(y) && *y == x,
                None => r is None,
            },
    {
        match self {
            JsonValue::Object(entries) => {
                let n = entries.len();
                let mut i: usize = 0;
                assert(entries@.skip(0) =~= entries@);
                while i < n
                    invariant
                        n == entries@.len(),
                        i <= n,
                        member(entries@, key@) == member(entries@.skip(i as int), key@),
                        json_get(*self, key@) == member(entries@, key@),
                    decreases n - i,
                {
                    proof {
                        assert(entries@.skip(i as int).drop_first() =~= entries@.skip(i as int + 1));
                        assert(entries@.skip(i as int)[0] == entries@[i as int]);
                    }
                    if str_eq(entries[i].name.as_str(), key) {
                        assert(entries@.skip(i as int)[0].name@ == key@);
                        assert(member(entries@.skip(i as int), key@) == Some(entries@[i as int].value));
                        return Some(&entries[i].value);
                    }
                    i = i + 1;
                }
                assert(entries@.skip(n as int) =~= Seq::<JsonMember>::empty());
                None
            },
            _ => None,
        }
    }

    /// The string when `self` is a string value.
    pub fn as_str(&self) -> (r: Option<&str>)
        ensures
            match json_str(*self) {
                Some(s) => r matches Some(t) && t@ == s,
                None => r is None,
            },
    {
        match self {
            JsonValue::String(s) => Some(s.as_str()),
            _ => None,
        }
    }

    /// The elements when `self` is an array.
    pub fn as_array(&self) -> (r: Option<&Vec<JsonValue>>)
        ensures
            match *self {
                JsonValue::Array(items) => r matches Some(v) && *v == items,
                _ => r is None,
            },
    {
        match self {
            JsonValue::Array(items) => Some(items),
            _ => None,
        }
    }

    pub fn is_object(&self) -> (b: bool)
        ensures
            b == (*self is Object),
    {
        match self {
            JsonValue::Object(_) => true,
            _ => false,
        }
    }

    pub fn is_null(&self) -> (b: bool)
        ensures
            b == (*self is Null),
    {
        match self {
            JsonValue::Null => true,
            _ => false,
        }
    }
}

/// The text of member `key` of `v`, when it is a string.
pub fn get_str<'a>(v: &'a JsonValue, key: &str) -> (r: Option<&'a str>)
    ensures
        match json_get_str(*v, key@) {
            Some(s) => r matches Some(t) && t@ == s,
            None => r is None,
        },
{
    match v.get(key) {
        Some(x) => x.as_str(),
        None => None,
    }
}

} // verus!
