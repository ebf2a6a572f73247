//! A plain-value model of JSON documents: what the request handlers read
//! from payloads and what they write into results.

use vstd::prelude::*;
use crate::text::{str_eq, owned};

verus! {

/// A JSON number. Only integers are ever read by the protocol logic; a
/// number with a fractional part or exponent is kept as `Float` without
/// its value.
#[derive(Debug)]
pub enum JsonNumber {
    PosInt(u64),
    NegInt(i64),
    Float,
}

/// A JSON value. Object members keep their order.
#[derive(Debug)]
pub enum JsonValue {
    Null,
    Bool(bool),
    Number(JsonNumber),
    Str(String),
    Array(Vec<JsonValue>),
    Object(Vec<(String, JsonValue)>),
}

/// The members of an object (none for other values).
pub open spec fn members(j: JsonValue) -> Seq<(String, JsonValue)> {
    match j {
        JsonValue::Object(f) => f@,
        _ => Seq::empty(),
    }
}

/// The member names of an object, in order.
pub open spec fn member_names(j: JsonValue) -> Seq<Seq<char>> {
    members(j).map_values(|m: (String, JsonValue)| m.0@)
}

/// The value of the `i`-th member of an object.
pub open spec fn member_value(j: JsonValue, i: int) -> JsonValue {
    members(j)[i].1
}

/// The value of the first member named `key`, if any.
pub open spec fn field_of(fields: Seq<(String, JsonValue)>, key: Seq<char>) -> Option<JsonValue>
    decreases fields.len(),
{
    if fields.len() == 0 {
        None
    } else if fields[0].0@ == key {
        Some(fields[0].1)
    } else {
        field_of(fields.drop_first(), key)
    }
}

/// Member lookup: `None` for a missing key or a value that is not an object.
pub open spec fn json_get(v: JsonValue, key: Seq<char>) -> Option<JsonValue> {
    match v {
        JsonValue::Object(fields) => field_of(fields@, key),
        _ => None,
    }
}

/// The string a value holds, if it is a string.
pub open spec fn json_str(v: JsonValue) -> Option<Seq<char>> {
    match v {
        JsonValue::Str(s) => Some(s@),
        _ => None,
    }
}

/// The non-negative integer a value holds, if it is one.
pub open spec fn json_u64(v: JsonValue) -> Option<u64> {
    match v {
        JsonValue::Number(JsonNumber::PosInt(n)) => Some(n),
        _ => None,
    }
}

/// The elements of a value, if it is an array.
pub open spec fn json_array(v: JsonValue) -> Option<Seq<JsonValue>> {
    match v {
        JsonValue::Array(items) => Some(items@),
        _ => None,
    }
}

proof fn lemma_field_of_skip(fields: Seq<(String, JsonValue)>, key: Seq<char>, i: int)
    requires
        0 <= i < fields.len(),
        fields[i].0@ != key,
    ensures
        field_of(fields.subrange(i, fields.len() as int), key) == field_of(
            fields.subrange(i + 1, fields.len() as int),
            key,
        ),
{
    let tail = fields.subrange(i, fields.len() as int);
    assert(tail.drop_first() =~= fields.subrange(i + 1, fields.len() as int));
}

/// The first member named `key` decides the lookup.
pub proof fn lemma_field_of_first(fields: Seq<(String, JsonValue)>, key: Seq<char>, i: int)
    requires
        0 <= i < fields.len(),
        fields[i].0@ == key,
        forall|j: int| 0 <= j < i ==> (#[trigger] fields[j]).0@ != key,
    ensures
        field_of(fields, key) == Some(fields[i].1),
    decreases i,
{
    if i > 0 {
        let rest = fields.drop_first();
        assert forall|j: int| 0 <= j < i - 1 implies (#[trigger] rest[j]).0@ != key by {
            assert(rest[j] == fields[j + 1]);
        }
        lemma_field_of_first(rest, key, i - 1);
        assert(fields[0].0@ != key);
    }
}

/// A key no member has is not found.
pub proof fn lemma_field_of_absent(fields: Seq<(String, JsonValue)>, key: Seq<char>)
    requires
        forall|j: int| 0 <= j < fields.len() ==> (#[trigger] fields[j]).0@ != key,
    ensures
        field_of(fields, key) is None,
    decreases fields.len(),
{
    if fields.len() > 0 {
        let rest = fields.drop_first();
        assert forall|j: int| 0 <= j < rest.len() implies (#[trigger] rest[j]).0@ != key by {
            assert(rest[j] == fields[j + 1]);
        }
        assert(fields[0].0@ != key);
        lemma_field_of_absent(rest, key);
    }
}

impl JsonValue {
    /// Looks up member `key` of an object.
    pub fn get(&self, key: &str) -> (r: Option<&JsonValue>)
        ensures
            r matches Some(x) ==> json_get(*self, key@) == Some(*x),
            r is None ==> json_get(*self, key@) is None,
    {
        match self {
            JsonValue::Object(fields) => {
                let mut i: usize = 0;
                assert(fields@.subrange(0, fields@.len() as int) =~= fields@);
                while i < fields.len()
                    invariant
                        i <= fields@.len(),
                        json_get(*self, key@) == field_of(fields@, key@),
                        field_of(fields@, key@) == field_of(
                            fields@.subrange(i as int, fields@.len() as int),
                            key@,
                        ),
                    decreases fields@.len() - i,
                {
                    if str_eq(fields[i].0.as_str(), key) {
                        let ghost tail = fields@.subrange(i as int, fields@.len() as int);
                        assert(tail[0] == fields@[i as int]);
                        assert(tail[0].0@ == key@);
                        assert(field_of(tail, key@) == Some(tail[0].1));
                        assert(json_get(*self, key@) == Some(fields@[i as int].1));
                        let r = &fields[i].1;
                        assert(*r == fields@[i as int].1);
                        return Some(r);
                    }
                    proof {
                        lemma_field_of_skip(fields@, key@, i as int);
                    }
                    i = i + 1;
                }
                assert(fields@.subrange(i as int, fields@.len() as int).len() == 0);
                None
            },
            _ => None,
        }
    }

    /// Moves member `key` out of an object, consuming it.
    pub fn take(self, key: &str) -> (r: Option<JsonValue>)
        ensures
            r == json_get(self, key@),
    {
        match self {
            JsonValue::Object(fields) => {
                let mut fields = fields;
                let ghost orig = fields@;
                let mut i: usize = 0;
                assert(fields@.subrange(0, fields@.len() as int) =~= fields@);
                while i < fields.len()
                    invariant
                        i <= fields@.len(),
                        fields@ == orig,
                        json_get(self, key@) == field_of(orig, key@),
                        field_of(orig, key@) == field_of(
                            orig.subrange(i as int, orig.len() as int),
                            key@,
                        ),
                    decreases fields@.len() - i,
                {
                    if str_eq(fields[i].0.as_str(), key) {
                        let ghost tail = orig.subrange(i as int, orig.len() as int);
                        assert(tail[0] == orig[i as int]);
                        assert(field_of(tail, key@) == Some(tail[0].1));
                        let member = fields.swap_remove(i);
                        return Some(member.1);
                    }
                    proof {
                        lemma_field_of_skip(orig, key@, i as int);
                    }
                    i = i + 1;
                }
                assert(orig.subrange(i as int, orig.len() as int).len() == 0);
                None
            },
            _ => None,
        }
    }

    /// Whether this value is an object.
    pub fn is_object(&self) -> (r: bool)
        ensures
            r == (*self is Object),
    {
        match self {
            JsonValue::Object(_) => true,
            _ => false,
        }
    }

    /// The string this value holds, if it is a string.
    pub fn as_str(&self) -> (r: Option<&str>)
        ensures
            r matches Some(s) ==> json_str(*self) == Some(s@),
            r is None ==> json_str(*self) is None,
    {
        match self {
            JsonValue::Str(s) => Some(s.as_str()),
            _ => None,
        }
    }

    /// The integer this value holds, if it is a non-negative integer.
    pub fn as_u64(&self) -> (r: Option<u64>)
        ensures
            r == json_u64(*self),
    {
        match self {
            JsonValue::Number(JsonNumber::PosInt(n)) => Some(*n),
            _ => None,
        }
    }

    /// The elements of this value, if it is an array.
    pub fn as_array(&self) -> (r: Option<&Vec<JsonValue>>)
        ensures
            r matches Some(v) ==> json_array(*self) == Some(v@),
            r is None ==> json_array(*self) is None,
    {
        match self {
            JsonValue::Array(items) => Some(items),
            _ => None,
        }
    }

    /// A string value.
    pub fn string(s: &str) -> (r: JsonValue)
        ensures
            json_str(r) == Some(s@),
    {
        JsonValue::Str(owned(s))
    }

    /// An integer value.
    pub fn uint(n: u64) -> (r: JsonValue)
        ensures
            r == JsonValue::Number(JsonNumber::PosInt(n)),
    {
        JsonValue::Number(JsonNumber::PosInt(n))
    }

    /// A signed integer value, stored as serde_json stores it.
    pub fn signed(n: i64) -> (r: JsonValue)
        ensures
            n >= 0 ==> r == JsonValue::Number(JsonNumber::PosInt(n as u64)),
            n < 0 ==> r == JsonValue::Number(JsonNumber::NegInt(n)),
    {
        if n >= 0 {
            JsonValue::Number(JsonNumber::PosInt(n as u64))
        } else {
            JsonValue::Number(JsonNumber::NegInt(n))
        }
    }
}

/// Appends member `key: value` to an object under construction.
pub fn put(fields: &mut Vec<(String, JsonValue)>, key: &str, value: JsonValue)
    ensures
        final(fields)@.len() == old(fields)@.len() + 1,
        final(fields)@.subrange(0, old(fields)@.len() as int) == old(fields)@,
        final(fields)@.last().0@ == key@,
        final(fields)@.last().1 == value,
{
    fields.push((owned(key), value));
}

} // verus!
