//! JSON values as the network server decodes them, and field lookup by
//! dotted path.

use vstd::prelude::*;
use crate::text::{split_seq, split_str, lemma_split_concat};

verus! {

/// A JSON value. Numbers keep the text in which they were written; objects
/// keep their members in order, and names are unique within an object.
#[derive(Debug, PartialEq)]
pub enum JsonValue {
    Null,
    Bool(bool),
    Number(String),
    Str(String),
    Array(Vec<JsonValue>),
    Object(Vec<(String, JsonValue)>),
}

/// The value of the first member named `key`.
pub open spec fn member_get(entries: Seq<(String, JsonValue)>, key: Seq<char>) -> Option<JsonValue>
    decreases entries.len(),
{
    if entries.len() == 0 {
        None
    } else if entries[0].0@ == key {
        Some(entries[0].1)
    } else {
        member_get(entries.drop_first(), key)
    }
}

/// `value[key]`: the member named `key` of an object; nothing for any other value.
pub open spec fn json_get(v: JsonValue, key: Seq<char>) -> Option<JsonValue> {
    match v {
        JsonValue::Object(entries) => member_get(entries@, key),
        _ => None,
    }
}

/// Follows `path` one member name at a time from `v`.
pub open spec fn json_get_path(v: JsonValue, path: Seq<Seq<char>>) -> Option<JsonValue>
    decreases path.len(),
{
    if path.len() == 0 {
        Some(v)
    } else {
        match json_get(v, path[0]) {
            Some(w) => json_get_path(w, path.drop_first()),
            None => None,
        }
    }
}

/// The member named `key` of `v`, when `v` is an object that has one.
pub fn get_member<'a>(v: &'a JsonValue, key: &String) -> (r: Option<&'a JsonValue>)
    ensures
        match r {
            Some(w) => json_get(*v, key@) == Some(*w),
            None => json_get(*v, key@) is None,
        },
{
    match v {
        JsonValue::Object(entries) => {
            let mut j: usize = 0;
            assert(entries@.skip(0) =~= entries@);
            while j < entries.len()
                invariant
                    0 <= j <= entries@.len(),
                    *v == JsonValue::Object(*entries),
                    member_get(entries@, key@) == member_get(entries@.skip(j as int), key@),
                decreases entries@.len() - j,
            {
                let ghost rest = entries@.skip(j as int);
                assert(rest.drop_first() =~= entries@.skip(j + 1));
                assert(rest[0] == entries@[j as int]);
                if entries[j].0 == *key {
                    assert(member_get(rest, key@) == Some(entries@[j as int].1));
                    return Some(&entries[j].1);
                }
                j = j + 1;
            }
            None
        },
        _ => None,
    }
}

/// A payload that the network server decoded for the device.
#[derive(Debug, PartialEq)]
pub struct DecodedPayload {
    pub object: JsonValue,
}

impl DecodedPayload {
    pub fn from_json(value: JsonValue) -> (r: DecodedPayload)
        ensures
            r.object == value,
    {
        DecodedPayload { object: value }
    }

    /// The field at `path`, whose member names are separated by `.`
    /// (`"temperature"`, `"sensor.temp"`).
    pub fn get_field(&self, path: &str) -> (r: Option<&JsonValue>)
        ensures
            match r {
                Some(w) => json_get_path(self.object, split_seq(path@, '.')) == Some(*w),
                None => json_get_path(self.object, split_seq(path@, '.')) is None,
            },
    {
        let segments = split_str(path, '.');
        let ghost segs = segments@.map_values(|p: String| p@);
        let mut current: &JsonValue = &self.object;
        let mut i: usize = 0;
        assert(segs.skip(0) =~= segs);
        while i < segments.len()
            invariant
                0 <= i <= segments@.len(),
                segs == segments@.map_values(|p: String| p@),
                segs == split_seq(path@, '.'),
                json_get_path(self.object, segs) == json_get_path(*current, segs.skip(i as int)),
            decreases segments@.len() - i,
        {
            let ghost rest = segs.skip(i as int);
            assert(rest.drop_first() =~= segs.skip(i + 1));
            assert(rest[0] == segments@[i as int]@);
            match get_member(current, &segments[i]) {
                Some(next) => {
                    current = next;
                },
                None => {
                    return None;
                },
            }
            i = i + 1;
        }
        assert(segs.skip(segments@.len() as int) =~= Seq::<Seq<char>>::empty());
        Some(current)
    }
}

/// Following `p` then `q` is following the path `p ++ q`.
pub proof fn lemma_path_append(v: JsonValue, p: Seq<Seq<char>>, q: Seq<Seq<char>>)
    ensures
        json_get_path(v, p + q) == match json_get_path(v, p) {
            Some(w) => json_get_path(w, q),
            None => None,
        },
    decreases p.len(),
{
    if p.len() == 0 {
        assert(p + q =~= q);
    } else {
        assert((p + q)[0] == p[0]);
        assert((p + q).drop_first() =~= p.drop_first() + q);
        match json_get(v, p[0]) {
            Some(w) => lemma_path_append(w, p.drop_first(), q),
            None => {},
        }
    }
}

/// A field at `p.q` is the field `q` of the field at `p`: looking up a
/// dotted path is looking up its first part, then the rest within it.
pub proof fn lemma_get_field_nested(payload: DecodedPayload, p: Seq<char>, q: Seq<char>)
    ensures
        json_get_path(payload.object, split_seq(p + seq!['.'] + q, '.')) == match json_get_path(
            payload.object,
            split_seq(p, '.'),
        ) {
            Some(w) => json_get_path(w, split_seq(q, '.')),
            None => None,
        },
{
    lemma_split_concat(p, '.', q);
    lemma_path_append(payload.object, split_seq(p, '.'), split_seq(q, '.'));
}

} // verus!
