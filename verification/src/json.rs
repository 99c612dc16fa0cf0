//! A model of the JSON documents that the mihomo controller answers with,
//! and the lookups that the manager makes in them.
use vstd::prelude::*;
use crate::text::str_eq;
use crate::sorting::{keys_in_order, lemma_keys_in_order_distinct};

verus! {

/// A JSON number, as the JSON layer keeps it: a non-negative integer,
/// a negative integer, or a floating-point number given by its IEEE-754 bits.
#[derive(Debug, Clone, Copy, PartialEq, Eq, Structural)]
pub enum JsonNumber {
    PosInt(u64),
    NegInt(i64),
    FloatBits(u64),
}

/// A JSON value. An object holds its members in strictly increasing key order, as the
/// JSON layer's map does (`json_well_formed`).
#[derive(Debug)]
pub enum JsonValue {
    Null,
    Bool(bool),
    Number(JsonNumber),
    String(String),
    Array(Vec<JsonValue>),
    Object(Vec<(String, JsonValue)>),
}

/// The value of the first member of `members` named `key`.
pub open spec fn member_value(members: Seq<(String, JsonValue)>, key: Seq<char>) -> Option<JsonValue>
    decreases members.len(),
{
    if members.len() == 0 {
        None
    } else if members[0].0@ == key {
        Some(members[0].1)
    } else {
        member_value(members.drop_first(), key)
    }
}

/// `v[key]`: the member `key` of an object; `None` stands for the `null` that
/// indexing yields for a missing member or for a value that is not an object.
pub open spec fn spec_field(v: Option<JsonValue>, key: Seq<char>) -> Option<JsonValue> {
    match v {
        Some(JsonValue::Object(members)) => member_value(members@, key),
        _ => None,
    }
}

/// `as_str` of an (absent) value.
pub open spec fn spec_as_str(v: Option<JsonValue>) -> Option<Seq<char>> {
    match v {
        Some(JsonValue::String(s)) => Some(s@),
        _ => None,
    }
}

/// `as_u64` of an (absent) value: only non-negative integers have one.
pub open spec fn spec_as_u64(v: Option<JsonValue>) -> Option<u64> {
    match v {
        Some(JsonValue::Number(JsonNumber::PosInt(n))) => Some(n),
        _ => None,
    }
}

/// `as_array` of an (absent) value.
pub open spec fn spec_as_array(v: Option<JsonValue>) -> Option<Seq<JsonValue>> {
    match v {
        Some(JsonValue::Array(items)) => Some(items@),
        _ => None,
    }
}

/// The value behind an optional reference.
pub open spec fn opt_val(v: Option<&JsonValue>) -> Option<JsonValue> {
    match v {
        Some(x) => Some(*x),
        None => None,
    }
}

/// Looks up member `key` of `v`.
pub fn field<'a>(v: Option<&'a JsonValue>, key: &str) -> (r: Option<&'a JsonValue>)
    ensures
        opt_val(r) == spec_field(
            opt_val(v),
            key@,
        ),
{
    match v {
        Some(JsonValue::Object(members)) => {
            let mut i: usize = 0;
            proof {
                assert(members@.skip(0) =~= members@);
            }
            while i < members.len()
                invariant
                    i <= members@.len(),
                    spec_field(opt_val(v), key@) == member_value(members@, key@),
                    member_value(members@, key@) == member_value(members@.skip(i as int), key@),
                decreases members@.len() - i,
            {
                let ghost rest = members@.skip(i as int);
                if str_eq(members[i].0.as_str(), key) {
                    proof {
                        assert(rest[0] == members@[i as int]);
                        assert(rest[0].0@ == key@);
                        assert(member_value(rest, key@) == Some(rest[0].1));
                    }
                    return Some(&members[i].1);
                }
                proof {
                    assert(rest.drop_first() =~= members@.skip(i + 1));
                }
                i = i + 1;
            }
            None
        },
        _ => None,
    }
}

/// The string inside `v`, if it is one.
pub fn as_str<'a>(v: Option<&'a JsonValue>) -> (r: Option<&'a String>)
    ensures
        match r {
            Some(s) => spec_as_str(
                opt_val(v),
            ) == Some(s@),
            None => spec_as_str(
                opt_val(v),
            ) is None,
        },
{
    match v {
        Some(JsonValue::String(s)) => Some(s),
        _ => None,
    }
}

/// The non-negative integer inside `v`, if it is one.
pub fn as_u64(v: Option<&JsonValue>) -> (r: Option<u64>)
    ensures
        r == spec_as_u64(
            opt_val(v),
        ),
{
    match v {
        Some(JsonValue::Number(JsonNumber::PosInt(n))) => Some(*n),
        _ => None,
    }
}

/// The items of `v`, if it is an array.
pub fn as_array<'a>(v: Option<&'a JsonValue>) -> (r: Option<&'a Vec<JsonValue>>)
    ensures
        match r {
            Some(items) => spec_as_array(
                opt_val(v),
            ) == Some(items@),
            None => spec_as_array(
                opt_val(v),
            ) is None,
        },
{
    match v {
        Some(JsonValue::Array(items)) => Some(items),
        _ => None,
    }
}

/// Every object in `v`, however deep, has its keys in strictly increasing order.
pub open spec fn json_well_formed(v: JsonValue) -> bool
    decreases v,
{
    match v {
        JsonValue::Array(items) => forall|i: int|
            0 <= i < items@.len() ==> #[trigger] json_well_formed(items@[i]),
        JsonValue::Object(members) => keys_in_order(members@) && forall|i: int|
            0 <= i < members@.len() ==> #[trigger] json_well_formed(members@[i].1),
        _ => true,
    }
}

/// In an object whose keys are in order, a member is found by its key.
pub proof fn lemma_member_found(members: Seq<(String, JsonValue)>, i: int)
    requires
        keys_in_order(members),
        0 <= i < members.len(),
    ensures
        member_value(members, members[i].0@) == Some(members[i].1),
    decreases i,
{
    if i > 0 {
        let t = members.drop_first();
        lemma_keys_in_order_distinct(members, 0, i);
        assert(keys_in_order(t)) by {
            assert forall|a: int, b: int| 0 <= a < b < t.len() implies crate::sorting::seq_lt(
                t[a].0@,
                t[b].0@,
            ) by {
                assert(t[a] == members[a + 1] && t[b] == members[b + 1]);
            }
        }
        assert(t[i - 1] == members[i]);
        lemma_member_found(t, i - 1);
    }
}

} // verus!
