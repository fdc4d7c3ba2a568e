//! JSON values as the library holds them.
use vstd::prelude::*;

verus! {

/// A JSON value. Numbers keep their text; an object keeps its members in order.
#[derive(Debug)]
pub enum JsonValue {
    Null,
    Bool(bool),
    Number(String),
    Str(String),
    Array(Vec<JsonValue>),
    Object(Vec<(String, JsonValue)>),
}

/// Members with their keys as plain text.
pub open spec fn shallow(fields: Seq<(String, JsonValue)>) -> Seq<(Seq<char>, JsonValue)> {
    fields.map_values(|p: (String, JsonValue)| (p.0@, p.1))
}

/// The value of the first member named `key`.
pub open spec fn field(f: Seq<(Seq<char>, JsonValue)>, key: Seq<char>) -> Option<JsonValue>
    decreases f.len(),
{
    if f.len() == 0 {
        None
    } else if f[0].0 == key {
        Some(f[0].1)
    } else {
        field(f.drop_first(), key)
    }
}

pub open spec fn is_text(v: JsonValue, t: Seq<char>) -> bool {
    v is Str && v->Str_0@ == t
}

pub open spec fn is_empty_object(v: JsonValue) -> bool {
    v is Object && v->Object_0@.len() == 0
}

} // verus!
