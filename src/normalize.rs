//! Schema normalization of workflow definitions: edges become `{id, src,
//! dst, ...}` objects and nodes get their mandatory fields with defaults.
use vstd::prelude::*;
use vstd::string::StringExecFns;
use crate::json::{field, is_empty_object, is_text, shallow, JsonValue};
use crate::keyed::{entry_of, find_key, find_key_str};

verus! {

/// The members of an object; nothing for any other value.
pub open spec fn obj_members(v: JsonValue) -> Seq<(Seq<char>, JsonValue)> {
    match v {
        JsonValue::Object(f) => shallow(f@),
        _ => Seq::empty(),
    }
}

pub open spec fn keys_of(s: Seq<(Seq<char>, JsonValue)>) -> Seq<Seq<char>> {
    s.map_values(|p: (Seq<char>, JsonValue)| p.0)
}

/// The members whose key is not `reserved`, each key at its first occurrence.
pub open spec fn rest_members(f: Seq<(Seq<char>, JsonValue)>, reserved: Seq<Seq<char>>) -> Seq<(Seq<char>, JsonValue)>
    decreases f.len(),
{
    if f.len() == 0 {
        Seq::empty()
    } else {
        let prev = rest_members(f.drop_last(), reserved);
        if reserved.contains(f.last().0) || keys_of(prev).contains(f.last().0) {
            prev
        } else {
            prev.push(f.last())
        }
    }
}

pub open spec fn node_keys() -> Seq<Seq<char>> {
    seq!["id"@, "name"@, "trigger"@, "type"@, "parameters"@, "output"@, "credentials"@, "error"@]
}

pub open spec fn edge_keys() -> Seq<Seq<char>> {
    seq!["id"@, "src"@, "dst"@]
}

/// A string member: the found string, else the empty string.
pub open spec fn text_slot(v: JsonValue, found: Option<JsonValue>) -> bool {
    match found {
        Some(JsonValue::Str(s)) => v == JsonValue::Str(s),
        _ => is_text(v, Seq::empty()),
    }
}

/// An object member: the found object, else the empty object.
pub open spec fn object_slot(v: JsonValue, found: Option<JsonValue>) -> bool {
    match found {
        Some(JsonValue::Object(o)) => v == JsonValue::Object(o),
        _ => is_empty_object(v),
    }
}

pub open spec fn bool_or_false(found: Option<JsonValue>) -> bool {
    match found {
        Some(JsonValue::Bool(b)) => b,
        _ => false,
    }
}

/// `out` is the normalized node of the members `f`: `id`, `name` and `type`
/// strings, `trigger` a boolean, `parameters` and `output` objects,
/// `credentials` and `error` kept or null, then the other members.
pub open spec fn node_normalized(out: Seq<(Seq<char>, JsonValue)>, f: Seq<(Seq<char>, JsonValue)>) -> bool {
    &&& out.len() == 8 + rest_members(f, node_keys()).len()
    &&& out.skip(8) == rest_members(f, node_keys())
    &&& forall|i: int| 0 <= i < 8 ==> #[trigger] out[i].0 == node_keys()[i]
    &&& text_slot(out[0].1, field(f, "id"@))
    &&& text_slot(out[1].1, field(f, "name"@))
    &&& out[2].1 == JsonValue::Bool(bool_or_false(field(f, "trigger"@)))
    &&& text_slot(out[3].1, field(f, "type"@))
    &&& object_slot(out[4].1, field(f, "parameters"@))
    &&& object_slot(out[5].1, field(f, "output"@))
    &&& out[6].1 == match field(f, "credentials"@) {
        Some(c) => c,
        None => JsonValue::Null,
    }
    &&& out[7].1 == match field(f, "error"@) {
        Some(e) => e,
        None => JsonValue::Null,
    }
}

/// `out` is the normalized edge of the members `f`: `id` (a string member,
/// else the fallback, else empty), `src` and `dst` strings, then the other
/// members.
pub open spec fn edge_normalized(
    out: Seq<(Seq<char>, JsonValue)>,
    f: Seq<(Seq<char>, JsonValue)>,
    fallback: Option<Seq<char>>,
) -> bool {
    &&& out.len() == 3 + rest_members(f, edge_keys()).len()
    &&& out.skip(3) == rest_members(f, edge_keys())
    &&& forall|i: int| 0 <= i < 3 ==> #[trigger] out[i].0 == edge_keys()[i]
    &&& match field(f, "id"@) {
        Some(JsonValue::Str(s)) => out[0].1 == JsonValue::Str(s),
        _ => is_text(out[0].1, match fallback {
            Some(x) => x,
            None => Seq::empty(),
        }),
    }
    &&& text_slot(out[1].1, field(f, "src"@))
    &&& text_slot(out[2].1, field(f, "dst"@))
}

/// The text a member shows after normalization: its string, else empty.
pub open spec fn text_seen(found: Option<JsonValue>, default: Seq<char>) -> Seq<char> {
    match found {
        Some(JsonValue::Str(s)) => s@,
        _ => default,
    }
}

/// The members an object member shows after normalization: its own, else none.
pub open spec fn object_seen(found: Option<JsonValue>) -> Seq<(String, JsonValue)> {
    match found {
        Some(JsonValue::Object(o)) => o@,
        _ => Seq::empty(),
    }
}

pub open spec fn kept_or_null(found: Option<JsonValue>) -> JsonValue {
    match found {
        Some(v) => v,
        None => JsonValue::Null,
    }
}

/// Two nodes whose normalized forms are equal show the same fields: the
/// same `id`, `name` and `type` text, `trigger`, `parameters` and `output`
/// members, `credentials` and `error`, and the same other members.
pub proof fn node_normalization_is_injective_on_observable_fields(
    f1: Seq<(Seq<char>, JsonValue)>,
    f2: Seq<(Seq<char>, JsonValue)>,
    out: Seq<(Seq<char>, JsonValue)>,
)
    requires
        node_normalized(out, f1),
        node_normalized(out, f2),
    ensures
        text_seen(field(f1, "id"@), Seq::empty()) == text_seen(field(f2, "id"@), Seq::empty()),
        text_seen(field(f1, "name"@), Seq::empty()) == text_seen(field(f2, "name"@), Seq::empty()),
        text_seen(field(f1, "type"@), Seq::empty()) == text_seen(field(f2, "type"@), Seq::empty()),
        bool_or_false(field(f1, "trigger"@)) == bool_or_false(field(f2, "trigger"@)),
        object_seen(field(f1, "parameters"@)) == object_seen(field(f2, "parameters"@)),
        object_seen(field(f1, "output"@)) == object_seen(field(f2, "output"@)),
        kept_or_null(field(f1, "credentials"@)) == kept_or_null(field(f2, "credentials"@)),
        kept_or_null(field(f1, "error"@)) == kept_or_null(field(f2, "error"@)),
        rest_members(f1, node_keys()) == rest_members(f2, node_keys()),
{
    assert(text_seen(field(f1, "id"@), Seq::empty()) == out[0].1->Str_0@);
    assert(text_seen(field(f2, "id"@), Seq::empty()) == out[0].1->Str_0@);
    assert(text_seen(field(f1, "name"@), Seq::empty()) == out[1].1->Str_0@);
    assert(text_seen(field(f2, "name"@), Seq::empty()) == out[1].1->Str_0@);
    assert(text_seen(field(f1, "type"@), Seq::empty()) == out[3].1->Str_0@);
    assert(text_seen(field(f2, "type"@), Seq::empty()) == out[3].1->Str_0@);
    assert(object_seen(field(f1, "parameters"@)) == out[4].1->Object_0@);
    assert(object_seen(field(f2, "parameters"@)) == out[4].1->Object_0@);
    assert(object_seen(field(f1, "output"@)) == out[5].1->Object_0@);
    assert(object_seen(field(f2, "output"@)) == out[5].1->Object_0@);
}

/// Two edges, given the same fallback id, whose normalized forms are equal
/// show the same fields: the same `id`, `src` and `dst` text and the same
/// other members.
pub proof fn edge_normalization_is_injective_on_observable_fields(
    f1: Seq<(Seq<char>, JsonValue)>,
    f2: Seq<(Seq<char>, JsonValue)>,
    fallback: Option<Seq<char>>,
    out: Seq<(Seq<char>, JsonValue)>,
)
    requires
        edge_normalized(out, f1, fallback),
        edge_normalized(out, f2, fallback),
    ensures
        text_seen(field(f1, "id"@), fallback.unwrap_or(Seq::empty())) == text_seen(
            field(f2, "id"@),
            fallback.unwrap_or(Seq::empty()),
        ),
        text_seen(field(f1, "src"@), Seq::empty()) == text_seen(field(f2, "src"@), Seq::empty()),
        text_seen(field(f1, "dst"@), Seq::empty()) == text_seen(field(f2, "dst"@), Seq::empty()),
        rest_members(f1, edge_keys()) == rest_members(f2, edge_keys()),
{
    assert(text_seen(field(f1, "id"@), fallback.unwrap_or(Seq::empty())) == out[0].1->Str_0@);
    assert(text_seen(field(f2, "id"@), fallback.unwrap_or(Seq::empty())) == out[0].1->Str_0@);
    assert(text_seen(field(f1, "src"@), Seq::empty()) == out[1].1->Str_0@);
    assert(text_seen(field(f2, "src"@), Seq::empty()) == out[1].1->Str_0@);
    assert(text_seen(field(f1, "dst"@), Seq::empty()) == out[2].1->Str_0@);
    assert(text_seen(field(f2, "dst"@), Seq::empty()) == out[2].1->Str_0@);
}

pub proof fn lemma_field_shallow(s: Seq<(String, JsonValue)>, k: Seq<char>)
    ensures
        field(shallow(s), k) == entry_of(s, k),
    decreases s.len(),
{
    if s.len() > 0 {
        assert(shallow(s).drop_first() =~= shallow(s.drop_first()));
        lemma_field_shallow(s.drop_first(), k);
    }
}

pub proof fn lemma_field_at(s: Seq<(Seq<char>, JsonValue)>, k: Seq<char>, j: int)
    requires
        0 <= j < s.len(),
        s[j].0 == k,
        forall|i: int| 0 <= i < j ==> (#[trigger] s[i]).0 != k,
    ensures
        field(s, k) == Some(s[j].1),
    decreases j,
{
    if j > 0 {
        lemma_field_at(s.drop_first(), k, j - 1);
    }
}

/// Same keys everywhere, same values wherever the key is not reserved.
pub open spec fn agrees_outside(
    a: Seq<(Seq<char>, JsonValue)>,
    b: Seq<(Seq<char>, JsonValue)>,
    reserved: Seq<Seq<char>>,
) -> bool {
    &&& a.len() == b.len()
    &&& forall|j: int| 0 <= j < a.len() ==> (#[trigger] a[j]).0 == b[j].0
    &&& forall|j: int| 0 <= j < a.len() && !reserved.contains(a[j].0) ==> (#[trigger] a[j]).1 == b[j].1
}

pub proof fn lemma_rest_agree(a: Seq<(Seq<char>, JsonValue)>, b: Seq<(Seq<char>, JsonValue)>, reserved: Seq<Seq<char>>)
    requires
        agrees_outside(a, b, reserved),
    ensures
        rest_members(a, reserved) == rest_members(b, reserved),
    decreases a.len(),
{
    if a.len() > 0 {
        lemma_rest_agree(a.drop_last(), b.drop_last(), reserved);
        assert(a.last().0 == b.last().0);
    }
}

pub proof fn lemma_rest_props(f: Seq<(Seq<char>, JsonValue)>, reserved: Seq<Seq<char>>)
    ensures
        forall|i: int| 0 <= i < rest_members(f, reserved).len() ==> !reserved.contains(#[trigger] rest_members(f, reserved)[i].0),
        forall|i: int, j: int| 0 <= i < j < rest_members(f, reserved).len() ==> #[trigger] rest_members(f, reserved)[i].0 != #[trigger] rest_members(f, reserved)[j].0,
    decreases f.len(),
{
    if f.len() > 0 {
        let prev = rest_members(f.drop_last(), reserved);
        lemma_rest_props(f.drop_last(), reserved);
        if !(reserved.contains(f.last().0) || keys_of(prev).contains(f.last().0)) {
            let r = prev.push(f.last());
            assert forall|i: int, j: int| 0 <= i < j < r.len() implies #[trigger] r[i].0 != #[trigger] r[j].0 by {
                if j == r.len() - 1 {
                    if r[i].0 == r[j].0 {
                        assert(keys_of(prev)[i] == f.last().0);
                    }
                }
            }
        }
    }
}

/// Members with reserved keys followed by members with distinct free keys:
/// the rest is the second part.
pub proof fn lemma_rest_of_normalized(
    m: Seq<(Seq<char>, JsonValue)>,
    e: Seq<(Seq<char>, JsonValue)>,
    reserved: Seq<Seq<char>>,
)
    requires
        forall|i: int| 0 <= i < m.len() ==> reserved.contains(#[trigger] m[i].0),
        forall|i: int| 0 <= i < e.len() ==> !reserved.contains(#[trigger] e[i].0),
        forall|i: int, j: int| 0 <= i < j < e.len() ==> #[trigger] e[i].0 != #[trigger] e[j].0,
    ensures
        rest_members(m + e, reserved) == e,
    decreases m.len() + e.len(),
{
    if e.len() == 0 {
        assert(m + e =~= m);
        if m.len() > 0 {
            lemma_rest_of_normalized(m.drop_last(), e, reserved);
            assert((m.drop_last() + e) =~= m.drop_last());
            assert(reserved.contains(m.last().0));
        }
    } else {
        let e0 = e.drop_last();
        lemma_rest_of_normalized(m, e0, reserved);
        assert((m + e).drop_last() =~= m + e0);
        assert((m + e).last() == e.last());
        if keys_of(e0).contains(e.last().0) {
            let i = choose|i: int| 0 <= i < keys_of(e0).len() && keys_of(e0)[i] == e.last().0;
            assert(e[i].0 == e[e.len() - 1].0);
        }
        assert(e0.push(e.last()) =~= e);
    }
}

proof fn lemma_node_keys()
    ensures
        node_keys()[0] == "id"@,
        node_keys()[1] == "name"@,
        node_keys()[2] == "trigger"@,
        node_keys()[3] == "type"@,
        node_keys()[4] == "parameters"@,
        node_keys()[5] == "output"@,
        node_keys()[6] == "credentials"@,
        node_keys()[7] == "error"@,
        node_keys().len() == 8,
        forall|i: int, j: int| 0 <= i < j < 8 ==> node_keys()[i] != node_keys()[j],
{
    reveal_strlit("id");
    reveal_strlit("name");
    reveal_strlit("trigger");
    reveal_strlit("type");
    reveal_strlit("parameters");
    reveal_strlit("output");
    reveal_strlit("credentials");
    reveal_strlit("error");
    assert("id"@.len() == 2);
    assert("name"@.len() == 4);
    assert("trigger"@.len() == 7);
    assert("type"@.len() == 4);
    assert("parameters"@.len() == 10);
    assert("output"@.len() == 6);
    assert("credentials"@.len() == 11);
    assert("error"@.len() == 5);
    assert("name"@[0] != "type"@[0]);
}

proof fn lemma_edge_keys()
    ensures
        edge_keys()[0] == "id"@,
        edge_keys()[1] == "src"@,
        edge_keys()[2] == "dst"@,
        edge_keys().len() == 3,
        forall|i: int, j: int| 0 <= i < j < 3 ==> edge_keys()[i] != edge_keys()[j],
{
    reveal_strlit("id");
    reveal_strlit("src");
    reveal_strlit("dst");
    assert("id"@.len() == 2);
    assert("src"@.len() == 3);
    assert("dst"@.len() == 3);
    assert("src"@[0] != "dst"@[0]);
}

/// Normalizing a normalized node changes nothing.
pub proof fn node_normalization_is_idempotent(
    f: Seq<(Seq<char>, JsonValue)>,
    once: Seq<(Seq<char>, JsonValue)>,
    twice: Seq<(Seq<char>, JsonValue)>,
)
    requires
        node_normalized(once, f),
        node_normalized(twice, once),
    ensures
        twice == once,
{
    lemma_node_keys();
    let keys = node_keys();
    assert forall|j: int| 0 <= j < 8 implies field(once, #[trigger] keys[j]) == Some(once[j].1) by {
        lemma_field_at(once, keys[j], j);
    }
    assert(keys[0] == "id"@);
    assert(field(once, "id"@) == Some(once[0].1));
    assert(field(once, "name"@) == Some(once[1].1));
    assert(field(once, "trigger"@) == Some(once[2].1));
    assert(field(once, "type"@) == Some(once[3].1));
    assert(field(once, "parameters"@) == Some(once[4].1));
    assert(field(once, "output"@) == Some(once[5].1));
    assert(field(once, "credentials"@) == Some(once[6].1));
    assert(field(once, "error"@) == Some(once[7].1));
    let e = rest_members(f, keys);
    lemma_rest_props(f, keys);
    assert(once =~= once.take(8) + e);
    assert forall|i: int| 0 <= i < 8 implies keys.contains(#[trigger] once.take(8)[i].0) by {
        assert(once.take(8)[i].0 == keys[i]);
    }
    lemma_rest_of_normalized(once.take(8), e, keys);
    assert(twice.skip(8) =~= once.skip(8));
    assert forall|i: int| 0 <= i < 8 implies #[trigger] twice[i] == once[i] by {
        assert(twice[i].0 == once[i].0);
    }
    assert forall|i: int| 0 <= i < twice.len() implies #[trigger] twice[i] == once[i] by {
        if i >= 8 {
            assert(twice[i] == twice.skip(8)[i - 8]);
            assert(once[i] == once.skip(8)[i - 8]);
        }
    }
    assert(twice =~= once);
}

/// Normalizing a normalized edge changes nothing, whatever the fallback ids.
pub proof fn edge_normalization_is_idempotent(
    f: Seq<(Seq<char>, JsonValue)>,
    fallback: Option<Seq<char>>,
    once: Seq<(Seq<char>, JsonValue)>,
    fallback2: Option<Seq<char>>,
    twice: Seq<(Seq<char>, JsonValue)>,
)
    requires
        edge_normalized(once, f, fallback),
        edge_normalized(twice, once, fallback2),
    ensures
        twice == once,
{
    lemma_edge_keys();
    let keys = edge_keys();
    assert forall|j: int| 0 <= j < 3 implies field(once, #[trigger] keys[j]) == Some(once[j].1) by {
        lemma_field_at(once, keys[j], j);
    }
    assert(field(once, "id"@) == Some(once[0].1));
    assert(field(once, "src"@) == Some(once[1].1));
    assert(field(once, "dst"@) == Some(once[2].1));
    let e = rest_members(f, keys);
    lemma_rest_props(f, keys);
    assert(once =~= once.take(3) + e);
    assert forall|i: int| 0 <= i < 3 implies keys.contains(#[trigger] once.take(3)[i].0) by {
        assert(once.take(3)[i].0 == keys[i]);
    }
    lemma_rest_of_normalized(once.take(3), e, keys);
    assert(twice.skip(3) =~= once.skip(3));
    assert forall|i: int| 0 <= i < 3 implies #[trigger] twice[i] == once[i] by {
        assert(twice[i].0 == once[i].0);
    }
    assert forall|i: int| 0 <= i < twice.len() implies #[trigger] twice[i] == once[i] by {
        if i >= 3 {
            assert(twice[i] == twice.skip(3)[i - 3]);
            assert(once[i] == once.skip(3)[i - 3]);
        }
    }
    assert(twice =~= once);
}

/// Take the value of the first member named `key`, leaving null in its
/// place.
pub fn take_member(f: &mut Vec<(String, JsonValue)>, key: &str) -> (r: Option<JsonValue>)
    ensures
        r == field(shallow(old(f)@), key@),
        final(f)@.len() == old(f)@.len(),
        forall|j: int| 0 <= j < final(f)@.len() ==> (#[trigger] final(f)@[j]).0 == old(f)@[j].0,
        forall|j: int|
            0 <= j < final(f)@.len() && (#[trigger] final(f)@[j]).0@ != key@ ==> final(f)@[j].1 == old(f)@[j].1,
{
    proof {
        lemma_field_shallow(f@, key@);
    }
    match find_key_str(f, key) {
        None => {
            proof {
                crate::keyed::lemma_entry_absent(f@, key@);
            }
            None
        },
        Some(i) => {
            proof {
                crate::keyed::lemma_entry_at(f@, key@, i as int);
            }
            let k = f[i].0.clone();
            let mut slot = (k, JsonValue::Null);
            f.set_and_swap(i, &mut slot);
            let (_, v) = slot;
            Some(v)
        },
    }
}

proof fn lemma_take_agrees(
    before: Seq<(String, JsonValue)>,
    after: Seq<(String, JsonValue)>,
    orig: Seq<(Seq<char>, JsonValue)>,
    key: Seq<char>,
    reserved: Seq<Seq<char>>,
)
    requires
        agrees_outside(shallow(before), orig, reserved),
        reserved.contains(key),
        after.len() == before.len(),
        forall|j: int| 0 <= j < after.len() ==> (#[trigger] after[j]).0 == before[j].0,
        forall|j: int| 0 <= j < after.len() && (#[trigger] after[j]).0@ != key ==> after[j].1 == before[j].1,
    ensures
        agrees_outside(shallow(after), orig, reserved),
        forall|k: Seq<char>| k != key ==> field(shallow(after), k) == field(shallow(before), k),
{
    assert forall|j: int| 0 <= j < after.len() implies (#[trigger] shallow(after)[j]).0 == orig[j].0 by {
        assert(shallow(before)[j].0 == orig[j].0);
    }
    assert forall|j: int| 0 <= j < after.len() && !reserved.contains(shallow(after)[j].0) implies (#[trigger] shallow(after)[j]).1 == orig[j].1 by {
        assert(shallow(before)[j].1 == orig[j].1);
    }
    assert forall|k: Seq<char>| k != key implies field(shallow(after), k) == field(shallow(before), k) by {
        lemma_field_agree(shallow(after), shallow(before), k, key);
    }
}

pub proof fn lemma_field_agree(a: Seq<(Seq<char>, JsonValue)>, b: Seq<(Seq<char>, JsonValue)>, k: Seq<char>, changed: Seq<char>)
    requires
        k != changed,
        a.len() == b.len(),
        forall|j: int| 0 <= j < a.len() ==> (#[trigger] a[j]).0 == b[j].0,
        forall|j: int| 0 <= j < a.len() && (#[trigger] a[j]).0 != changed ==> a[j].1 == b[j].1,
    ensures
        field(a, k) == field(b, k),
    decreases a.len(),
{
    if a.len() > 0 {
        lemma_field_agree(a.drop_first(), b.drop_first(), k, changed);
    }
}

fn is_node_key(k: &String) -> (r: bool)
    ensures
        r == node_keys().contains(k@),
{
    proof {
        lemma_node_keys();
    }
    let r = *k == String::from_str("id") || *k == String::from_str("name") || *k == String::from_str("trigger")
        || *k == String::from_str("type") || *k == String::from_str("parameters") || *k == String::from_str(
        "output",
    ) || *k == String::from_str("credentials") || *k == String::from_str("error");
    proof {
        if r {
            let i = if k@ == "id"@ { 0int } else if k@ == "name"@ { 1 } else if k@ == "trigger"@ { 2 } else if k@ == "type"@ { 3 } else if k@ == "parameters"@ { 4 } else if k@ == "output"@ { 5 } else if k@ == "credentials"@ { 6 } else { 7 };
            assert(node_keys()[i] == k@);
        }
    }
    r
}

fn is_edge_key(k: &String) -> (r: bool)
    ensures
        r == edge_keys().contains(k@),
{
    proof {
        lemma_edge_keys();
    }
    let r = *k == String::from_str("id") || *k == String::from_str("src") || *k == String::from_str("dst");
    proof {
        if r {
            let i = if k@ == "id"@ { 0int } else if k@ == "src"@ { 1 } else { 2 };
            assert(edge_keys()[i] == k@);
        }
    }
    r
}

/// Move out the members whose key is not reserved, each key at its first
/// occurrence, in order.
fn take_rest(f: &mut Vec<(String, JsonValue)>, for_nodes: bool) -> (r: Vec<(String, JsonValue)>)
    ensures
        shallow(r@) == rest_members(shallow(old(f)@), if for_nodes { node_keys() } else { edge_keys() }),
{
    let ghost reserved = if for_nodes { node_keys() } else { edge_keys() };
    let ghost g = shallow(f@);
    let mut rest: Vec<(String, JsonValue)> = Vec::new();
    let mut i: usize = 0;
    while i < f.len()
        invariant
            f@.len() == g.len(),
            i <= g.len(),
            reserved == if for_nodes { node_keys() } else { edge_keys() },
            forall|j: int| i <= j < g.len() ==> (#[trigger] shallow(f@)[j]) == g[j],
            shallow(rest@) =~= rest_members(g.take(i as int), reserved),
        decreases g.len() - i,
    {
        assert(shallow(f@)[i as int] == g[i as int]);
        let res = if for_nodes {
            is_node_key(&f[i].0)
        } else {
            is_edge_key(&f[i].0)
        };
        let dup = find_key(&rest, &f[i].0);
        let ghost prev = shallow(rest@);
        assert(g.take(i + 1).drop_last() =~= g.take(i as int));
        assert(g.take(i + 1).last() == g[i as int]);
        assert(dup is Some <==> keys_of(prev).contains(g[i as int].0)) by {
            if dup is Some {
                let d = dup->0 as int;
                assert(keys_of(prev)[d] == g[i as int].0);
            }
            if keys_of(prev).contains(g[i as int].0) {
                let d = choose|d: int| 0 <= d < keys_of(prev).len() && keys_of(prev)[d] == g[i as int].0;
                assert(rest@[d].0@ == f@[i as int].0@);
            }
        }
        if !res && dup.is_none() {
            let mut slot = (String::new(), JsonValue::Null);
            let ghost before = f@;
            f.set_and_swap(i, &mut slot);
            assert forall|j: int| i < j < g.len() implies (#[trigger] shallow(f@)[j]) == g[j] by {
                assert(f@[j] == before[j]);
                assert(shallow(before)[j] == g[j]);
            }
            rest.push(slot);
            assert(shallow(rest@) =~= prev.push(g[i as int]));
        }
        i = i + 1;
    }
    assert(g.take(g.len() as int) =~= g);
    rest
}

fn text_or_empty(found: Option<JsonValue>) -> (r: JsonValue)
    ensures
        text_slot(r, found),
{
    match found {
        Some(JsonValue::Str(s)) => JsonValue::Str(s),
        _ => JsonValue::Str(String::new()),
    }
}

fn object_or_empty(found: Option<JsonValue>) -> (r: JsonValue)
    ensures
        object_slot(r, found),
{
    match found {
        Some(JsonValue::Object(o)) => JsonValue::Object(o),
        _ => JsonValue::Object(Vec::new()),
    }
}

fn member(key: &str, v: JsonValue) -> (r: (String, JsonValue))
    ensures
        r.0@ == key@,
        r.1 == v,
{
    (String::from_str(key), v)
}

/// Give a node its mandatory fields: `id`, `name` and `type` become strings
/// (empty unless they were strings), `trigger` a boolean (false unless it
/// was one), `parameters` and `output` objects (empty unless they were
/// objects), and `credentials` and `error` null when absent. Other members
/// are kept.
pub fn normalize_node(node_val: JsonValue) -> (r: JsonValue)
    ensures
        r is Object,
        node_normalized(shallow(r->Object_0@), obj_members(node_val)),
{
    let ghost input = obj_members(node_val);
    let mut f = match node_val {
        JsonValue::Object(f) => f,
        _ => Vec::new(),
    };
    assert(shallow(f@) =~= input);
    proof {
        lemma_node_keys();
    }
    let ghost keys = node_keys();
    assert(agrees_outside(shallow(f@), input, keys));
    assert(keys.contains("id"@) && keys.contains("name"@) && keys.contains("trigger"@) && keys.contains("type"@)) by {
        assert(keys[0] == "id"@ && keys[1] == "name"@ && keys[2] == "trigger"@ && keys[3] == "type"@);
    }
    assert(keys.contains("parameters"@) && keys.contains("output"@) && keys.contains("error"@) && keys.contains("credentials"@)) by {
        assert(keys[4] == "parameters"@ && keys[5] == "output"@ && keys[6] == "credentials"@ && keys[7] == "error"@);
    }
    let ghost s0 = f@;
    let id = take_member(&mut f, "id");
    proof { lemma_take_agrees(s0, f@, input, "id"@, keys); }
    let ghost s1 = f@;
    let name = take_member(&mut f, "name");
    proof { lemma_take_agrees(s1, f@, input, "name"@, keys); }
    let ghost s2 = f@;
    let trigger = take_member(&mut f, "trigger");
    proof { lemma_take_agrees(s2, f@, input, "trigger"@, keys); }
    let ghost s3 = f@;
    let node_type = take_member(&mut f, "type");
    proof { lemma_take_agrees(s3, f@, input, "type"@, keys); }
    let ghost s4 = f@;
    let parameters = take_member(&mut f, "parameters");
    proof { lemma_take_agrees(s4, f@, input, "parameters"@, keys); }
    let ghost s5 = f@;
    let output = take_member(&mut f, "output");
    proof { lemma_take_agrees(s5, f@, input, "output"@, keys); }
    let ghost s6 = f@;
    let error = take_member(&mut f, "error");
    proof { lemma_take_agrees(s6, f@, input, "error"@, keys); }
    let ghost s7 = f@;
    let credentials = take_member(&mut f, "credentials");
    proof { lemma_take_agrees(s7, f@, input, "credentials"@, keys); }
    assert(id == field(input, "id"@));
    assert(name == field(input, "name"@));
    assert(trigger == field(input, "trigger"@));
    assert(node_type == field(input, "type"@));
    assert(parameters == field(input, "parameters"@));
    assert(output == field(input, "output"@));
    assert(error == field(input, "error"@));
    assert(credentials == field(input, "credentials"@));
    let trigger_v = match trigger {
        Some(JsonValue::Bool(b)) => JsonValue::Bool(b),
        _ => JsonValue::Bool(false),
    };
    let error_v = match error {
        Some(e) => e,
        None => JsonValue::Null,
    };
    let credentials_v = match credentials {
        Some(c) => c,
        None => JsonValue::Null,
    };
    let mut out: Vec<(String, JsonValue)> = Vec::new();
    out.push(member("id", text_or_empty(id)));
    out.push(member("name", text_or_empty(name)));
    out.push(member("trigger", trigger_v));
    out.push(member("type", text_or_empty(node_type)));
    out.push(member("parameters", object_or_empty(parameters)));
    out.push(member("output", object_or_empty(output)));
    out.push(member("credentials", credentials_v));
    out.push(member("error", error_v));
    let ghost head = shallow(out@);
    proof {
        lemma_rest_agree(shallow(f@), input, keys);
    }
    let mut rest = take_rest(&mut f, true);
    let ghost rest_v = rest@;
    out.append(&mut rest);
    assert(shallow(out@) =~= head + shallow(rest_v));
    assert(shallow(out@).skip(8) =~= shallow(rest_v));
    JsonValue::Object(out)
}

/// Give an edge string `id`, `src` and `dst` members: `id` unless it is a
/// string becomes the fallback id or else empty, `src` and `dst` unless
/// strings become empty. Other members are kept.
pub fn normalize_edge_with_id(edge: JsonValue, fallback_id: Option<String>) -> (r: JsonValue)
    ensures
        r is Object,
        edge_normalized(shallow(r->Object_0@), obj_members(edge), match fallback_id {
            Some(x) => Some(x@),
            None => None,
        }),
{
    let ghost input = obj_members(edge);
    let mut f = match edge {
        JsonValue::Object(f) => f,
        _ => Vec::new(),
    };
    assert(shallow(f@) =~= input);
    proof {
        lemma_edge_keys();
    }
    let ghost keys = edge_keys();
    assert(agrees_outside(shallow(f@), input, keys));
    assert(keys.contains("id"@) && keys.contains("src"@) && keys.contains("dst"@)) by {
        assert(keys[0] == "id"@ && keys[1] == "src"@ && keys[2] == "dst"@);
    }
    let ghost s0 = f@;
    let id = take_member(&mut f, "id");
    proof { lemma_take_agrees(s0, f@, input, "id"@, keys); }
    let ghost s1 = f@;
    let src = take_member(&mut f, "src");
    proof { lemma_take_agrees(s1, f@, input, "src"@, keys); }
    let ghost s2 = f@;
    let dst = take_member(&mut f, "dst");
    proof { lemma_take_agrees(s2, f@, input, "dst"@, keys); }
    assert(id == field(input, "id"@));
    assert(src == field(input, "src"@));
    assert(dst == field(input, "dst"@));
    let id_v = match id {
        Some(JsonValue::Str(s)) => JsonValue::Str(s),
        _ => match fallback_id {
            Some(x) => JsonValue::Str(x),
            None => JsonValue::Str(String::new()),
        },
    };
    let mut out: Vec<(String, JsonValue)> = Vec::new();
    out.push(member("id", id_v));
    out.push(member("src", text_or_empty(src)));
    out.push(member("dst", text_or_empty(dst)));
    let ghost head = shallow(out@);
    proof {
        lemma_rest_agree(shallow(f@), input, keys);
    }
    let mut rest = take_rest(&mut f, false);
    let ghost rest_v = rest@;
    out.append(&mut rest);
    assert(shallow(out@) =~= head + shallow(rest_v));
    assert(shallow(out@).skip(3) =~= shallow(rest_v));
    JsonValue::Object(out)
}

pub open spec fn normalized_object(v: JsonValue) -> Seq<(Seq<char>, JsonValue)> {
    shallow(v->Object_0@)
}

/// Each of `out` is the normalized edge of the matching raw edge: those of an
/// array in order, or those of an object with their keys as fallback ids.
pub open spec fn edges_normalized(out: Seq<JsonValue>, raw: Option<JsonValue>) -> bool {
    match raw {
        Some(JsonValue::Array(es)) => {
            &&& out.len() == es@.len()
            &&& forall|i: int| 0 <= i < out.len() ==> (#[trigger] out[i]) is Object && edge_normalized(
                normalized_object(out[i]),
                obj_members(es@[i]),
                None,
            )
        },
        Some(JsonValue::Object(m)) => {
            &&& out.len() == m@.len()
            &&& forall|i: int| 0 <= i < out.len() ==> (#[trigger] out[i]) is Object && edge_normalized(
                normalized_object(out[i]),
                obj_members(m@[i].1),
                Some(m@[i].0@),
            )
        },
        _ => out.len() == 0,
    }
}

/// Each of `out` is the normalized node of the matching raw node: those of
/// an array in order, or those of an object with their keys as default ids.
pub open spec fn nodes_normalized(out: Seq<JsonValue>, raw: Option<JsonValue>) -> bool {
    match raw {
        Some(JsonValue::Array(ns)) => {
            &&& out.len() == ns@.len()
            &&& forall|i: int| 0 <= i < out.len() ==> (#[trigger] out[i]) is Object && node_normalized(
                normalized_object(out[i]),
                obj_members(ns@[i]),
            )
        },
        Some(JsonValue::Object(m)) => {
            &&& out.len() == m@.len()
            &&& forall|i: int| 0 <= i < out.len() ==> (#[trigger] out[i]) is Object && node_normalized(
                normalized_object(out[i]),
                obj_members(m@[i].1) + seq![("id"@, JsonValue::Str(m@[i].0))],
            )
        },
        None => out.len() == 0,
        _ => out.len() == 0,
    }
}

/// Normalize the `edges` of a definition: an array of edges, or an object
/// from edge id to edge. Anything else gives no edges.
pub fn normalize_edges(raw_edges: Option<JsonValue>) -> (r: Vec<JsonValue>)
    ensures
        edges_normalized(r@, raw_edges),
{
    match raw_edges {
        Some(JsonValue::Array(edges)) => {
            let ghost es = edges@;
            let mut edges = edges;
            let mut out: Vec<JsonValue> = Vec::new();
            let mut i: usize = 0;
            while i < edges.len()
                invariant
                    edges@.len() == es.len(),
                    i <= es.len(),
                    out@.len() == i,
                    forall|j: int| i <= j < es.len() ==> #[trigger] edges@[j] == es[j],
                    forall|j: int| 0 <= j < i ==> (#[trigger] out@[j]) is Object && edge_normalized(
                        normalized_object(out@[j]),
                        obj_members(es[j]),
                        None,
                    ),
                decreases es.len() - i,
            {
                let mut slot = JsonValue::Null;
                edges.set_and_swap(i, &mut slot);
                out.push(normalize_edge_with_id(slot, None));
                i = i + 1;
            }
            out
        },
        Some(JsonValue::Object(map)) => {
            let ghost ms = map@;
            let mut map = map;
            let mut out: Vec<JsonValue> = Vec::new();
            let mut i: usize = 0;
            while i < map.len()
                invariant
                    map@.len() == ms.len(),
                    i <= ms.len(),
                    out@.len() == i,
                    forall|j: int| i <= j < ms.len() ==> #[trigger] map@[j] == ms[j],
                    forall|j: int| 0 <= j < i ==> (#[trigger] out@[j]) is Object && edge_normalized(
                        normalized_object(out@[j]),
                        obj_members(ms[j].1),
                        Some(ms[j].0@),
                    ),
                decreases ms.len() - i,
            {
                let mut slot = (String::new(), JsonValue::Null);
                map.set_and_swap(i, &mut slot);
                let (k, v) = slot;
                out.push(normalize_edge_with_id(v, Some(k)));
                i = i + 1;
            }
            out
        },
        _ => Vec::new(),
    }
}

/// Normalize the `nodes` of a definition: an array of nodes, or an object
/// from node id to node (the key is the id unless the node has one).
/// Anything else gives no nodes.
pub fn normalize_nodes(raw_nodes: Option<JsonValue>) -> (r: Vec<JsonValue>)
    ensures
        nodes_normalized(r@, raw_nodes),
{
    match raw_nodes {
        Some(JsonValue::Array(nodes)) => {
            let ghost ns = nodes@;
            let mut nodes = nodes;
            let mut out: Vec<JsonValue> = Vec::new();
            let mut i: usize = 0;
            while i < nodes.len()
                invariant
                    nodes@.len() == ns.len(),
                    i <= ns.len(),
                    out@.len() == i,
                    forall|j: int| i <= j < ns.len() ==> #[trigger] nodes@[j] == ns[j],
                    forall|j: int| 0 <= j < i ==> (#[trigger] out@[j]) is Object && node_normalized(
                        normalized_object(out@[j]),
                        obj_members(ns[j]),
                    ),
                decreases ns.len() - i,
            {
                let mut slot = JsonValue::Null;
                nodes.set_and_swap(i, &mut slot);
                out.push(normalize_node(slot));
                i = i + 1;
            }
            out
        },
        Some(JsonValue::Object(map)) => {
            let ghost ms = map@;
            let mut map = map;
            let mut out: Vec<JsonValue> = Vec::new();
            let mut i: usize = 0;
            while i < map.len()
                invariant
                    map@.len() == ms.len(),
                    i <= ms.len(),
                    out@.len() == i,
                    forall|j: int| i <= j < ms.len() ==> #[trigger] map@[j] == ms[j],
                    forall|j: int| 0 <= j < i ==> (#[trigger] out@[j]) is Object && node_normalized(
                        normalized_object(out@[j]),
                        obj_members(ms[j].1) + seq![("id"@, JsonValue::Str(ms[j].0))],
                    ),
                decreases ms.len() - i,
            {
                let mut slot = (String::new(), JsonValue::Null);
                map.set_and_swap(i, &mut slot);
                let (k, v) = slot;
                let ghost kv = k;
                let ghost vv = v;
                let mut fields = match v {
                    JsonValue::Object(o) => o,
                    _ => Vec::new(),
                };
                let ghost before = fields@;
                fields.push((String::from_str("id"), JsonValue::Str(k)));
                proof {
                    reveal_strlit("id");
                }
                assert(shallow(fields@) =~= obj_members(vv) + seq![("id"@, JsonValue::Str(kv))]);
                out.push(normalize_node(JsonValue::Object(fields)));
                i = i + 1;
            }
            out
        },
        _ => Vec::new(),
    }
}

/// Normalizing normalized nodes again changes none of them.
pub proof fn nodes_normalization_is_idempotent(raw: Option<JsonValue>, once: Seq<JsonValue>, twice: Seq<JsonValue>)
    requires
        nodes_normalized(once, raw),
        twice.len() == once.len(),
        forall|i: int| 0 <= i < twice.len() ==> (#[trigger] twice[i]) is Object && node_normalized(
            normalized_object(twice[i]),
            obj_members(once[i]),
        ),
    ensures
        forall|i: int| 0 <= i < twice.len() ==> #[trigger] normalized_object(twice[i]) == normalized_object(once[i]),
{
    assert forall|i: int| 0 <= i < twice.len() implies #[trigger] normalized_object(twice[i]) == normalized_object(once[i]) by {
        match raw {
            Some(JsonValue::Array(ns)) => {
                node_normalization_is_idempotent(obj_members(ns@[i]), normalized_object(once[i]), normalized_object(twice[i]));
            },
            Some(JsonValue::Object(m)) => {
                node_normalization_is_idempotent(
                    obj_members(m@[i].1) + seq![("id"@, JsonValue::Str(m@[i].0))],
                    normalized_object(once[i]),
                    normalized_object(twice[i]),
                );
            },
            _ => {},
        }
    }
}

/// Normalizing normalized edges again, as an array, changes none of them.
pub proof fn edges_normalization_is_idempotent(raw: Option<JsonValue>, once: Seq<JsonValue>, twice: Seq<JsonValue>)
    requires
        edges_normalized(once, raw),
        twice.len() == once.len(),
        forall|i: int| 0 <= i < twice.len() ==> (#[trigger] twice[i]) is Object && edge_normalized(
            normalized_object(twice[i]),
            obj_members(once[i]),
            None,
        ),
    ensures
        forall|i: int| 0 <= i < twice.len() ==> #[trigger] normalized_object(twice[i]) == normalized_object(once[i]),
{
    assert forall|i: int| 0 <= i < twice.len() implies #[trigger] normalized_object(twice[i]) == normalized_object(once[i]) by {
        match raw {
            Some(JsonValue::Array(es)) => {
                edge_normalization_is_idempotent(obj_members(es@[i]), None, normalized_object(once[i]), None, normalized_object(twice[i]));
            },
            Some(JsonValue::Object(m)) => {
                edge_normalization_is_idempotent(
                    obj_members(m@[i].1),
                    Some(m@[i].0@),
                    normalized_object(once[i]),
                    None,
                    normalized_object(twice[i]),
                );
            },
            _ => {},
        }
    }
}

/// `r` is the normalized definition of `raw`: an object whose `edges` and
/// `nodes` are arrays of the normalized edges and nodes of `raw`, and whose
/// other members are those of `raw`.
pub open spec fn workflow_normalized(r: JsonValue, raw: JsonValue) -> bool {
    &&& r is Object
    &&& field(normalized_object(r), "edges"@) is Some
    &&& field(normalized_object(r), "edges"@)->0 is Array
    &&& edges_normalized(field(normalized_object(r), "edges"@)->0->Array_0@, field(obj_members(raw), "edges"@))
    &&& field(normalized_object(r), "nodes"@) is Some
    &&& field(normalized_object(r), "nodes"@)->0 is Array
    &&& nodes_normalized(field(normalized_object(r), "nodes"@)->0->Array_0@, field(obj_members(raw), "nodes"@))
    &&& forall|k: Seq<char>|
        k != "edges"@ && k != "nodes"@ ==> #[trigger] field(normalized_object(r), k) == field(obj_members(raw), k)
}

/// Normalizing a normalized definition again keeps every member other than
/// `edges` and `nodes`, and each of its edges and nodes.
pub proof fn workflow_normalization_is_idempotent(raw: JsonValue, once: JsonValue, twice: JsonValue)
    requires
        workflow_normalized(once, raw),
        workflow_normalized(twice, once),
    ensures
        forall|k: Seq<char>|
            k != "edges"@ && k != "nodes"@ ==> #[trigger] field(normalized_object(twice), k) == field(
                normalized_object(once),
                k,
            ),
        ({
            let e1 = field(normalized_object(once), "edges"@)->0->Array_0@;
            let e2 = field(normalized_object(twice), "edges"@)->0->Array_0@;
            &&& e2.len() == e1.len()
            &&& forall|i: int| 0 <= i < e2.len() ==> #[trigger] normalized_object(e2[i]) == normalized_object(e1[i])
        }),
        ({
            let n1 = field(normalized_object(once), "nodes"@)->0->Array_0@;
            let n2 = field(normalized_object(twice), "nodes"@)->0->Array_0@;
            &&& n2.len() == n1.len()
            &&& forall|i: int| 0 <= i < n2.len() ==> #[trigger] normalized_object(n2[i]) == normalized_object(n1[i])
        }),
{
    assert(obj_members(once) == normalized_object(once));
    let e1 = field(normalized_object(once), "edges"@)->0->Array_0@;
    let e2 = field(normalized_object(twice), "edges"@)->0->Array_0@;
    let n1 = field(normalized_object(once), "nodes"@)->0->Array_0@;
    let n2 = field(normalized_object(twice), "nodes"@)->0->Array_0@;
    edges_normalization_is_idempotent(field(obj_members(raw), "edges"@), e1, e2);
    nodes_normalization_is_idempotent(field(obj_members(raw), "nodes"@), n1, n2);
}

/// Normalize a workflow definition: its `edges` and `nodes` members are
/// replaced by the normalized arrays (added when absent); other members stay.
pub fn normalize_workflow_definition(raw: JsonValue) -> (r: JsonValue)
    ensures
        workflow_normalized(r, raw),
{
    let ghost input = obj_members(raw);
    let mut f = match raw {
        JsonValue::Object(f) => f,
        _ => Vec::new(),
    };
    assert(shallow(f@) =~= input);
    let ghost s0 = f@;
    let edges_raw = take_member(&mut f, "edges");
    let ghost s1 = f@;
    let nodes_raw = take_member(&mut f, "nodes");
    let ghost s2 = f@;
    proof {
        reveal_strlit("edges");
        reveal_strlit("nodes");
        assert("edges"@.len() == 5 && "nodes"@.len() == 5 && "edges"@[0] != "nodes"@[0]);
        assert forall|k: Seq<char>| k != "edges"@ implies field(shallow(s1), k) == field(shallow(s0), k) by {
            lemma_field_agree(shallow(s1), shallow(s0), k, "edges"@);
        }
        assert forall|k: Seq<char>| k != "nodes"@ implies field(shallow(s2), k) == field(shallow(s1), k) by {
            lemma_field_agree(shallow(s2), shallow(s1), k, "nodes"@);
        }
    }
    let edges = normalize_edges(edges_raw);
    let nodes = normalize_nodes(nodes_raw);
    let ghost ev = edges@;
    let ghost nv = nodes@;
    let ghost s3 = f@;
    crate::keyed::upsert_entry(&mut f, String::from_str("edges"), JsonValue::Array(edges));
    let ghost s4 = f@;
    crate::keyed::upsert_entry(&mut f, String::from_str("nodes"), JsonValue::Array(nodes));
    proof {
        lemma_field_shallow(f@, "edges"@);
        lemma_field_shallow(f@, "nodes"@);
        lemma_field_shallow(s4, "edges"@);
        assert forall|k: Seq<char>| k != "edges"@ && k != "nodes"@ implies field(shallow(f@), k) == field(input, k) by {
            lemma_field_shallow(f@, k);
            lemma_field_shallow(s4, k);
            lemma_field_shallow(s3, k);
        }
    }
    JsonValue::Object(f)
}

} // verus!
