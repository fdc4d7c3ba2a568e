use rtes::json::JsonValue;
use rtes::normalize::{
    normalize_edge_with_id, normalize_edges, normalize_node, normalize_nodes,
    normalize_workflow_definition,
};

fn text(s: &str) -> JsonValue {
    JsonValue::Str(s.to_string())
}

fn obj(members: Vec<(&str, JsonValue)>) -> JsonValue {
    JsonValue::Object(members.into_iter().map(|(k, v)| (k.to_string(), v)).collect())
}

/// A printable form for comparisons: keys with values.
fn render(v: &JsonValue) -> String {
    match v {
        JsonValue::Null => "null".into(),
        JsonValue::Bool(b) => b.to_string(),
        JsonValue::Number(n) => n.clone(),
        JsonValue::Str(s) => format!("{s:?}"),
        JsonValue::Array(a) => format!("[{}]", a.iter().map(render).collect::<Vec<_>>().join(",")),
        JsonValue::Object(m) => format!(
            "{{{}}}",
            m.iter().map(|(k, v)| format!("{k:?}:{}", render(v))).collect::<Vec<_>>().join(",")
        ),
    }
}

#[test]
fn node_gets_defaults() {
    let n = normalize_node(obj(vec![("custom", JsonValue::Number("3".into())), ("trigger", text("yes"))]));
    assert_eq!(
        render(&n),
        "{\"id\":\"\",\"name\":\"\",\"trigger\":false,\"type\":\"\",\"parameters\":{},\"output\":{},\"credentials\":null,\"error\":null,\"custom\":3}"
    );
}

#[test]
fn node_keeps_valid_fields_and_credentials() {
    let n = normalize_node(obj(vec![
        ("id", text("n1")),
        ("credentials", text("secret")),
        ("error", text("boom")),
        ("parameters", obj(vec![("a", JsonValue::Bool(true))])),
        ("trigger", JsonValue::Bool(true)),
    ]));
    assert_eq!(
        render(&n),
        "{\"id\":\"n1\",\"name\":\"\",\"trigger\":true,\"type\":\"\",\"parameters\":{\"a\":true},\"output\":{},\"credentials\":\"secret\",\"error\":\"boom\"}"
    );
}

#[test]
fn node_normalization_is_idempotent_on_an_example() {
    let once = normalize_node(obj(vec![("x", JsonValue::Null), ("name", text("N")), ("output", text("bad"))]));
    let first = render(&once);
    let twice = normalize_node(once);
    assert_eq!(render(&twice), first);
}

#[test]
fn non_object_node_becomes_defaults() {
    let n = normalize_node(JsonValue::Number("1".into()));
    assert!(render(&n).starts_with("{\"id\":\"\""));
}

#[test]
fn edges_from_array_and_from_map() {
    let arr = normalize_edges(Some(JsonValue::Array(vec![obj(vec![("src", text("a")), ("w", text("x"))])])));
    assert_eq!(render(&arr[0]), "{\"id\":\"\",\"src\":\"a\",\"dst\":\"\",\"w\":\"x\"}");
    let map = normalize_edges(Some(obj(vec![("e1", obj(vec![("dst", text("b"))])), ("e2", obj(vec![("id", text("own"))]))])));
    assert_eq!(render(&map[0]), "{\"id\":\"e1\",\"src\":\"\",\"dst\":\"b\"}");
    assert_eq!(render(&map[1]), "{\"id\":\"own\",\"src\":\"\",\"dst\":\"\"}");
    assert!(normalize_edges(Some(text("nope"))).is_empty());
    assert!(normalize_edges(None).is_empty());
}

#[test]
fn edge_normalization_is_idempotent_on_an_example() {
    let once = normalize_edge_with_id(obj(vec![("src", JsonValue::Bool(true))]), Some("fallback".into()));
    let first = render(&once);
    assert_eq!(render(&normalize_edge_with_id(once, None)), first);
}

#[test]
fn nodes_from_map_take_their_key_as_id() {
    let ns = normalize_nodes(Some(obj(vec![("k1", obj(vec![])), ("k2", obj(vec![("id", text("own"))]))])));
    assert!(render(&ns[0]).starts_with("{\"id\":\"k1\""));
    assert!(render(&ns[1]).starts_with("{\"id\":\"own\""));
    let arr = normalize_nodes(Some(JsonValue::Array(vec![text("x")])));
    assert_eq!(arr.len(), 1);
    assert!(normalize_nodes(None).is_empty());
}

#[test]
fn workflow_definition_replaces_edges_and_nodes() {
    let w = normalize_workflow_definition(obj(vec![
        ("name", text("wf")),
        ("edges", obj(vec![("e1", obj(vec![]))])),
    ]));
    assert_eq!(
        render(&w),
        "{\"name\":\"wf\",\"edges\":[{\"id\":\"e1\",\"src\":\"\",\"dst\":\"\"}],\"nodes\":[]}"
    );
    let again = normalize_workflow_definition(w);
    assert_eq!(
        render(&again),
        "{\"name\":\"wf\",\"edges\":[{\"id\":\"e1\",\"src\":\"\",\"dst\":\"\"}],\"nodes\":[]}"
    );
}
