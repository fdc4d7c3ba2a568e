use rtes::document::{
    completion_backfill_step, effective_lineage_hash, plan_status_write, record_completion,
    record_definition, record_node_status, BackfillStep,
};
use rtes::json::JsonValue;
use rtes::lineage::{compute_lineage_hash, StackFrame};
use rtes::models::{
    CompletionMessage, ExecutionDocument, HydratedNode, NodeExecutionInstance, NodeExecutionMessage,
    NodeStatusMessage,
};
use rtes::retry::RetryPolicy;

fn text(s: &str) -> JsonValue {
    JsonValue::Str(s.to_string())
}

fn obj(members: Vec<(&str, JsonValue)>) -> JsonValue {
    JsonValue::Object(members.into_iter().map(|(k, v)| (k.to_string(), v)).collect())
}

fn doc(exec: &str, wf: &str) -> ExecutionDocument {
    ExecutionDocument {
        execution_id: exec.to_string(),
        workflow_id: wf.to_string(),
        accumulated_context: None,
        nodes: Vec::new(),
        edges: Vec::new(),
        status: None,
        name: None,
        node_type: None,
        created_at: Some(10),
        updated_at: Some(10),
    }
}

fn status(node: &str, stack: Option<Vec<StackFrame>>, hash: Option<&str>) -> NodeStatusMessage {
    NodeStatusMessage {
        workflow_id: "wf-1".into(),
        execution_id: "exec-1".into(),
        node_id: node.into(),
        node_name: "Example".into(),
        status: "success".into(),
        input: Some("{\"foo\":\"bar\"}".into()),
        parameters: Some("{\"p\":1}".into()),
        output: Some("{\"out\":42}".into()),
        error: None,
        executed_at: "2025-01-01T00:00:00Z".into(),
        duration_ms: 10,
        branch_id: Some("A".into()),
        split_node_id: Some("split-1".into()),
        item_index: Some(0),
        total_items: Some(1),
        processed_count: None,
        aggregator_state: None,
        lineage_stack: stack,
        lineage_hash: hash.map(str::to_string),
        used_inputs: Some("{\"foo\":\"bar\"}".into()),
    }
}

fn stack() -> Vec<StackFrame> {
    vec![StackFrame { split_node_id: "split-1".into(), branch_id: "A".into(), item_index: 0, total_items: 1 }]
}

fn node<'a>(d: &'a ExecutionDocument, id: &str) -> &'a HydratedNode {
    &d.nodes.iter().find(|(k, _)| k == id).expect("node present").1
}

#[test]
fn stack_hash_wins_over_sent_hash() {
    let m = status("n", Some(stack()), Some("hash-123"));
    assert_eq!(effective_lineage_hash(&m), compute_lineage_hash(&stack()).unwrap());
    assert_eq!(effective_lineage_hash(&status("n", Some(vec![]), Some("hash-123"))), "hash-123");
    assert_eq!(effective_lineage_hash(&status("n", None, None)), "default");
}

#[test]
fn status_with_stack_sets_latest_and_lineage() {
    let mut d = doc("exec-1", "wf-1");
    record_node_status(&mut d, &status("node-1", Some(stack()), None), 20);
    let n = node(&d, "node-1");
    let h = compute_lineage_hash(&stack()).unwrap();
    let latest = n.latest.clone().expect("latest");
    assert_eq!(n.lineages.len(), 1);
    assert_eq!(n.lineages[0].0, h);
    assert_eq!(n.lineages[0].1, latest);
    assert_eq!(latest.lineage_hash, Some(h));
    assert_eq!(latest.status.as_deref(), Some("success"));
    assert_eq!(latest.output.as_deref(), Some("{\"out\":42}"));
    assert_eq!(latest.branch_id.as_deref(), Some("A"));
    assert_eq!(d.updated_at, Some(20));
    assert_eq!(d.created_at, Some(10));
}

#[test]
fn status_without_lineage_sets_only_latest() {
    let mut d = doc("exec-1", "wf-1");
    record_node_status(&mut d, &status("node-1", None, None), 5);
    let n = node(&d, "node-1");
    assert!(n.lineages.is_empty());
    assert_eq!(n.latest.as_ref().unwrap().lineage_hash, None);
    assert_eq!(d.updated_at, Some(10));
}

#[test]
fn lineages_accumulate_per_branch_and_other_nodes_stay() {
    let mut d = doc("exec-1", "wf-1");
    record_node_status(&mut d, &status("node-1", None, Some("h1")), 20);
    record_node_status(&mut d, &status("node-1", None, Some("h2")), 21);
    record_node_status(&mut d, &status("node-2", None, Some("h1")), 22);
    record_node_status(&mut d, &status("node-1", None, Some("h1")), 23);
    assert_eq!(d.nodes.len(), 2);
    let keys: Vec<&str> = node(&d, "node-1").lineages.iter().map(|(k, _)| k.as_str()).collect();
    assert_eq!(keys, vec!["h1", "h2"]);
    assert_eq!(node(&d, "node-2").lineages.len(), 1);
}

#[test]
fn name_and_type_are_carried_from_the_definition() {
    let mut d = doc("exec-1", "wf-1");
    d.nodes.push((
        "node-1".into(),
        HydratedNode {
            latest: None,
            lineages: vec![],
            extra: vec![("name".into(), text("Fetch")), ("type".into(), text("http"))],
        },
    ));
    let w = plan_status_write(&d, &status("node-1", None, None));
    assert_eq!(w.instance.name.as_deref(), Some("Fetch"));
    assert_eq!(w.instance.node_type.as_deref(), Some("http"));
    assert_eq!(w.lineage_key, None);
    record_node_status(&mut d, &status("node-1", None, None), 30);
    let n = node(&d, "node-1");
    assert_eq!(n.extra.len(), 2);
    assert_eq!(n.latest.as_ref().unwrap().name.as_deref(), Some("Fetch"));
}

#[test]
fn name_of_latest_result_wins() {
    let mut d = doc("exec-1", "wf-1");
    d.nodes.push((
        "node-1".into(),
        HydratedNode {
            latest: Some(NodeExecutionInstance { name: Some("Latest".into()), ..Default::default() }),
            lineages: vec![],
            extra: vec![("name".into(), text("Def")), ("type".into(), JsonValue::Bool(true))],
        },
    ));
    let w = plan_status_write(&d, &status("node-1", None, None));
    assert_eq!(w.instance.name.as_deref(), Some("Latest"));
    assert_eq!(w.instance.node_type, None);
}

#[test]
fn completion_sets_status() {
    let mut d = doc("exec-1", "wf-1");
    let c = CompletionMessage {
        workflow_id: "wf-1".into(),
        execution_id: "exec-1".into(),
        status: "completed".into(),
        final_context: "{}".into(),
        completed_at: "now".into(),
        total_duration_ms: 5,
        failure_reason: None,
    };
    record_completion(&mut d, &c, 50);
    assert_eq!(d.status.as_deref(), Some("completed"));
    assert_eq!(d.updated_at, Some(50));
}

#[test]
fn completion_backfill_waits_then_gives_up() {
    let p = RetryPolicy::completion_backfill();
    let mut state = p.start();
    let mut waits = vec![];
    loop {
        let (next, step) = completion_backfill_step(&p, state, false);
        state = next;
        match step {
            BackfillStep::Wait(ms) => waits.push(ms),
            BackfillStep::GiveUp => break,
            BackfillStep::Done => panic!("no document was found"),
        }
    }
    assert_eq!(waits, vec![1000, 2000, 4000, 8000, 16000]);
    assert_eq!(completion_backfill_step(&p, p.start(), true).1, BackfillStep::Done);
}

#[test]
fn definition_creates_document_with_normalized_nodes() {
    let def = obj(vec![
        ("nodes", obj(vec![("n1", obj(vec![("name", text("First"))])), ("n2", obj(vec![]))])),
        ("edges", JsonValue::Array(vec![obj(vec![("src", text("n1")), ("dst", text("n2"))])])),
    ]);
    let msg = NodeExecutionMessage {
        workflow_id: "wf-1".into(),
        execution_id: "exec-1".into(),
        current_node: "n1".into(),
        workflow_definition: def,
        accumulated_context: "{}".into(),
        lineage_stack: None,
        from_node: None,
        is_worker_initiated: None,
    };
    let d = record_definition(None, msg, 77);
    assert_eq!(d.created_at, Some(77));
    assert_eq!(d.updated_at, Some(77));
    assert_eq!(d.status, None);
    assert_eq!(d.nodes.len(), 2);
    let n1 = node(&d, "n1");
    assert!(n1.latest.is_none());
    let name = n1.extra.iter().find(|(k, _)| k == "name").unwrap();
    assert!(matches!(&name.1, JsonValue::Str(s) if s == "First"));
    assert_eq!(n1.extra.len(), 8);
    assert_eq!(d.edges.len(), 1);
    match &d.edges[0] {
        JsonValue::Object(m) => {
            assert_eq!(m[0].0, "id");
            assert!(matches!(&m[0].1, JsonValue::Str(s) if s.is_empty()));
            assert!(matches!(&m[1].1, JsonValue::Str(s) if s == "n1"));
        },
        other => panic!("edge is not an object: {other:?}"),
    }
}

#[test]
fn definition_keeps_status_and_creation_of_existing_document() {
    let mut existing = doc("exec-1", "wf-1");
    existing.status = Some("completed".into());
    let msg = NodeExecutionMessage {
        workflow_id: "wf-1".into(),
        execution_id: "exec-1".into(),
        current_node: "n1".into(),
        workflow_definition: JsonValue::Null,
        accumulated_context: "{\"a\":1}".into(),
        lineage_stack: None,
        from_node: None,
        is_worker_initiated: None,
    };
    let d = record_definition(Some(existing), msg, 5);
    assert_eq!(d.status.as_deref(), Some("completed"));
    assert_eq!(d.created_at, Some(10));
    assert_eq!(d.updated_at, Some(10));
    assert!(d.nodes.is_empty());
    assert_eq!(d.accumulated_context.as_deref(), Some("{\"a\":1}"));
}
