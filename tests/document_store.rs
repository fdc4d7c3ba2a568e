use rtes::document_store::DocumentStore;
use rtes::json::JsonValue;
use rtes::lineage::{compute_lineage_hash, StackFrame};
use rtes::models::{CompletionMessage, NodeExecutionMessage, NodeStatusMessage};

fn activation(exec: &str, wf: &str) -> NodeExecutionMessage {
    NodeExecutionMessage {
        workflow_id: wf.into(),
        execution_id: exec.into(),
        current_node: "node-1".into(),
        workflow_definition: JsonValue::Object(vec![(
            "nodes".into(),
            JsonValue::Array(vec![JsonValue::Object(vec![("id".into(), JsonValue::Str("node-1".into()))])]),
        )]),
        accumulated_context: "{}".into(),
        lineage_stack: None,
        from_node: None,
        is_worker_initiated: None,
    }
}

fn status(exec: &str, stack: Option<Vec<StackFrame>>) -> NodeStatusMessage {
    NodeStatusMessage {
        workflow_id: "wf-1".into(),
        execution_id: exec.into(),
        node_id: "node-1".into(),
        node_name: "Node".into(),
        status: "running".into(),
        input: None,
        parameters: None,
        output: None,
        error: None,
        executed_at: "t".into(),
        duration_ms: 0,
        branch_id: None,
        split_node_id: None,
        item_index: None,
        total_items: None,
        processed_count: None,
        aggregator_state: None,
        lineage_stack: stack,
        lineage_hash: None,
        used_inputs: None,
    }
}

fn completion(exec: &str) -> CompletionMessage {
    CompletionMessage {
        workflow_id: "wf-1".into(),
        execution_id: exec.into(),
        status: "completed".into(),
        final_context: "{}".into(),
        completed_at: "t".into(),
        total_duration_ms: 0,
        failure_reason: None,
    }
}

#[test]
fn events_before_the_document_change_nothing() {
    let mut store = DocumentStore::new();
    assert!(!store.update_node_status(&status("exec-1", None), 1));
    assert!(!store.complete_execution(&completion("exec-1"), 1));
    assert!(store.get_execution_document(&"exec-1".to_string()).is_none());
}

#[test]
fn activation_then_status_then_completion() {
    let mut store = DocumentStore::new();
    store.upsert_execution_definition(activation("exec-1", "wf-1"), 10);
    let stack = vec![StackFrame { split_node_id: "s".into(), branch_id: "b".into(), item_index: 1, total_items: 2 }];
    assert!(store.update_node_status(&status("exec-1", Some(stack.clone())), 20));
    assert!(store.complete_execution(&completion("exec-1"), 30));
    store.upsert_execution_definition(activation("exec-1", "wf-1"), 5);

    let doc = store.get_execution_document(&"exec-1".to_string()).expect("document");
    assert_eq!(doc.created_at, Some(10));
    assert_eq!(doc.updated_at, Some(30));
    assert_eq!(doc.status.as_deref(), Some("completed"));
    let node = &doc.nodes.iter().find(|(k, _)| k == "node-1").unwrap().1;
    assert!(node.latest.is_none());
}

#[test]
fn status_writes_latest_and_lineage_in_store() {
    let mut store = DocumentStore::new();
    store.upsert_execution_definition(activation("exec-1", "wf-1"), 10);
    let stack = vec![StackFrame { split_node_id: "s".into(), branch_id: "b".into(), item_index: 1, total_items: 2 }];
    assert!(store.update_node_status(&status("exec-1", Some(stack.clone())), 20));
    let doc = store.get_execution_document(&"exec-1".to_string()).unwrap();
    let node = &doc.nodes.iter().find(|(k, _)| k == "node-1").unwrap().1;
    let h = compute_lineage_hash(&stack).unwrap();
    let entry = &node.lineages.iter().find(|(k, _)| *k == h).unwrap().1;
    assert_eq!(Some(entry.clone()), node.latest.clone());
    assert_eq!(node.extra.len(), 8);
}

#[test]
fn workflow_listing() {
    let mut store = DocumentStore::new();
    store.upsert_execution_definition(activation("exec-1", "wf-1"), 1);
    store.upsert_execution_definition(activation("exec-2", "wf-2"), 1);
    store.upsert_execution_definition(activation("exec-3", "wf-1"), 1);
    let ids: Vec<&str> = store
        .get_executions_for_workflow(&"wf-1".to_string())
        .iter()
        .map(|d| d.execution_id.as_str())
        .collect();
    assert_eq!(ids, vec!["exec-1", "exec-3"]);
    assert!(store.get_executions_for_workflow(&"wf-9".to_string()).is_empty());
}
