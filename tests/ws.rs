use rtes::models::{
    CompletionMessage, ExecutionDocument, HydratedNode, NodeExecutionInstance, NodeExecutionMessage,
    NodeStatusMessage, WorkerMessage,
};
use rtes::json::JsonValue;
use rtes::ws::{history_updates, live_update, should_forward, WsNodeUpdate};

fn status_msg(exec: &str, node: &str, status: &str) -> NodeStatusMessage {
    NodeStatusMessage {
        workflow_id: "wf-1".into(),
        execution_id: exec.into(),
        node_id: node.into(),
        node_name: "Node Live".into(),
        status: status.into(),
        input: None,
        parameters: Some("{\"p\":1}".into()),
        output: Some("{\"o\":2}".into()),
        error: None,
        executed_at: "2026-01-01T00:00:00Z".into(),
        duration_ms: 1,
        branch_id: None,
        split_node_id: None,
        item_index: Some(3),
        total_items: None,
        processed_count: None,
        aggregator_state: None,
        lineage_stack: None,
        lineage_hash: Some("h".into()),
        used_inputs: None,
    }
}

fn completion(exec: &str) -> CompletionMessage {
    CompletionMessage {
        workflow_id: "wf-1".into(),
        execution_id: exec.into(),
        status: "failed".into(),
        final_context: "{}".into(),
        completed_at: "t".into(),
        total_duration_ms: 1,
        failure_reason: None,
    }
}

fn activation() -> NodeExecutionMessage {
    NodeExecutionMessage {
        workflow_id: "wf-1".into(),
        execution_id: "exec-1".into(),
        current_node: "n".into(),
        workflow_definition: JsonValue::Null,
        accumulated_context: "{}".into(),
        lineage_stack: None,
        from_node: None,
        is_worker_initiated: None,
    }
}

fn doc_with_one_node() -> ExecutionDocument {
    ExecutionDocument {
        execution_id: "exec-1".into(),
        workflow_id: "wf-1".into(),
        accumulated_context: None,
        nodes: vec![(
            "node-1".into(),
            HydratedNode {
                latest: Some(NodeExecutionInstance { status: Some("running".into()), ..Default::default() }),
                lineages: vec![],
                extra: vec![],
            },
        )],
        edges: vec![],
        status: None,
        name: None,
        node_type: None,
        created_at: None,
        updated_at: None,
    }
}

#[test]
fn status_translates_field_for_field() {
    let u = WsNodeUpdate::from_message(&WorkerMessage::NodeStatus(Box::new(status_msg("exec-1", "node-live", "running"))));
    assert_eq!(u.node_id.as_deref(), Some("node-live"));
    assert_eq!(u.status.as_deref(), Some("running"));
    assert_eq!(u.params.as_deref(), Some("{\"p\":1}"));
    assert_eq!(u.output.as_deref(), Some("{\"o\":2}"));
    assert_eq!(u.item_index, Some(3));
    assert_eq!(u.lineage_hash.as_deref(), Some("h"));
}

#[test]
fn completion_and_activation_translate_to_bare_status() {
    let c = WsNodeUpdate::from_message(&WorkerMessage::WorkflowCompletion(Box::new(completion("exec-1"))));
    assert_eq!(c, WsNodeUpdate { status: Some("completed".into()), ..Default::default() });
    let a = WsNodeUpdate::from_message(&WorkerMessage::NodeExecution(Box::new(activation())));
    assert_eq!(a, WsNodeUpdate { status: Some("unknown error".into()), ..Default::default() });
}

#[test]
fn sessions_see_only_their_execution() {
    let mine = WorkerMessage::NodeStatus(Box::new(status_msg("exec-1", "n", "running")));
    let other = WorkerMessage::NodeStatus(Box::new(status_msg("exec-2", "n", "running")));
    let done = WorkerMessage::WorkflowCompletion(Box::new(completion("exec-1")));
    let act = WorkerMessage::NodeExecution(Box::new(activation()));
    let id = "exec-1".to_string();
    assert!(should_forward(&mine, &id));
    assert!(!should_forward(&other, &id));
    assert!(should_forward(&done, &id));
    assert!(!should_forward(&act, &id));
    assert!(live_update(&other, &id).is_none());
    assert!(live_update(&act, &id).is_none());
    assert_eq!(live_update(&done, &id).unwrap().status.as_deref(), Some("completed"));
}

#[test]
fn history_then_live() {
    let history = history_updates(&doc_with_one_node());
    assert_eq!(history.len(), 1);
    assert_eq!(history[0].node_id.as_deref(), Some("node-1"));
    let live = live_update(
        &WorkerMessage::NodeStatus(Box::new(status_msg("exec-1", "node-live", "running"))),
        &"exec-1".to_string(),
    )
    .expect("live frame");
    assert_eq!(live.node_id.as_deref(), Some("node-live"));
    assert_eq!(live.status.as_deref(), Some("running"));
}

#[test]
fn history_lists_lineages_then_final_status() {
    let mut d = doc_with_one_node();
    d.nodes[0].1.lineages = vec![
        ("h1".into(), NodeExecutionInstance { status: Some("success".into()), ..Default::default() }),
        ("h2".into(), NodeExecutionInstance { status: Some("failed".into()), ..Default::default() }),
    ];
    d.nodes.push(("node-2".into(), HydratedNode { latest: None, lineages: vec![], extra: vec![] }));
    d.status = Some("completed".into());
    let h = history_updates(&d);
    let statuses: Vec<Option<&str>> = h.iter().map(|u| u.status.as_deref()).collect();
    assert_eq!(statuses, vec![Some("success"), Some("failed"), Some("completed")]);
    assert_eq!(h[2].node_id, None);
}
