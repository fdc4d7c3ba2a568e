use rtes::grants::{index_keys, ExecutionToken};
use rtes::payload::{ExecutionTokenPayload, PayloadError};

fn payload(
    execution_id: Option<&str>,
    execution_ids: Option<Vec<&str>>,
    workflow_id: Option<&str>,
    workflow_ids: Option<Vec<&str>>,
) -> ExecutionTokenPayload {
    ExecutionTokenPayload {
        execution_id: execution_id.map(str::to_string),
        execution_ids: execution_ids.map(|v| v.into_iter().map(str::to_string).collect()),
        workflow_id: workflow_id.map(str::to_string),
        workflow_ids: workflow_ids.map(|v| v.into_iter().map(str::to_string).collect()),
        iat: 1,
        exp: 2,
        user_id: "u".to_string(),
    }
}

fn pairs(grants: &[ExecutionToken]) -> Vec<(String, Option<String>)> {
    grants.iter().map(|g| (g.workflow_id.clone(), g.execution_id.clone())).collect()
}

#[test]
fn single_ids_give_one_grant() {
    let g = payload(Some("e1"), None, Some("w1"), None).expand().unwrap();
    assert_eq!(pairs(&g), vec![("w1".to_string(), Some("e1".to_string()))]);
    assert_eq!(g[0].user_id, "u");
    assert_eq!((g[0].iat, g[0].exp), (1, 2));
}

#[test]
fn id_lists_give_the_cross_product() {
    let g = payload(None, Some(vec!["e1", "e2"]), None, Some(vec!["w1", "w2"])).expand().unwrap();
    assert_eq!(g.len(), 4);
    assert_eq!(
        pairs(&g),
        vec![
            ("w1".to_string(), Some("e1".to_string())),
            ("w1".to_string(), Some("e2".to_string())),
            ("w2".to_string(), Some("e1".to_string())),
            ("w2".to_string(), Some("e2".to_string())),
        ]
    );
}

#[test]
fn token_queue_payload_lands_in_every_index() {
    let g = payload(None, Some(vec!["e1", "e2"]), None, Some(vec!["w1", "w2"])).expand().unwrap();
    let mut keys: Vec<String> = g.iter().flat_map(index_keys).collect();
    keys.sort();
    keys.dedup();
    assert_eq!(keys, vec!["execution_id_e1", "execution_id_e2", "user_id_u"]);
    for token in &g {
        assert!(token.execution_id.is_some());
    }
}

#[test]
fn no_executions_give_one_wildcard_per_workflow() {
    let g = payload(None, Some(vec![]), Some("w1"), Some(vec!["w2"])).expand().unwrap();
    assert_eq!(pairs(&g), vec![("w1".to_string(), None), ("w2".to_string(), None)]);
    let keys: Vec<Vec<String>> = g.iter().map(index_keys).collect();
    assert_eq!(keys[0], vec!["user_id_u".to_string(), "workflow_id_w1".to_string()]);
}

#[test]
fn no_workflow_is_refused() {
    assert_eq!(payload(Some("e1"), None, None, None).expand(), Err(PayloadError::MissingWorkflowId));
    assert_eq!(
        payload(Some("e1"), None, Some("  "), Some(vec![""])).expand(),
        Err(PayloadError::MissingWorkflowId)
    );
}

#[test]
fn ids_are_trimmed_and_deduplicated() {
    let g = payload(Some(" e1 "), Some(vec!["e1", "e2", "", "e2 "]), Some("w1"), Some(vec![" w1"]))
        .expand()
        .unwrap();
    assert_eq!(
        pairs(&g),
        vec![("w1".to_string(), Some("e1".to_string())), ("w1".to_string(), Some("e2".to_string()))]
    );
}
