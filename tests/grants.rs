use rtes::grants::{
    check_token_permissions, execution_key, index_keys, ttl_extension, user_key, validate_access,
    validate_access_for_execution, validate_execution_access, validate_workflow_access, workflow_key,
    ExecutionToken,
};

fn grant(exec: Option<&str>, wf: &str, user: &str) -> ExecutionToken {
    ExecutionToken {
        execution_id: exec.map(str::to_string),
        workflow_id: wf.to_string(),
        iat: 1,
        exp: 2,
        user_id: user.to_string(),
    }
}

fn s(x: &str) -> String {
    x.to_string()
}

#[test]
fn permission_table_rows() {
    let wild = grant(None, "wf", "u");
    let spec = grant(Some("e1"), "wf", "u");
    assert!(check_token_permissions(&wild, None, &s("wf")));
    assert!(!check_token_permissions(&spec, None, &s("wf")));
    assert!(check_token_permissions(&wild, Some(&s("e9")), &s("wf")));
    assert!(check_token_permissions(&spec, Some(&s("e1")), &s("wf")));
    assert!(!check_token_permissions(&spec, Some(&s("e2")), &s("wf")));
}

#[test]
fn permission_needs_the_same_workflow() {
    assert!(!check_token_permissions(&grant(None, "other", "u"), None, &s("wf")));
    assert!(!check_token_permissions(&grant(Some("e1"), "other", "u"), Some(&s("e1")), &s("wf")));
}

#[test]
fn validate_access_skips_undecodable_members() {
    let members = vec![None, Some(grant(Some("e1"), "wf", "u"))];
    assert!(validate_access(&members, Some(&s("e1")), &s("wf")));
    assert!(!validate_access(&members, Some(&s("e2")), &s("wf")));
    assert!(!validate_access(&members, None, &s("wf")));
    assert!(!validate_access(&vec![None], None, &s("wf")));
}

#[test]
fn validate_access_for_execution_ignores_workflow() {
    let members = vec![Some(grant(Some("e1"), "wf-a", "u"))];
    assert!(validate_access_for_execution(&members, &s("e1")));
    assert!(!validate_access_for_execution(&members, &s("e2")));
    let wild = vec![Some(grant(None, "wf-b", "u"))];
    assert!(validate_access_for_execution(&wild, &s("anything")));
}

#[test]
fn validate_execution_access_checks_workflow() {
    let members = vec![Some(grant(Some("e1"), "wf-1", "u"))];
    assert!(validate_execution_access(&members, &s("wf-1")));
    assert!(!validate_execution_access(&members, &s("wf-2")));
    assert!(!validate_execution_access(&vec![], &s("wf-1")));
}

#[test]
fn validate_workflow_access_needs_a_wildcard() {
    assert!(validate_workflow_access(&vec![Some(grant(None, "wf", "u"))]));
    assert!(!validate_workflow_access(&vec![Some(grant(Some("e"), "wf", "u")), None]));
    assert!(!validate_workflow_access(&vec![]));
}

#[test]
fn keys_are_prefixed() {
    assert_eq!(user_key(&s("u1")), "user_id_u1");
    assert_eq!(execution_key(&s("e1")), "execution_id_e1");
    assert_eq!(workflow_key(&s("w1")), "workflow_id_w1");
}

#[test]
fn index_keys_follow_the_grant_kind() {
    assert_eq!(index_keys(&grant(Some("e1"), "w1", "u1")), vec![s("user_id_u1"), s("execution_id_e1")]);
    assert_eq!(index_keys(&grant(None, "w1", "u1")), vec![s("user_id_u1"), s("workflow_id_w1")]);
}

#[test]
fn ttl_extends_to_remaining_life() {
    assert_eq!(ttl_extension(-2, 1_100, 1_000), Some(100));
    assert_eq!(ttl_extension(-1, 1_100, 1_000), Some(100));
    assert_eq!(ttl_extension(50, 1_100, 1_000), Some(100));
    assert_eq!(ttl_extension(500, 1_100, 1_000), None);
    assert_eq!(ttl_extension(-2, 1_000, 1_000), None);
    assert_eq!(ttl_extension(-2, 900, 1_000), None);
    assert_eq!(ttl_extension(-2, i64::MAX, i64::MIN), Some(i64::MAX));
}
