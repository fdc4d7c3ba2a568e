use rtes::grant_store::GrantStore;
use rtes::grants::ExecutionToken;
use rtes::payload::ExecutionTokenPayload;

fn s(x: &str) -> String {
    x.to_string()
}

fn grant(exec: Option<&str>, wf: &str, user: &str, exp: i64) -> ExecutionToken {
    ExecutionToken { execution_id: exec.map(str::to_string), workflow_id: s(wf), iat: 0, exp, user_id: s(user) }
}

fn count(store: &mut GrantStore, key: &str) -> usize {
    store.active_members(&s(key), 0).len()
}

#[test]
fn token_payload_grants_land_in_all_indexes() {
    let payload = ExecutionTokenPayload {
        execution_id: None,
        execution_ids: Some(vec![s("e1"), s("e2")]),
        workflow_id: None,
        workflow_ids: Some(vec![s("w1"), s("w2")]),
        iat: 1,
        exp: 2,
        user_id: s("u"),
    };
    let mut store = GrantStore::new();
    for g in payload.expand().unwrap() {
        store.add_token(&g);
    }
    assert_eq!(count(&mut store, "user_id_u"), 4);
    assert_eq!(count(&mut store, "execution_id_e1"), 2);
    assert_eq!(count(&mut store, "execution_id_e2"), 2);
    assert_eq!(count(&mut store, "workflow_id_w1"), 0);
    assert!(store.validate_execution_access(&s("e1"), &s("w2"), 0));
    assert!(!store.validate_execution_access(&s("e1"), &s("w3"), 0));
    assert!(store.validate_access(&s("u"), Some(&s("e2")), &s("w1"), 0));
    assert!(!store.validate_access(&s("u"), None, &s("w1"), 0));
}

#[test]
fn wildcard_grant_is_indexed_by_workflow() {
    let mut store = GrantStore::new();
    store.add_token(&grant(None, "w1", "u", 100));
    assert!(store.validate_workflow_access(&s("w1"), 10));
    assert!(!store.validate_workflow_access(&s("w2"), 10));
    assert!(store.validate_access(&s("u"), None, &s("w1"), 10));
    assert!(store.validate_access_for_execution(&s("u"), &s("any"), 10));
}

#[test]
fn same_grant_is_kept_once() {
    let mut store = GrantStore::new();
    store.add_token(&grant(Some("e"), "w", "u", 100));
    store.add_token(&grant(Some("e"), "w", "u", 100));
    assert_eq!(count(&mut store, "user_id_u"), 1);
}

#[test]
fn expired_grants_are_invisible_and_swept() {
    let mut store = GrantStore::new();
    store.add_token(&grant(Some("e"), "w", "u", 50));
    assert!(store.validate_execution_access(&s("e"), &s("w"), 49));
    assert!(!store.validate_execution_access(&s("e"), &s("w"), 50));
    assert_eq!(count(&mut store, "execution_id_e"), 0);
    assert_eq!(store.active_members(&s("user_id_u"), 0).len(), 1);
}
