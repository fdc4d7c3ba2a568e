use rtes::access::{
    access_status, execution_access_plan, lookup_status, websocket_query, websocket_status,
    workflow_access_plan, AccessPlan, AccessQuery, Credential, StoreError,
};

fn s(x: &str) -> String {
    x.to_string()
}

#[test]
fn execution_with_valid_jwt_is_checked_for_the_user() {
    let plan = execution_access_plan(&Credential::User(s("user-1")), &s("exec-1"), &s("wf-1"));
    let q = AccessQuery::UserExecution { user_id: s("user-1"), execution_id: s("exec-1") };
    assert_eq!(plan, AccessPlan::Check(q.clone()));
    assert_eq!(access_status(&q, Ok(true)), 200);
    assert_eq!(access_status(&q, Ok(false)), 403);
    assert_eq!(access_status(&q, Err(StoreError)), 500);
}

#[test]
fn execution_without_jwt_uses_the_execution_grant() {
    let plan = execution_access_plan(&Credential::Absent, &s("exec-2"), &s("wf-2"));
    let q = AccessQuery::ExecutionGrant { execution_id: s("exec-2"), workflow_id: s("wf-2") };
    assert_eq!(plan, AccessPlan::Check(q.clone()));
    assert_eq!(access_status(&q, Ok(true)), 200);
    assert_eq!(access_status(&q, Ok(false)), 401);
}

#[test]
fn workflow_listing_without_jwt_refused_is_unauthorized() {
    let plan = workflow_access_plan(&Credential::Absent, &s("wf-1"));
    let q = AccessQuery::WorkflowGrant { workflow_id: s("wf-1") };
    assert_eq!(plan, AccessPlan::Check(q.clone()));
    assert_eq!(access_status(&q, Ok(false)), 401);
}

#[test]
fn workflow_listing_with_jwt_checks_wildcard_access() {
    let plan = workflow_access_plan(&Credential::User(s("user-1")), &s("wf-1"));
    let q = AccessQuery::UserWorkflow { user_id: s("user-1"), workflow_id: s("wf-1") };
    assert_eq!(plan, AccessPlan::Check(q.clone()));
    assert_eq!(access_status(&q, Ok(true)), 200);
    assert_eq!(access_status(&q, Ok(false)), 403);
}

#[test]
fn bad_token_is_unauthorized() {
    assert_eq!(execution_access_plan(&Credential::Invalid, &s("e"), &s("w")), AccessPlan::Reject(401));
    assert_eq!(workflow_access_plan(&Credential::Invalid, &s("w")), AccessPlan::Reject(401));
}

#[test]
fn document_lookup_statuses() {
    assert_eq!(lookup_status(Ok(true)), None);
    assert_eq!(lookup_status(Ok(false)), Some(404));
    assert_eq!(lookup_status(Err(StoreError)), Some(500));
}

#[test]
fn websocket_is_checked_by_execution_grant() {
    assert_eq!(
        websocket_query(&s("exec-1"), &s("wf-1")),
        AccessQuery::ExecutionGrant { execution_id: s("exec-1"), workflow_id: s("wf-1") }
    );
    assert_eq!(websocket_status(Ok(true)), 200);
    assert_eq!(websocket_status(Ok(false)), 403);
    assert_eq!(websocket_status(Err(StoreError)), 500);
}
