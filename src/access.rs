//! Authorization of HTTP requests and WebSocket upgrades: which grant query
//! a request is checked with, and which status its answer gives.
use vstd::prelude::*;

verus! {

pub const STATUS_OK: u16 = 200;
pub const STATUS_UNAUTHORIZED: u16 = 401;
pub const STATUS_FORBIDDEN: u16 = 403;
pub const STATUS_NOT_FOUND: u16 = 404;
pub const STATUS_INTERNAL_ERROR: u16 = 500;

/// What the request's `Authorization` header gave.
#[derive(Clone, Debug, PartialEq, Eq)]
pub enum Credential {
    /// No header: fall back to the grant indexes.
    Absent,
    /// A token that did not decode with the shared secret.
    Invalid,
    /// A decoded token; its `sub` claim.
    User(String),
}

/// A query on the credential store.
#[derive(Clone, Debug, PartialEq, Eq)]
pub enum AccessQuery {
    /// `validate_access_for_execution(user_id, execution_id)`.
    UserExecution { user_id: String, execution_id: String },
    /// `validate_access(user_id, None, workflow_id)`.
    UserWorkflow { user_id: String, workflow_id: String },
    /// `validate_execution_access(execution_id, workflow_id)`.
    ExecutionGrant { execution_id: String, workflow_id: String },
    /// `validate_workflow_access(workflow_id)`.
    WorkflowGrant { workflow_id: String },
}

/// The first decision on a request.
#[derive(Clone, Debug, PartialEq, Eq)]
pub enum AccessPlan {
    /// Answer at once with this status.
    Reject(u16),
    /// Ask the credential store.
    Check(AccessQuery),
}

/// The credential store could not answer.
#[derive(Clone, Copy, Debug, PartialEq, Eq)]
pub struct StoreError;

/// How `GET /executions/{id}` is checked once its document is known: with a
/// user, for that user and execution; without a header, by the execution's
/// grant index against the document's workflow; a bad token is refused.
pub fn execution_access_plan(
    credential: &Credential,
    execution_id: &String,
    document_workflow_id: &String,
) -> (r: AccessPlan)
    ensures
        match *credential {
            Credential::Invalid => r == AccessPlan::Reject(STATUS_UNAUTHORIZED),
            Credential::User(u) => r matches AccessPlan::Check(AccessQuery::UserExecution { user_id, execution_id: e })
                && user_id@ == u@ && e@ == execution_id@,
            Credential::Absent => r matches AccessPlan::Check(AccessQuery::ExecutionGrant { execution_id: e, workflow_id: w })
                && e@ == execution_id@ && w@ == document_workflow_id@,
        },
{
    match credential {
        Credential::Invalid => AccessPlan::Reject(STATUS_UNAUTHORIZED),
        Credential::User(u) => AccessPlan::Check(
            AccessQuery::UserExecution { user_id: u.clone(), execution_id: execution_id.clone() },
        ),
        Credential::Absent => AccessPlan::Check(
            AccessQuery::ExecutionGrant {
                execution_id: execution_id.clone(),
                workflow_id: document_workflow_id.clone(),
            },
        ),
    }
}

/// How `GET /workflows/{id}/executions` is checked: with a user, for any
/// grant of that user on the workflow that covers all its executions;
/// without a header, by the workflow's index of wildcard grants.
pub fn workflow_access_plan(credential: &Credential, workflow_id: &String) -> (r: AccessPlan)
    ensures
        match *credential {
            Credential::Invalid => r == AccessPlan::Reject(STATUS_UNAUTHORIZED),
            Credential::User(u) => r matches AccessPlan::Check(AccessQuery::UserWorkflow { user_id, workflow_id: w })
                && user_id@ == u@ && w@ == workflow_id@,
            Credential::Absent => r matches AccessPlan::Check(AccessQuery::WorkflowGrant { workflow_id: w })
                && w@ == workflow_id@,
        },
{
    match credential {
        Credential::Invalid => AccessPlan::Reject(STATUS_UNAUTHORIZED),
        Credential::User(u) => AccessPlan::Check(
            AccessQuery::UserWorkflow { user_id: u.clone(), workflow_id: workflow_id.clone() },
        ),
        Credential::Absent => AccessPlan::Check(AccessQuery::WorkflowGrant { workflow_id: workflow_id.clone() }),
    }
}

/// Whether a query was made for a user identified by a token.
pub open spec fn for_user(q: AccessQuery) -> bool {
    q is UserExecution || q is UserWorkflow
}

/// The status that the store's answer gives: 200 when allowed; when refused,
/// 403 for a user's query and 401 for the fallback; 500 when the store failed.
pub fn access_status(query: &AccessQuery, answer: Result<bool, StoreError>) -> (r: u16)
    ensures
        r == match answer {
            Ok(true) => STATUS_OK,
            Ok(false) => if for_user(*query) {
                STATUS_FORBIDDEN
            } else {
                STATUS_UNAUTHORIZED
            },
            Err(_) => STATUS_INTERNAL_ERROR,
        },
{
    match answer {
        Ok(true) => STATUS_OK,
        Ok(false) => match query {
            AccessQuery::UserExecution { .. } | AccessQuery::UserWorkflow { .. } => STATUS_FORBIDDEN,
            _ => STATUS_UNAUTHORIZED,
        },
        Err(_) => STATUS_INTERNAL_ERROR,
    }
}

/// The status of a document read that precedes the check of
/// `GET /executions/{id}`: `None` to go on, 404 when there is no document,
/// 500 when the store failed.
pub fn lookup_status(found: Result<bool, StoreError>) -> (r: Option<u16>)
    ensures
        r == match found {
            Ok(true) => None,
            Ok(false) => Some(STATUS_NOT_FOUND),
            Err(_) => Some(STATUS_INTERNAL_ERROR),
        },
{
    match found {
        Ok(true) => None,
        Ok(false) => Some(STATUS_NOT_FOUND),
        Err(_) => Some(STATUS_INTERNAL_ERROR),
    }
}

/// The WebSocket is opened with ids only and checked against the
/// execution's grant index.
pub fn websocket_query(execution_id: &String, workflow_id: &String) -> (r: AccessQuery)
    ensures
        r matches AccessQuery::ExecutionGrant { execution_id: e, workflow_id: w } && e@ == execution_id@ && w@
            == workflow_id@,
{
    AccessQuery::ExecutionGrant { execution_id: execution_id.clone(), workflow_id: workflow_id.clone() }
}

/// The answer to a WebSocket upgrade: upgrade (200) when allowed, 403 when
/// refused, 500 when the store failed.
pub fn websocket_status(answer: Result<bool, StoreError>) -> (r: u16)
    ensures
        r == match answer {
            Ok(true) => STATUS_OK,
            Ok(false) => STATUS_FORBIDDEN,
            Err(_) => STATUS_INTERNAL_ERROR,
        },
{
    match answer {
        Ok(true) => STATUS_OK,
        Ok(false) => STATUS_FORBIDDEN,
        Err(_) => STATUS_INTERNAL_ERROR,
    }
}

} // verus!
