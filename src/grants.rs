//! Ephemeral grants: the permission rule, the three indexes a grant is kept
//! under, key expiry, and the expansion of a token payload into grants.
use vstd::prelude::*;
use vstd::string::StringExecFns;

verus! {

/// An ephemeral authorization record. `execution_id == None` is a wildcard
/// grant covering every execution of `workflow_id`.
#[derive(Clone, Debug, PartialEq, Eq)]
pub struct ExecutionToken {
    pub execution_id: Option<String>,
    pub workflow_id: String,
    pub iat: i64,
    pub exp: i64,
    pub user_id: String,
}

/// A grant as plain values.
pub struct GrantView {
    pub execution_id: Option<Seq<char>>,
    pub workflow_id: Seq<char>,
    pub iat: i64,
    pub exp: i64,
    pub user_id: Seq<char>,
}

pub open spec fn opt_view(o: Option<String>) -> Option<Seq<char>> {
    match o {
        Some(s) => Some(s@),
        None => None,
    }
}

pub open spec fn opt_ref_view(o: Option<&String>) -> Option<Seq<char>> {
    match o {
        Some(s) => Some(s@),
        None => None,
    }
}

impl View for ExecutionToken {
    type V = GrantView;

    open spec fn view(&self) -> GrantView {
        GrantView {
            execution_id: opt_view(self.execution_id),
            workflow_id: self.workflow_id@,
            iat: self.iat,
            exp: self.exp,
            user_id: self.user_id@,
        }
    }
}

/// The execution part of the permission table: a wildcard grant matches every
/// query, a specific grant matches only a query for that same execution.
pub open spec fn execution_matches(query: Option<Seq<char>>, grant: Option<Seq<char>>) -> bool {
    match (query, grant) {
        (_, None) => true,
        (None, Some(_)) => false,
        (Some(x), Some(y)) => x == y,
    }
}

/// A grant allows a query when the workflows are equal and the executions match.
pub open spec fn grant_permits(g: GrantView, exec: Option<Seq<char>>, workflow: Seq<char>) -> bool {
    g.workflow_id == workflow && execution_matches(exec, g.execution_id)
}

/// Whether `token` allows a query for `target_execution_id` (`None`: any
/// execution, which only a wildcard grant allows) in `target_workflow_id`.
pub fn check_token_permissions(
    token: &ExecutionToken,
    target_execution_id: Option<&String>,
    target_workflow_id: &String,
) -> (r: bool)
    ensures
        r == grant_permits(token@, opt_ref_view(target_execution_id), target_workflow_id@),
{
    if token.workflow_id != *target_workflow_id {
        return false;
    }
    match (target_execution_id, &token.execution_id) {
        (Some(req), Some(tok)) => *req == *tok,
        (_, None) => true,
        (None, Some(_)) => false,
    }
}

/// Every row of the permission table, for grants whose workflow matches the
/// query's; a grant of another workflow matches no row.
pub proof fn permission_table(x: Seq<char>, y: Seq<char>, w: Seq<char>, other: Seq<char>, u: Seq<char>, iat: i64, exp: i64)
    requires
        other != w,
    ensures
        grant_permits(GrantView { execution_id: None, workflow_id: w, iat, exp, user_id: u }, None, w),
        !grant_permits(GrantView { execution_id: Some(y), workflow_id: w, iat, exp, user_id: u }, None, w),
        grant_permits(GrantView { execution_id: None, workflow_id: w, iat, exp, user_id: u }, Some(x), w),
        grant_permits(GrantView { execution_id: Some(y), workflow_id: w, iat, exp, user_id: u }, Some(x), w) <==> x == y,
        !grant_permits(GrantView { execution_id: None, workflow_id: other, iat, exp, user_id: u }, Some(x), w),
        !grant_permits(GrantView { execution_id: None, workflow_id: other, iat, exp, user_id: u }, None, w),
{
}

/// Members read from one index; `None` stands for a member that did not decode
/// as a grant, which no query counts.
pub open spec fn decoded_at(members: Seq<Option<ExecutionToken>>, i: int) -> Option<GrantView> {
    match members[i] {
        Some(g) => Some(g@),
        None => None,
    }
}

/// Some decoded member of the user's index allows the query.
pub fn validate_access(
    members: &Vec<Option<ExecutionToken>>,
    target_execution_id: Option<&String>,
    target_workflow_id: &String,
) -> (r: bool)
    ensures
        r == exists|i: int|
            0 <= i < members@.len() && #[trigger] decoded_at(members@, i) is Some
                && grant_permits(decoded_at(members@, i)->0, opt_ref_view(target_execution_id), target_workflow_id@),
{
    let mut i: usize = 0;
    while i < members.len()
        invariant
            i <= members@.len(),
            forall|k: int| 0 <= k < i ==> !(#[trigger] decoded_at(members@, k) is Some
                && grant_permits(decoded_at(members@, k)->0, opt_ref_view(target_execution_id), target_workflow_id@)),
        decreases members@.len() - i,
    {
        if let Some(g) = &members[i] {
            if check_token_permissions(g, target_execution_id, target_workflow_id) {
                assert(decoded_at(members@, i as int) is Some);
                return true;
            }
        }
        i = i + 1;
    }
    false
}

/// Some decoded member of the user's index names `target_execution_id` or is a
/// wildcard; the workflow is not considered.
pub fn validate_access_for_execution(
    members: &Vec<Option<ExecutionToken>>,
    target_execution_id: &String,
) -> (r: bool)
    ensures
        r == exists|i: int|
            0 <= i < members@.len() && #[trigger] decoded_at(members@, i) is Some
                && execution_matches(Some(target_execution_id@), decoded_at(members@, i)->0.execution_id),
{
    let mut i: usize = 0;
    while i < members.len()
        invariant
            i <= members@.len(),
            forall|k: int| 0 <= k < i ==> !(#[trigger] decoded_at(members@, k) is Some
                && execution_matches(Some(target_execution_id@), decoded_at(members@, k)->0.execution_id)),
        decreases members@.len() - i,
    {
        if let Some(g) = &members[i] {
            let m = match &g.execution_id {
                Some(e) => *e == *target_execution_id,
                None => true,
            };
            if m {
                assert(decoded_at(members@, i as int) is Some);
                return true;
            }
        }
        i = i + 1;
    }
    false
}

/// Some decoded member of an execution's index belongs to `target_workflow_id`.
pub fn validate_execution_access(
    members: &Vec<Option<ExecutionToken>>,
    target_workflow_id: &String,
) -> (r: bool)
    ensures
        r == exists|i: int|
            0 <= i < members@.len() && #[trigger] decoded_at(members@, i) is Some
                && decoded_at(members@, i)->0.workflow_id == target_workflow_id@,
{
    let mut i: usize = 0;
    while i < members.len()
        invariant
            i <= members@.len(),
            forall|k: int| 0 <= k < i ==> !(#[trigger] decoded_at(members@, k) is Some
                && decoded_at(members@, k)->0.workflow_id == target_workflow_id@),
        decreases members@.len() - i,
    {
        if let Some(g) = &members[i] {
            if g.workflow_id == *target_workflow_id {
                assert(decoded_at(members@, i as int) is Some);
                return true;
            }
        }
        i = i + 1;
    }
    false
}

/// Some decoded member of a workflow's index is a wildcard grant.
pub fn validate_workflow_access(members: &Vec<Option<ExecutionToken>>) -> (r: bool)
    ensures
        r == exists|i: int|
            0 <= i < members@.len() && #[trigger] decoded_at(members@, i) is Some
                && decoded_at(members@, i)->0.execution_id is None,
{
    let mut i: usize = 0;
    while i < members.len()
        invariant
            i <= members@.len(),
            forall|k: int| 0 <= k < i ==> !(#[trigger] decoded_at(members@, k) is Some
                && decoded_at(members@, k)->0.execution_id is None),
        decreases members@.len() - i,
    {
        if let Some(g) = &members[i] {
            if g.execution_id.is_none() {
                assert(decoded_at(members@, i as int) is Some);
                return true;
            }
        }
        i = i + 1;
    }
    false
}

pub open spec fn user_key_of(user_id: Seq<char>) -> Seq<char> {
    "user_id_"@ + user_id
}

pub open spec fn execution_key_of(execution_id: Seq<char>) -> Seq<char> {
    "execution_id_"@ + execution_id
}

pub open spec fn workflow_key_of(workflow_id: Seq<char>) -> Seq<char> {
    "workflow_id_"@ + workflow_id
}

/// Key of a user's index.
pub fn user_key(user_id: &String) -> (r: String)
    ensures
        r@ == user_key_of(user_id@),
{
    String::from_str("user_id_").concat(user_id.as_str())
}

/// Key of an execution's index.
pub fn execution_key(execution_id: &String) -> (r: String)
    ensures
        r@ == execution_key_of(execution_id@),
{
    String::from_str("execution_id_").concat(execution_id.as_str())
}

/// Key of a workflow's index of wildcard grants.
pub fn workflow_key(workflow_id: &String) -> (r: String)
    ensures
        r@ == workflow_key_of(workflow_id@),
{
    String::from_str("workflow_id_").concat(workflow_id.as_str())
}

/// The indexes a grant is written to: always its user's; its execution's when
/// it names one; its workflow's when it is a wildcard.
pub open spec fn index_keys_of(g: GrantView) -> Seq<Seq<char>> {
    match g.execution_id {
        Some(e) => seq![user_key_of(g.user_id), execution_key_of(e)],
        None => seq![user_key_of(g.user_id), workflow_key_of(g.workflow_id)],
    }
}

/// Keys of the indexes that `token` is written to, in order.
pub fn index_keys(token: &ExecutionToken) -> (r: Vec<String>)
    ensures
        r@.map_values(|k: String| k@) =~= index_keys_of(token@),
{
    let mut keys: Vec<String> = Vec::new();
    keys.push(user_key(&token.user_id));
    match &token.execution_id {
        Some(e) => keys.push(execution_key(e)),
        None => keys.push(workflow_key(&token.workflow_id)),
    }
    keys
}

/// Seconds from `now` to `exp`, or `None` when `exp` is not in the future.
pub open spec fn remaining_life(exp: i64, now: i64) -> Option<int> {
    if exp - now > 0 {
        Some(if exp - now > i64::MAX { i64::MAX as int } else { exp - now })
    } else {
        None
    }
}

/// The expiry to set on an index key after writing a grant that ends at
/// `exp`: the grant's remaining life when the key has none (`current_ttl`
/// of -2: no key, -1: no expiry) or a shorter one; `None` to leave it.
pub fn ttl_extension(current_ttl: i64, exp: i64, now: i64) -> (r: Option<i64>)
    ensures
        r == match remaining_life(exp, now) {
            None => None,
            Some(life) => if current_ttl == -2 || current_ttl < life {
                Some(life as i64)
            } else {
                None
            },
        },
{
    let diff: i128 = exp as i128 - now as i128;
    if diff <= 0 {
        return None;
    }
    let life: i64 = if diff > i64::MAX as i128 { i64::MAX } else { diff as i64 };
    if current_ttl == -2 || current_ttl < life {
        Some(life)
    } else {
        None
    }
}

} // verus!
