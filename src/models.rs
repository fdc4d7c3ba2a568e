//! Broker events, per-lineage node results and the hydrated execution
//! document. Payloads that the service only carries (inputs, outputs,
//! parameters, contexts) are held as JSON text.
use vstd::prelude::*;
use crate::json::JsonValue;
use crate::lineage::StackFrame;

verus! {

/// A node's failure as reported by a worker; `details` is JSON text.
#[derive(Clone, Debug, PartialEq, Eq)]
pub struct NodeError {
    pub message: String,
    pub code: String,
    pub details: Option<String>,
}

/// A node changed state ("running", "success", "failed", "waiting").
#[derive(Clone, Debug, PartialEq, Eq)]
pub struct NodeStatusMessage {
    pub workflow_id: String,
    pub execution_id: String,
    pub node_id: String,
    pub node_name: String,
    pub status: String,
    pub input: Option<String>,
    pub parameters: Option<String>,
    pub output: Option<String>,
    pub error: Option<NodeError>,
    pub executed_at: String,
    pub duration_ms: i64,
    pub branch_id: Option<String>,
    pub split_node_id: Option<String>,
    pub item_index: Option<i32>,
    pub total_items: Option<i32>,
    pub processed_count: Option<i32>,
    pub aggregator_state: Option<String>,
    pub lineage_stack: Option<Vec<StackFrame>>,
    pub lineage_hash: Option<String>,
    pub used_inputs: Option<String>,
}

/// Terminal event of an execution ("completed", "failed", "halted").
#[derive(Clone, Debug, PartialEq, Eq)]
pub struct CompletionMessage {
    pub workflow_id: String,
    pub execution_id: String,
    pub status: String,
    pub final_context: String,
    pub completed_at: String,
    pub total_duration_ms: i64,
    pub failure_reason: Option<String>,
}

/// A node activation carrying the workflow definition and the accumulated
/// context (JSON text).
#[derive(Debug)]
pub struct NodeExecutionMessage {
    pub workflow_id: String,
    pub execution_id: String,
    pub current_node: String,
    pub workflow_definition: JsonValue,
    pub accumulated_context: String,
    pub lineage_stack: Option<Vec<StackFrame>>,
    pub from_node: Option<String>,
    pub is_worker_initiated: Option<bool>,
}

/// The events of the three event queues.
#[derive(Debug)]
pub enum WorkerMessage {
    NodeStatus(Box<NodeStatusMessage>),
    WorkflowCompletion(Box<CompletionMessage>),
    NodeExecution(Box<NodeExecutionMessage>),
}

/// One result of a node, for one lineage.
#[derive(Clone, Debug, PartialEq, Eq, Default)]
pub struct NodeExecutionInstance {
    pub input: Option<String>,
    pub parameters: Option<String>,
    pub output: Option<String>,
    pub status: Option<String>,
    pub error: Option<NodeError>,
    pub executed_at: Option<String>,
    pub duration_ms: Option<i64>,
    pub lineage_hash: Option<String>,
    pub lineage_stack: Option<Vec<StackFrame>>,
    pub used_inputs: Option<String>,
    pub node_type: Option<String>,
    pub name: Option<String>,
    pub branch_id: Option<String>,
    pub split_node_id: Option<String>,
    pub item_index: Option<i32>,
    pub total_items: Option<i32>,
    pub processed_count: Option<i32>,
    pub aggregator_state: Option<String>,
}

/// A node of an execution: its most recent result, its result per lineage
/// hash, and the fields of its definition.
#[derive(Debug)]
pub struct HydratedNode {
    pub latest: Option<NodeExecutionInstance>,
    pub lineages: Vec<(String, NodeExecutionInstance)>,
    pub extra: Vec<(String, JsonValue)>,
}

/// The persisted projection of one execution. Times are milliseconds since
/// the Unix epoch.
#[derive(Debug)]
pub struct ExecutionDocument {
    pub execution_id: String,
    pub workflow_id: String,
    pub accumulated_context: Option<String>,
    pub nodes: Vec<(String, HydratedNode)>,
    pub edges: Vec<JsonValue>,
    pub status: Option<String>,
    pub name: Option<String>,
    pub node_type: Option<String>,
    pub created_at: Option<i64>,
    pub updated_at: Option<i64>,
}

pub open spec fn stack_view(s: Option<Vec<StackFrame>>) -> Option<Seq<StackFrame>> {
    match s {
        Some(v) => Some(v@),
        None => None,
    }
}

/// Two results hold the same fields (stacks compared by their frames).
pub open spec fn same_instance(a: NodeExecutionInstance, b: NodeExecutionInstance) -> bool {
    &&& a.input == b.input
    &&& a.parameters == b.parameters
    &&& a.output == b.output
    &&& a.status == b.status
    &&& a.error == b.error
    &&& a.executed_at == b.executed_at
    &&& a.duration_ms == b.duration_ms
    &&& a.lineage_hash == b.lineage_hash
    &&& stack_view(a.lineage_stack) == stack_view(b.lineage_stack)
    &&& a.used_inputs == b.used_inputs
    &&& a.node_type == b.node_type
    &&& a.name == b.name
    &&& a.branch_id == b.branch_id
    &&& a.split_node_id == b.split_node_id
    &&& a.item_index == b.item_index
    &&& a.total_items == b.total_items
    &&& a.processed_count == b.processed_count
    &&& a.aggregator_state == b.aggregator_state
}

pub fn copy_text(s: &Option<String>) -> (r: Option<String>)
    ensures
        r == *s,
{
    match s {
        Some(t) => Some(t.clone()),
        None => None,
    }
}

impl StackFrame {
    pub fn copy(&self) -> (r: StackFrame)
        ensures
            r == *self,
    {
        StackFrame {
            split_node_id: self.split_node_id.clone(),
            branch_id: self.branch_id.clone(),
            item_index: self.item_index,
            total_items: self.total_items,
        }
    }
}

pub fn copy_stack(s: &Option<Vec<StackFrame>>) -> (r: Option<Vec<StackFrame>>)
    ensures
        stack_view(r) == stack_view(*s),
{
    match s {
        Some(v) => {
            let mut out: Vec<StackFrame> = Vec::new();
            let mut i: usize = 0;
            while i < v.len()
                invariant
                    i <= v@.len(),
                    out@ == v@.take(i as int),
                decreases v@.len() - i,
            {
                out.push(v[i].copy());
                assert(v@.take(i + 1) =~= v@.take(i as int).push(v@[i as int]));
                i = i + 1;
            }
            assert(v@.take(i as int) =~= v@);
            Some(out)
        },
        None => None,
    }
}

impl NodeError {
    pub fn copy(&self) -> (r: NodeError)
        ensures
            r == *self,
    {
        NodeError { message: self.message.clone(), code: self.code.clone(), details: copy_text(&self.details) }
    }
}

pub fn copy_error(e: &Option<NodeError>) -> (r: Option<NodeError>)
    ensures
        r == *e,
{
    match e {
        Some(x) => Some(x.copy()),
        None => None,
    }
}

impl NodeExecutionInstance {
    /// A field-for-field copy.
    pub fn copy(&self) -> (r: NodeExecutionInstance)
        ensures
            same_instance(r, *self),
    {
        NodeExecutionInstance {
            input: copy_text(&self.input),
            parameters: copy_text(&self.parameters),
            output: copy_text(&self.output),
            status: copy_text(&self.status),
            error: copy_error(&self.error),
            executed_at: copy_text(&self.executed_at),
            duration_ms: self.duration_ms,
            lineage_hash: copy_text(&self.lineage_hash),
            lineage_stack: copy_stack(&self.lineage_stack),
            used_inputs: copy_text(&self.used_inputs),
            node_type: copy_text(&self.node_type),
            name: copy_text(&self.name),
            branch_id: copy_text(&self.branch_id),
            split_node_id: copy_text(&self.split_node_id),
            item_index: self.item_index,
            total_items: self.total_items,
            processed_count: self.processed_count,
            aggregator_state: copy_text(&self.aggregator_state),
        }
    }
}

impl HydratedNode {
    /// A node with no result yet and no definition fields.
    pub fn empty() -> (r: HydratedNode)
        ensures
            r.latest is None,
            r.lineages@.len() == 0,
            r.extra@.len() == 0,
    {
        HydratedNode { latest: None, lineages: Vec::new(), extra: Vec::new() }
    }
}

} // verus!
