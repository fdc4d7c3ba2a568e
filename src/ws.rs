//! What a WebSocket session sends: the flat update record, its translation
//! from events, the history replay of a document, and the live filter.
use vstd::prelude::*;
use vstd::string::StringExecFns;
use crate::grants::opt_view;
use crate::models::{
    copy_stack, copy_text, stack_view, ExecutionDocument, HydratedNode, NodeExecutionInstance,
    NodeStatusMessage, WorkerMessage,
};
use crate::lineage::StackFrame;

verus! {

/// One server-to-client frame; JSON payloads are JSON text.
#[derive(Clone, Debug, PartialEq, Eq, Default)]
pub struct WsNodeUpdate {
    pub node_id: Option<String>,
    pub input: Option<String>,
    pub params: Option<String>,
    pub output: Option<String>,
    pub status: Option<String>,
    pub lineage_hash: Option<String>,
    pub lineage_stack: Option<Vec<StackFrame>>,
    pub split_node_id: Option<String>,
    pub branch_id: Option<String>,
    pub item_index: Option<i32>,
    pub total_items: Option<i32>,
    pub processed_count: Option<i32>,
    pub aggregator_state: Option<String>,
    pub used_inputs: Option<String>,
}

/// Status sent for a completion event.
pub const COMPLETED: &'static str = "completed";

/// Status of the translation of a node activation, which is never sent.
pub const UNKNOWN_ERROR: &'static str = "unknown error";

/// All fields empty but the status.
pub open spec fn status_only(u: WsNodeUpdate, status: Seq<char>) -> bool {
    &&& u.node_id is None
    &&& u.input is None
    &&& u.params is None
    &&& u.output is None
    &&& opt_view(u.status) == Some(status)
    &&& u.lineage_hash is None
    &&& u.lineage_stack is None
    &&& u.split_node_id is None
    &&& u.branch_id is None
    &&& u.item_index is None
    &&& u.total_items is None
    &&& u.processed_count is None
    &&& u.aggregator_state is None
    &&& u.used_inputs is None
}

/// The update copies a status event's fields.
pub open spec fn update_of_status(u: WsNodeUpdate, s: NodeStatusMessage) -> bool {
    &&& opt_view(u.node_id) == Some(s.node_id@)
    &&& u.input == s.input
    &&& u.params == s.parameters
    &&& u.output == s.output
    &&& opt_view(u.status) == Some(s.status@)
    &&& u.lineage_hash == s.lineage_hash
    &&& stack_view(u.lineage_stack) == stack_view(s.lineage_stack)
    &&& u.split_node_id == s.split_node_id
    &&& u.branch_id == s.branch_id
    &&& u.item_index == s.item_index
    &&& u.total_items == s.total_items
    &&& u.processed_count == s.processed_count
    &&& u.aggregator_state == s.aggregator_state
    &&& u.used_inputs == s.used_inputs
}

/// The update copies a stored result of node `node_id`.
pub open spec fn update_of_instance(u: WsNodeUpdate, node_id: Seq<char>, i: NodeExecutionInstance) -> bool {
    &&& opt_view(u.node_id) == Some(node_id)
    &&& u.input == i.input
    &&& u.params == i.parameters
    &&& u.output == i.output
    &&& u.status == i.status
    &&& u.lineage_hash == i.lineage_hash
    &&& stack_view(u.lineage_stack) == stack_view(i.lineage_stack)
    &&& u.split_node_id == i.split_node_id
    &&& u.branch_id == i.branch_id
    &&& u.item_index == i.item_index
    &&& u.total_items == i.total_items
    &&& u.processed_count == i.processed_count
    &&& u.aggregator_state == i.aggregator_state
    &&& u.used_inputs == i.used_inputs
}

fn status_update(status: &str) -> (r: WsNodeUpdate)
    ensures
        status_only(r, status@),
{
    WsNodeUpdate {
        node_id: None,
        input: None,
        params: None,
        output: None,
        status: Some(String::from_str(status)),
        lineage_hash: None,
        lineage_stack: None,
        split_node_id: None,
        branch_id: None,
        item_index: None,
        total_items: None,
        processed_count: None,
        aggregator_state: None,
        used_inputs: None,
    }
}

fn instance_update(node_id: &String, i: &NodeExecutionInstance) -> (r: WsNodeUpdate)
    ensures
        update_of_instance(r, node_id@, *i),
{
    WsNodeUpdate {
        node_id: Some(node_id.clone()),
        input: copy_text(&i.input),
        params: copy_text(&i.parameters),
        output: copy_text(&i.output),
        status: copy_text(&i.status),
        lineage_hash: copy_text(&i.lineage_hash),
        lineage_stack: copy_stack(&i.lineage_stack),
        split_node_id: copy_text(&i.split_node_id),
        branch_id: copy_text(&i.branch_id),
        item_index: i.item_index,
        total_items: i.total_items,
        processed_count: i.processed_count,
        aggregator_state: copy_text(&i.aggregator_state),
        used_inputs: copy_text(&i.used_inputs),
    }
}

impl WsNodeUpdate {
    /// Translate an event: a status is copied field for field, a completion
    /// becomes a bare "completed", a node activation a bare "unknown error".
    pub fn from_message(msg: &WorkerMessage) -> (r: WsNodeUpdate)
        ensures
            match msg {
                WorkerMessage::NodeStatus(s) => update_of_status(r, **s),
                WorkerMessage::WorkflowCompletion(_) => status_only(r, COMPLETED@),
                WorkerMessage::NodeExecution(_) => status_only(r, UNKNOWN_ERROR@),
            },
    {
        match msg {
            WorkerMessage::NodeStatus(s) => WsNodeUpdate {
                node_id: Some(s.node_id.clone()),
                input: copy_text(&s.input),
                params: copy_text(&s.parameters),
                output: copy_text(&s.output),
                status: Some(s.status.clone()),
                lineage_hash: copy_text(&s.lineage_hash),
                lineage_stack: copy_stack(&s.lineage_stack),
                split_node_id: copy_text(&s.split_node_id),
                branch_id: copy_text(&s.branch_id),
                item_index: s.item_index,
                total_items: s.total_items,
                processed_count: s.processed_count,
                aggregator_state: copy_text(&s.aggregator_state),
                used_inputs: copy_text(&s.used_inputs),
            },
            WorkerMessage::WorkflowCompletion(_) => status_update(COMPLETED),
            WorkerMessage::NodeExecution(_) => status_update(UNKNOWN_ERROR),
        }
    }
}

/// A session for `execution_id` receives status and completion events of
/// that execution, and no node activation.
pub open spec fn forwarded(msg: WorkerMessage, execution_id: Seq<char>) -> bool {
    match msg {
        WorkerMessage::NodeStatus(s) => s.execution_id@ == execution_id,
        WorkerMessage::WorkflowCompletion(c) => c.execution_id@ == execution_id,
        WorkerMessage::NodeExecution(_) => false,
    }
}

pub fn should_forward(msg: &WorkerMessage, execution_id: &String) -> (r: bool)
    ensures
        r == forwarded(*msg, execution_id@),
{
    match msg {
        WorkerMessage::NodeStatus(s) => s.execution_id == *execution_id,
        WorkerMessage::WorkflowCompletion(c) => c.execution_id == *execution_id,
        WorkerMessage::NodeExecution(_) => false,
    }
}

/// The frame a session for `execution_id` sends for a live event, if any.
pub fn live_update(msg: &WorkerMessage, execution_id: &String) -> (r: Option<WsNodeUpdate>)
    ensures
        r is Some <==> forwarded(*msg, execution_id@),
        r is Some ==> match msg {
            WorkerMessage::NodeStatus(s) => update_of_status(r->0, **s),
            WorkerMessage::WorkflowCompletion(_) => status_only(r->0, COMPLETED@),
            WorkerMessage::NodeExecution(_) => false,
        },
{
    if should_forward(msg, execution_id) {
        Some(WsNodeUpdate::from_message(msg))
    } else {
        None
    }
}

/// Frames for one node: one per lineage entry, else one for the latest
/// result if any.
pub open spec fn node_history_ok(out: Seq<WsNodeUpdate>, node_id: Seq<char>, n: HydratedNode) -> bool {
    if n.lineages@.len() > 0 {
        &&& out.len() == n.lineages@.len()
        &&& forall|k: int| 0 <= k < out.len() ==> update_of_instance(#[trigger] out[k], node_id, n.lineages@[k].1)
    } else {
        match n.latest {
            Some(l) => out.len() == 1 && update_of_instance(out[0], node_id, l),
            None => out.len() == 0,
        }
    }
}

fn node_history(out: &mut Vec<WsNodeUpdate>, node_id: &String, n: &HydratedNode)
    ensures
        final(out)@.take(old(out)@.len() as int) == old(out)@,
        final(out)@.len() >= old(out)@.len(),
        node_history_ok(final(out)@.skip(old(out)@.len() as int), node_id@, *n),
{
    let ghost start = out@;
    if n.lineages.len() > 0 {
        let mut i: usize = 0;
        while i < n.lineages.len()
            invariant
                i <= n.lineages@.len(),
                out@.len() == start.len() + i,
                out@.take(start.len() as int) == start,
                forall|k: int| 0 <= k < i ==> update_of_instance(#[trigger] out@[start.len() + k], node_id@, n.lineages@[k].1),
            decreases n.lineages@.len() - i,
        {
            let u = instance_update(node_id, &n.lineages[i].1);
            let ghost prev = out@;
            out.push(u);
            assert(out@.take(start.len() as int) =~= prev.take(start.len() as int));
            i = i + 1;
        }
        let ghost added = out@.skip(start.len() as int);
        assert forall|k: int| 0 <= k < added.len() implies update_of_instance(#[trigger] added[k], node_id@, n.lineages@[k].1) by {
            assert(added[k] == out@[start.len() + k]);
        }
    } else {
        match &n.latest {
            Some(l) => {
                out.push(instance_update(node_id, l));
                assert(out@.take(start.len() as int) =~= start);
                assert(out@.skip(start.len() as int)[0] == out@[start.len() as int]);
            },
            None => {
                assert(out@.take(start.len() as int) =~= start);
            },
        }
    }
}

/// Frames replayed to a new session: every node's frames in document order,
/// then a bare status frame when the execution has finished.
pub fn history_updates(doc: &ExecutionDocument) -> (r: Vec<WsNodeUpdate>)
    ensures
        exists|cuts: Seq<int>| {
            &&& cuts.len() == doc.nodes@.len() + 1
            &&& cuts[0] == 0
            &&& forall|k: int| 0 <= k < doc.nodes@.len() ==> cuts[k] <= #[trigger] cuts[k + 1]
            &&& forall|k: int| 0 <= k < doc.nodes@.len() ==> node_history_ok(
                r@.subrange(cuts[k], cuts[k + 1]),
                (#[trigger] doc.nodes@[k]).0@,
                doc.nodes@[k].1,
            )
            &&& match doc.status {
                Some(s) => r@.len() == cuts[doc.nodes@.len() as int] + 1 && status_only(
                    r@.last(),
                    s@,
                ),
                None => r@.len() == cuts[doc.nodes@.len() as int],
            }
        },
{
    let mut out: Vec<WsNodeUpdate> = Vec::new();
    let ghost mut cuts: Seq<int> = seq![0int];
    let mut i: usize = 0;
    while i < doc.nodes.len()
        invariant
            i <= doc.nodes@.len(),
            cuts.len() == i + 1,
            cuts[0] == 0,
            cuts[i as int] == out@.len(),
            forall|k: int| 0 <= k <= i ==> 0 <= #[trigger] cuts[k] <= out@.len(),
            forall|k: int| 0 <= k < i ==> cuts[k] <= #[trigger] cuts[k + 1],
            forall|k: int| 0 <= k < i ==> node_history_ok(
                out@.subrange(cuts[k], cuts[k + 1]),
                (#[trigger] doc.nodes@[k]).0@,
                doc.nodes@[k].1,
            ),
        decreases doc.nodes@.len() - i,
    {
        let ghost prev = out@;
        node_history(&mut out, &doc.nodes[i].0, &doc.nodes[i].1);
        assert forall|k: int| 0 <= k < i implies #[trigger] out@.subrange(cuts[k], cuts[k + 1]) =~= prev.subrange(cuts[k], cuts[k + 1]) by {
            assert(out@.take(prev.len() as int) == prev);
            assert(cuts[k + 1] <= prev.len());
        }
        assert(out@.subrange(prev.len() as int, out@.len() as int) =~= out@.skip(prev.len() as int));
        proof {
            cuts = cuts.push(out@.len() as int);
        }
        i = i + 1;
    }
    let ghost pre = out@;
    let n = doc.nodes.len();
    if let Some(s) = &doc.status {
        out.push(status_update(s.as_str()));
    }
    assert forall|k: int| 0 <= k < n implies node_history_ok(
        out@.subrange(cuts[k], cuts[k + 1]),
        (#[trigger] doc.nodes@[k]).0@,
        doc.nodes@[k].1,
    ) by {
        assert(out@.subrange(cuts[k], cuts[k + 1]) =~= pre.subrange(cuts[k], cuts[k + 1]));
    }
    out
}

} // verus!
