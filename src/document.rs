//! The hydrated execution document under node-status and completion events.
use vstd::prelude::*;
use vstd::string::StringExecFns;
use crate::grants::opt_view;
use crate::json::{field, shallow, JsonValue};
use crate::keyed::{entry_of, find_key, find_key_str, keys_unique, upsert_entry};
use crate::lineage::{compute_lineage_hash, lineage_hash_of};
use crate::models::{
    copy_error, copy_stack, copy_text, same_instance, stack_view, CompletionMessage,
    ExecutionDocument, HydratedNode, NodeExecutionInstance, NodeExecutionMessage, NodeStatusMessage,
};
use crate::retry::{saturating_double, RetryPolicy, RetryState, RetryStep};
use crate::normalize::{
    edges_normalized, node_normalized, nodes_normalized, normalize_edges, normalize_nodes,
    normalized_object, obj_members,
};

verus! {

/// Lineage key of results that carry no lineage.
pub const DEFAULT_LINEAGE: &'static str = "default";

/// The lineage a status belongs to: the hash of its stack when the stack is
/// non-empty, else the hash the worker sent, else the default lineage.
pub open spec fn effective_hash_of(msg: NodeStatusMessage) -> Seq<char> {
    match msg.lineage_stack {
        Some(s) if s@.len() > 0 => lineage_hash_of(s@),
        _ => match msg.lineage_hash {
            Some(h) => h@,
            None => DEFAULT_LINEAGE@,
        },
    }
}

pub open spec fn has_stack(msg: NodeStatusMessage) -> bool {
    msg.lineage_stack is Some && msg.lineage_stack->0@.len() > 0
}

pub fn effective_lineage_hash(msg: &NodeStatusMessage) -> (r: String)
    ensures
        r@ == effective_hash_of(*msg),
        has_stack(*msg) ==> r@.len() == 36,
{
    if let Some(stack) = &msg.lineage_stack {
        if stack.len() > 0 {
            let h = compute_lineage_hash(stack.as_slice());
            if let Some(h) = h {
                return h;
            }
        }
    }
    match &msg.lineage_hash {
        Some(h) => h.clone(),
        None => String::from_str(DEFAULT_LINEAGE),
    }
}

/// A string member of a node's definition fields.
pub open spec fn text_member(extra: Seq<(String, JsonValue)>, key: Seq<char>) -> Option<Seq<char>> {
    match entry_of(extra, key) {
        Some(JsonValue::Str(s)) => Some(s@),
        _ => None,
    }
}

/// The name a node already has: that of its latest result, else the `name`
/// of its definition.
pub open spec fn carried_name_of(doc: ExecutionDocument, node_id: Seq<char>) -> Option<Seq<char>> {
    match entry_of(doc.nodes@, node_id) {
        None => None,
        Some(n) => match n.latest {
            Some(l) if l.name is Some => opt_view(l.name),
            _ => text_member(n.extra@, "name"@),
        },
    }
}

/// The type a node already has: that of its latest result, else the `type`
/// of its definition.
pub open spec fn carried_type_of(doc: ExecutionDocument, node_id: Seq<char>) -> Option<Seq<char>> {
    match entry_of(doc.nodes@, node_id) {
        None => None,
        Some(n) => match n.latest {
            Some(l) if l.node_type is Some => opt_view(l.node_type),
            _ => text_member(n.extra@, "type"@),
        },
    }
}

fn text_member_exec(extra: &Vec<(String, JsonValue)>, key: &str) -> (r: Option<String>)
    ensures
        opt_view(r) == text_member(extra@, key@),
{
    match find_key_str(extra, key) {
        Some(i) => {
            proof {
                crate::keyed::lemma_entry_at(extra@, key@, i as int);
            }
            match &extra[i].1 {
                JsonValue::Str(s) => Some(s.clone()),
                _ => None,
            }
        },
        None => {
            proof {
                crate::keyed::lemma_entry_absent(extra@, key@);
            }
            None
        },
    }
}

/// The name and type carried over from the node's current state.
pub fn carried_name_and_type(doc: &ExecutionDocument, node_id: &String) -> (r: (
    Option<String>,
    Option<String>,
))
    ensures
        opt_view(r.0) == carried_name_of(*doc, node_id@),
        opt_view(r.1) == carried_type_of(*doc, node_id@),
{
    match find_key(&doc.nodes, node_id) {
        None => {
            proof {
                crate::keyed::lemma_entry_absent(doc.nodes@, node_id@);
            }
            (None, None)
        },
        Some(i) => {
            proof {
                crate::keyed::lemma_entry_at(doc.nodes@, node_id@, i as int);
            }
            let n = &doc.nodes[i].1;
            let name = match &n.latest {
                Some(l) if l.name.is_some() => copy_text(&l.name),
                _ => text_member_exec(&n.extra, "name"),
            };
            let ty = match &n.latest {
                Some(l) if l.node_type.is_some() => copy_text(&l.node_type),
                _ => text_member_exec(&n.extra, "type"),
            };
            (name, ty)
        },
    }
}

/// The result recorded for a status: every status field and the loop/branch
/// context of `msg`, its lineage (unless default), and the carried name and type.
pub open spec fn instance_from(
    i: NodeExecutionInstance,
    msg: NodeStatusMessage,
    hash: Seq<char>,
    name: Option<Seq<char>>,
    node_type: Option<Seq<char>>,
) -> bool {
    &&& i.input == msg.input
    &&& i.parameters == msg.parameters
    &&& i.output == msg.output
    &&& opt_view(i.status) == Some(msg.status@)
    &&& i.error == msg.error
    &&& opt_view(i.executed_at) == Some(msg.executed_at@)
    &&& i.duration_ms == Some(msg.duration_ms)
    &&& opt_view(i.lineage_hash) == (if hash == DEFAULT_LINEAGE@ { None } else { Some(hash) })
    &&& stack_view(i.lineage_stack) == stack_view(msg.lineage_stack)
    &&& i.used_inputs == msg.used_inputs
    &&& opt_view(i.node_type) == node_type
    &&& opt_view(i.name) == name
    &&& i.branch_id == msg.branch_id
    &&& i.split_node_id == msg.split_node_id
    &&& i.item_index == msg.item_index
    &&& i.total_items == msg.total_items
    &&& i.processed_count == msg.processed_count
    &&& i.aggregator_state == msg.aggregator_state
}

/// What a status event writes into a document: the node's latest result, and
/// its result under `lineage_key` unless the lineage is the default one.
#[derive(Debug)]
pub struct NodeStatusWrite {
    pub node_id: String,
    pub lineage_key: Option<String>,
    pub instance: NodeExecutionInstance,
}

/// The write that `msg` makes on `doc`.
pub fn plan_status_write(doc: &ExecutionDocument, msg: &NodeStatusMessage) -> (r: NodeStatusWrite)
    ensures
        r.node_id@ == msg.node_id@,
        opt_view(r.lineage_key) == (if effective_hash_of(*msg) == DEFAULT_LINEAGE@ {
            None
        } else {
            Some(effective_hash_of(*msg))
        }),
        instance_from(
            r.instance,
            *msg,
            effective_hash_of(*msg),
            carried_name_of(*doc, msg.node_id@),
            carried_type_of(*doc, msg.node_id@),
        ),
        has_stack(*msg) ==> r.lineage_key is Some && r.lineage_key->0@ == lineage_hash_of(
            msg.lineage_stack->0@,
        ),
{
    let hash = effective_lineage_hash(msg);
    proof {
        reveal_strlit("default");
    }
    let (name, node_type) = carried_name_and_type(doc, &msg.node_id);
    let default_key = String::from_str(DEFAULT_LINEAGE);
    let is_default = hash == default_key;
    let lineage_hash = if is_default {
        None
    } else {
        Some(hash.clone())
    };
    let instance = NodeExecutionInstance {
        input: copy_text(&msg.input),
        parameters: copy_text(&msg.parameters),
        output: copy_text(&msg.output),
        status: Some(msg.status.clone()),
        error: copy_error(&msg.error),
        executed_at: Some(msg.executed_at.clone()),
        duration_ms: Some(msg.duration_ms),
        lineage_hash,
        lineage_stack: copy_stack(&msg.lineage_stack),
        used_inputs: copy_text(&msg.used_inputs),
        node_type,
        name,
        branch_id: copy_text(&msg.branch_id),
        split_node_id: copy_text(&msg.split_node_id),
        item_index: msg.item_index,
        total_items: msg.total_items,
        processed_count: msg.processed_count,
        aggregator_state: copy_text(&msg.aggregator_state),
    };
    let lineage_key = if is_default {
        None
    } else {
        Some(hash)
    };
    NodeStatusWrite { node_id: msg.node_id.clone(), lineage_key, instance }
}

pub open spec fn bumped(prev: Option<i64>, now: i64) -> Option<i64> {
    match prev {
        Some(p) if p > now => Some(p),
        _ => Some(now),
    }
}

fn bump(prev: Option<i64>, now: i64) -> (r: Option<i64>)
    ensures
        r == bumped(prev, now),
{
    match prev {
        Some(p) if p > now => Some(p),
        _ => Some(now),
    }
}

/// No two nodes of a document share an id, and no two results of a node
/// share a lineage.
pub open spec fn doc_wf(d: ExecutionDocument) -> bool {
    &&& keys_unique(d.nodes@)
    &&& forall|i: int| 0 <= i < d.nodes@.len() ==> keys_unique(#[trigger] d.nodes@[i].1.lineages@)
}

/// The fields of a document other than its nodes are the same.
pub open spec fn same_header(a: ExecutionDocument, b: ExecutionDocument) -> bool {
    &&& a.execution_id == b.execution_id
    &&& a.workflow_id == b.workflow_id
    &&& a.accumulated_context == b.accumulated_context
    &&& a.edges == b.edges
    &&& a.status == b.status
    &&& a.name == b.name
    &&& a.node_type == b.node_type
    &&& a.created_at == b.created_at
}

/// Apply a status write: the node's latest result becomes the write's
/// result, and so does its result for the write's lineage; other lineages,
/// other nodes and the node's definition fields stay; `updated_at` moves to
/// `now` unless it is already later.
pub fn apply_status_write(doc: &mut ExecutionDocument, w: NodeStatusWrite, now: i64)
    ensures
        doc_wf(*old(doc)) ==> doc_wf(*final(doc)),
        same_header(*final(doc), *old(doc)),
        final(doc).updated_at == bumped(old(doc).updated_at, now),
        forall|k: Seq<char>| k != w.node_id@ ==> entry_of(final(doc).nodes@, k) == entry_of(old(doc).nodes@, k),
        entry_of(final(doc).nodes@, w.node_id@) is Some,
        entry_of(final(doc).nodes@, w.node_id@)->0.latest == Some(w.instance),
        match w.lineage_key {
            Some(key) => {
                &&& entry_of(entry_of(final(doc).nodes@, w.node_id@)->0.lineages@, key@) is Some
                &&& same_instance(
                    entry_of(entry_of(final(doc).nodes@, w.node_id@)->0.lineages@, key@)->0,
                    w.instance,
                )
                &&& forall|k: Seq<char>| k != key@ ==> entry_of(
                    entry_of(final(doc).nodes@, w.node_id@)->0.lineages@,
                    k,
                ) == match entry_of(old(doc).nodes@, w.node_id@) {
                    Some(n) => entry_of(n.lineages@, k),
                    None => None,
                }
            },
            None => entry_of(final(doc).nodes@, w.node_id@)->0.lineages@ == match entry_of(
                old(doc).nodes@,
                w.node_id@,
            ) {
                Some(n) => n.lineages@,
                None => Seq::empty(),
            },
        },
        entry_of(final(doc).nodes@, w.node_id@)->0.extra@ == match entry_of(old(doc).nodes@, w.node_id@) {
            Some(n) => n.extra@,
            None => Seq::empty(),
        },
{
    let NodeStatusWrite { node_id, lineage_key, instance } = w;
    let mut node = match find_key(&doc.nodes, &node_id) {
        Some(i) => {
            proof {
                crate::keyed::lemma_entry_at(doc.nodes@, node_id@, i as int);
            }
            let ghost before = doc.nodes@;
            let mut slot = (node_id.clone(), HydratedNode::empty());
            let ghost placeholder = slot;
            doc.nodes.set_and_swap(i, &mut slot);
            assert(doc.nodes@ == before.update(i as int, placeholder));
            assert forall|k: Seq<char>| k != node_id@ implies entry_of(doc.nodes@, k) == entry_of(before, k) by {
                crate::keyed::lemma_entry_update(before, i as int, placeholder, k);
            }
            let (_, n) = slot;
            n
        },
        None => {
            proof {
                crate::keyed::lemma_entry_absent(doc.nodes@, node_id@);
            }
            HydratedNode::empty()
        },
    };
    if let Some(key) = lineage_key {
        let copy = instance.copy();
        upsert_entry(&mut node.lineages, key, copy);
    }
    node.latest = Some(instance);
    upsert_entry(&mut doc.nodes, node_id, node);
    doc.updated_at = bump(doc.updated_at, now);
}

/// The lineages a node had before a write.
pub open spec fn lineages_before(before: ExecutionDocument, node_id: Seq<char>) -> Seq<(String, NodeExecutionInstance)> {
    match entry_of(before.nodes@, node_id) {
        Some(n) => n.lineages@,
        None => Seq::empty(),
    }
}

/// The definition fields a node had before a write.
pub open spec fn extra_before(before: ExecutionDocument, node_id: Seq<char>) -> Seq<(String, JsonValue)> {
    match entry_of(before.nodes@, node_id) {
        Some(n) => n.extra@,
        None => Seq::empty(),
    }
}

/// `after` is `before` with the status `msg` recorded at `now`: the header
/// and the other nodes stay, `updated_at` moves to `now` unless later; the
/// node's latest result is the one built from `msg`; under the status's
/// lineage, unless it is the default one, the node holds the same result,
/// and its other lineages and its definition fields stay.
pub open spec fn status_recorded(
    after: ExecutionDocument,
    before: ExecutionDocument,
    msg: NodeStatusMessage,
    now: i64,
) -> bool {
    let h = effective_hash_of(msg);
    let n = entry_of(after.nodes@, msg.node_id@)->0;
    &&& same_header(after, before)
    &&& after.updated_at == bumped(before.updated_at, now)
    &&& forall|k: Seq<char>| k != msg.node_id@ ==> #[trigger] entry_of(after.nodes@, k) == entry_of(before.nodes@, k)
    &&& entry_of(after.nodes@, msg.node_id@) is Some
    &&& n.latest is Some
    &&& instance_from(
        n.latest->0,
        msg,
        h,
        carried_name_of(before, msg.node_id@),
        carried_type_of(before, msg.node_id@),
    )
    &&& if h != DEFAULT_LINEAGE@ {
        &&& entry_of(n.lineages@, h) is Some
        &&& same_instance(n.latest->0, entry_of(n.lineages@, h)->0)
        &&& forall|k: Seq<char>| k != h ==> #[trigger] entry_of(n.lineages@, k) == entry_of(lineages_before(before, msg.node_id@), k)
    } else {
        n.lineages@ == lineages_before(before, msg.node_id@)
    }
    &&& n.extra@ == extra_before(before, msg.node_id@)
}

/// Record a status event on its execution's document. The node's latest
/// result and, unless the lineage is the default one, its result for the
/// status's lineage are both set to the result built from `msg`; with a
/// non-empty stack that lineage is the stack's hash.
pub fn record_node_status(doc: &mut ExecutionDocument, msg: &NodeStatusMessage, now: i64)
    ensures
        status_recorded(*final(doc), *old(doc), *msg, now),
        doc_wf(*old(doc)) ==> doc_wf(*final(doc)),
        has_stack(*msg) ==> {
            let n = entry_of(final(doc).nodes@, msg.node_id@)->0;
            &&& entry_of(n.lineages@, lineage_hash_of(msg.lineage_stack->0@)) is Some
            &&& same_instance(
                n.latest->0,
                entry_of(n.lineages@, lineage_hash_of(msg.lineage_stack->0@))->0,
            )
        },
{
    let w = plan_status_write(doc, msg);
    let ghost key = w.lineage_key;
    apply_status_write(doc, w, now);
    proof {
        if has_stack(*msg) {
            assert(effective_hash_of(*msg) == lineage_hash_of(msg.lineage_stack->0@));
        }
    }
}

/// Record a completion: the document's status becomes the completion's and
/// `updated_at` moves to `now` unless it is already later.
pub fn record_completion(doc: &mut ExecutionDocument, msg: &CompletionMessage, now: i64)
    ensures
        final(doc).status is Some,
        final(doc).status->0@ == msg.status@,
        final(doc).updated_at == bumped(old(doc).updated_at, now),
        final(doc).execution_id == old(doc).execution_id,
        final(doc).workflow_id == old(doc).workflow_id,
        final(doc).nodes == old(doc).nodes,
        final(doc).edges == old(doc).edges,
        final(doc).created_at == old(doc).created_at,
        final(doc).accumulated_context == old(doc).accumulated_context,
        final(doc).name == old(doc).name,
        final(doc).node_type == old(doc).node_type,
{
    doc.status = Some(msg.status.clone());
    doc.updated_at = bump(doc.updated_at, now);
}

/// What follows one try of the completion write.
#[derive(Clone, Copy, Debug, PartialEq, Eq)]
pub enum BackfillStep {
    /// The document was found and updated.
    Done,
    /// No document yet: wait this many milliseconds and try again.
    Wait(u64),
    /// No document after the last try: the completion is dropped.
    GiveUp,
}

/// Decide after a try of the completion write, which `matched` a document or
/// not. A miss waits with backoff until the policy's attempts are spent.
pub fn completion_backfill_step(policy: &RetryPolicy, state: RetryState, matched: bool) -> (r: (
    RetryState,
    BackfillStep,
))
    requires
        state.failures < policy.max_attempts,
    ensures
        r.0.failures < policy.max_attempts,
        matched ==> r.1 == BackfillStep::Done,
        !matched && state.failures + 1 >= policy.max_attempts ==> r.1 == BackfillStep::GiveUp,
        !matched && state.failures + 1 < policy.max_attempts ==> r.1 == BackfillStep::Wait(state.backoff_ms)
            && r.0.failures == state.failures + 1 && r.0.backoff_ms == saturating_double(state.backoff_ms),
{
    let outcome: Result<(), ()> = if matched {
        Ok(())
    } else {
        Err(())
    };
    let (next, step) = policy.step(state, outcome);
    match step {
        RetryStep::Finish(Ok(())) => (next, BackfillStep::Done),
        RetryStep::Finish(Err(())) => (next, BackfillStep::GiveUp),
        RetryStep::Wait(ms) => (next, BackfillStep::Wait(ms)),
    }
}

/// The id of a normalized node.
pub open spec fn node_id_of(n: JsonValue) -> Seq<char> {
    normalized_object(n)[0].1->Str_0@
}

proof fn lemma_normalized_nodes_have_ids(ns: Seq<JsonValue>, raw: Option<JsonValue>)
    requires
        nodes_normalized(ns, raw),
    ensures
        forall|j: int| 0 <= j < ns.len() ==> (#[trigger] ns[j]) is Object,
        forall|j: int| 0 <= j < ns.len() ==> normalized_object(#[trigger] ns[j]).len() >= 8
            && normalized_object(ns[j])[0].1 is Str,
{
    assert forall|j: int| 0 <= j < ns.len() implies (#[trigger] ns[j]) is Object && normalized_object(ns[j]).len() >= 8
        && normalized_object(ns[j])[0].1 is Str by {
        match raw {
            Some(JsonValue::Array(a)) => {
                assert(node_normalized(normalized_object(ns[j]), obj_members(a@[j])));
            },
            Some(JsonValue::Object(m)) => {
                assert(node_normalized(
                    normalized_object(ns[j]),
                    obj_members(m@[j].1) + seq![("id"@, JsonValue::Str(m@[j].0))],
                ));
            },
            _ => {},
        }
    }
}

/// The last of `ns` whose id is `k`.
pub open spec fn last_with_id(ns: Seq<JsonValue>, k: Seq<char>) -> Option<JsonValue>
    decreases ns.len(),
{
    if ns.len() == 0 {
        None
    } else if node_id_of(ns.last()) == k {
        Some(ns.last())
    } else {
        last_with_id(ns.drop_last(), k)
    }
}

/// A document node made from a definition node: no result yet, and the
/// definition's members as its fields.
pub open spec fn hydrated_from(h: HydratedNode, n: JsonValue) -> bool {
    &&& h.latest is None
    &&& h.lineages@.len() == 0
    &&& shallow(h.extra@) == normalized_object(n)
}

/// The document after a node activation: the definition's normalized edges,
/// one node per normalized node id (the last node with an id wins, with no
/// result yet), the activation's ids and context; status, name and type are
/// kept, `created_at` is set when the document is new, and `updated_at`
/// moves to `now` unless it is already later.
pub fn record_definition(existing: Option<ExecutionDocument>, msg: NodeExecutionMessage, now: i64) -> (r: ExecutionDocument)
    ensures
        doc_wf(r),
        r.execution_id == msg.execution_id,
        r.workflow_id == msg.workflow_id,
        r.accumulated_context == Some(msg.accumulated_context),
        edges_normalized(r.edges@, field(obj_members(msg.workflow_definition), "edges"@)),
        exists|ns: Seq<JsonValue>| {
            &&& nodes_normalized(ns, field(obj_members(msg.workflow_definition), "nodes"@))
            &&& forall|k: Seq<char>| match #[trigger] last_with_id(ns, k) {
                None => entry_of(r.nodes@, k) is None,
                Some(n) => entry_of(r.nodes@, k) is Some && hydrated_from(entry_of(r.nodes@, k)->0, n),
            }
        },
        match existing {
            Some(d) => {
                &&& r.status == d.status
                &&& r.name == d.name
                &&& r.node_type == d.node_type
                &&& r.created_at == d.created_at
                &&& r.updated_at == bumped(d.updated_at, now)
            },
            None => {
                &&& r.status is None
                &&& r.created_at == Some(now)
                &&& r.updated_at == Some(now)
            },
        },
{
    let NodeExecutionMessage { workflow_id, execution_id, workflow_definition, accumulated_context, .. } = msg;
    let ghost input = obj_members(workflow_definition);
    let mut f = match workflow_definition {
        JsonValue::Object(f) => f,
        _ => Vec::new(),
    };
    assert(shallow(f@) =~= input);
    let ghost s0 = f@;
    let edges_raw = crate::normalize::take_member(&mut f, "edges");
    let ghost s1 = f@;
    proof {
        reveal_strlit("edges");
        reveal_strlit("nodes");
        assert("edges"@.len() == 5 && "nodes"@.len() == 5 && "edges"@[0] != "nodes"@[0]);
        crate::normalize::lemma_field_agree(shallow(s1), shallow(s0), "nodes"@, "edges"@);
    }
    let nodes_raw = crate::normalize::take_member(&mut f, "nodes");
    let edges = normalize_edges(edges_raw);
    let mut nodes = normalize_nodes(nodes_raw);
    let ghost ns = nodes@;
    proof {
        lemma_normalized_nodes_have_ids(ns, field(obj_members(workflow_definition), "nodes"@));
    }
    let mut doc_nodes: Vec<(String, HydratedNode)> = Vec::new();
    let mut i: usize = 0;
    while i < nodes.len()
        invariant
            nodes@.len() == ns.len(),
            i <= ns.len(),
            forall|j: int| 0 <= j < ns.len() ==> (#[trigger] ns[j]) is Object,
            forall|j: int| 0 <= j < ns.len() ==> normalized_object(#[trigger] ns[j]).len() >= 8
                && normalized_object(ns[j])[0].1 is Str,
            forall|j: int| i <= j < ns.len() ==> #[trigger] nodes@[j] == ns[j],
            keys_unique(doc_nodes@),
            forall|j: int| 0 <= j < doc_nodes@.len() ==> (#[trigger] doc_nodes@[j]).1.lineages@.len() == 0,
            forall|k: Seq<char>| match #[trigger] last_with_id(ns.take(i as int), k) {
                None => entry_of(doc_nodes@, k) is None,
                Some(n) => entry_of(doc_nodes@, k) is Some && hydrated_from(entry_of(doc_nodes@, k)->0, n),
            },
        decreases ns.len() - i,
    {
        let mut slot = JsonValue::Null;
        nodes.set_and_swap(i, &mut slot);
        let ghost node = slot;
        assert(node == ns[i as int]);
        if let JsonValue::Object(fields) = slot {
            assert(shallow(fields@)[0].1 == fields@[0].1);
            if fields.len() > 0 {
                if let JsonValue::Str(id) = &fields[0].1 {
                    let key = id.clone();
                    let h = HydratedNode { latest: None, lineages: Vec::new(), extra: fields };
                    assert(key@ == node_id_of(node));
                    assert(hydrated_from(h, node));
                    crate::keyed::upsert_entry(&mut doc_nodes, key, h);
                }
            }
        }
        assert(ns.take(i + 1).drop_last() =~= ns.take(i as int));
        assert(ns.take(i + 1).last() == node);
        assert forall|k: Seq<char>| match #[trigger] last_with_id(ns.take(i + 1), k) {
            None => entry_of(doc_nodes@, k) is None,
            Some(n) => entry_of(doc_nodes@, k) is Some && hydrated_from(entry_of(doc_nodes@, k)->0, n),
        } by {
            if node_id_of(node) != k {
                assert(last_with_id(ns.take(i + 1), k) == last_with_id(ns.take(i as int), k));
            }
        }
        i = i + 1;
    }
    assert(ns.take(ns.len() as int) =~= ns);
    assert forall|j: int| 0 <= j < doc_nodes@.len() implies keys_unique(#[trigger] doc_nodes@[j].1.lineages@) by {
        assert(doc_nodes@[j].1.lineages@.len() == 0);
    }
    let (status, name, node_type, created_at, updated_at) = match existing {
        Some(d) => (d.status, d.name, d.node_type, d.created_at, bump(d.updated_at, now)),
        None => (None, None, None, Some(now), Some(now)),
    };
    ExecutionDocument {
        execution_id,
        workflow_id,
        accumulated_context: Some(accumulated_context),
        nodes: doc_nodes,
        edges,
        status,
        name,
        node_type,
        created_at,
        updated_at,
    }
}

} // verus!
