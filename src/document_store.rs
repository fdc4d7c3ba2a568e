//! An in-process execution store: one hydrated document per execution id,
//! written by node activations, status events and completions.
use vstd::prelude::*;
use crate::document::{
    bumped, doc_wf, hydrated_from, last_with_id, record_completion, record_definition,
    record_node_status, status_recorded, has_stack,
};
use crate::json::{field, JsonValue};
use crate::keyed::{entry_of, find_key, keys_unique, upsert_entry};
use crate::normalize::{edges_normalized, nodes_normalized, obj_members};
use crate::lineage::lineage_hash_of;
use crate::models::{
    same_instance, CompletionMessage, ExecutionDocument, NodeExecutionMessage, NodeStatusMessage,
};

verus! {

/// Documents keyed by execution id.
#[derive(Debug)]
pub struct DocumentStore {
    pub entries: Vec<(String, ExecutionDocument)>,
}

/// The documents of `entries` that belong to `workflow_id`, in order.
pub open spec fn of_workflow(entries: Seq<(String, ExecutionDocument)>, workflow_id: Seq<char>) -> Seq<ExecutionDocument>
    decreases entries.len(),
{
    if entries.len() == 0 {
        Seq::empty()
    } else if entries.last().1.workflow_id@ == workflow_id {
        of_workflow(entries.drop_last(), workflow_id).push(entries.last().1)
    } else {
        of_workflow(entries.drop_last(), workflow_id)
    }
}

fn placeholder(execution_id: &String) -> (r: ExecutionDocument)
    ensures
        r.execution_id == *execution_id,
{
    ExecutionDocument {
        execution_id: execution_id.clone(),
        workflow_id: String::new(),
        accumulated_context: None,
        nodes: Vec::new(),
        edges: Vec::new(),
        status: None,
        name: None,
        node_type: None,
        created_at: None,
        updated_at: None,
    }
}

impl DocumentStore {
    /// The document of an execution.
    pub open spec fn document(&self, execution_id: Seq<char>) -> Option<ExecutionDocument> {
        entry_of(self.entries@, execution_id)
    }

    /// Each execution id keys one document, which carries that id and whose
    /// nodes and lineages have distinct keys.
    pub open spec fn wf(&self) -> bool {
        &&& keys_unique(self.entries@)
        &&& forall|k: Seq<char>| #[trigger] self.document(k) is Some ==> self.document(k)->0.execution_id@ == k
            && doc_wf(self.document(k)->0)
    }

    pub fn new() -> (r: DocumentStore)
        ensures
            r.wf(),
            forall|k: Seq<char>| #[trigger] r.document(k) is None,
    {
        DocumentStore { entries: Vec::new() }
    }

    /// Take the document of `execution_id` out, leaving a placeholder.
    fn take(&mut self, execution_id: &String) -> (r: Option<(usize, ExecutionDocument)>)
        ensures
            match r {
                Some((i, d)) => {
                    &&& old(self).document(execution_id@) == Some(d)
                    &&& i < old(self).entries@.len()
                    &&& old(self).entries@[i as int].0@ == execution_id@
                    &&& forall|j: int| 0 <= j < i ==> (#[trigger] old(self).entries@[j]).0@ != execution_id@
                    &&& i < final(self).entries@.len()
                    &&& final(self).entries@ == old(self).entries@.update(i as int, final(self).entries@[i as int])
                    &&& keys_unique(old(self).entries@) ==> keys_unique(final(self).entries@)
                    &&& final(self).entries@[i as int].0@ == execution_id@
                    &&& forall|j: int| 0 <= j < i ==> (#[trigger] final(self).entries@[j]).0@ != execution_id@
                },
                None => {
                    &&& old(self).document(execution_id@) is None
                    &&& final(self).entries@ == old(self).entries@
                },
            },
    {
        match find_key(&self.entries, execution_id) {
            None => {
                proof {
                    crate::keyed::lemma_entry_absent(self.entries@, execution_id@);
                }
                None
            },
            Some(i) => {
                proof {
                    crate::keyed::lemma_entry_at(self.entries@, execution_id@, i as int);
                }
                let mut slot = (execution_id.clone(), placeholder(execution_id));
                let ghost before = self.entries@;
                self.entries.set_and_swap(i, &mut slot);
                assert forall|a: int, b: int| 0 <= a < b < self.entries@.len() && keys_unique(before)
                    implies (#[trigger] self.entries@[a]).0@ != (#[trigger] self.entries@[b]).0@ by {
                    assert(before[a].0@ != before[b].0@);
                }
                let (_, d) = slot;
                Some((i, d))
            },
        }
    }

    /// Put a document back where it was taken from.
    fn put_back(&mut self, i: usize, execution_id: &String, d: ExecutionDocument)
        requires
            i < old(self).entries@.len(),
            old(self).entries@[i as int].0@ == execution_id@,
            forall|j: int| 0 <= j < i ==> (#[trigger] old(self).entries@[j]).0@ != execution_id@,
        ensures
            final(self).document(execution_id@) == Some(d),
            forall|k: Seq<char>| k != execution_id@ ==> #[trigger] final(self).document(k) == old(self).document(k),
            keys_unique(old(self).entries@) ==> keys_unique(final(self).entries@),
    {
        let ghost before = self.entries@;
        let p = (execution_id.clone(), d);
        let ghost pv = p;
        self.entries.set(i, p);
        assert(self.entries@ == before.update(i as int, pv));
        proof {
            crate::keyed::lemma_entry_update(before, i as int, pv, execution_id@);
        }
        assert forall|k: Seq<char>| k != execution_id@ implies #[trigger] self.document(k) == old(self).document(k) by {
            crate::keyed::lemma_entry_update(before, i as int, pv, k);
        }
        assert forall|a: int, b: int| 0 <= a < b < self.entries@.len() && keys_unique(before)
            implies (#[trigger] self.entries@[a]).0@ != (#[trigger] self.entries@[b]).0@ by {
            assert(before[a].0@ != before[b].0@);
        }
    }

    /// Record a node activation: the execution's document is created or
    /// refreshed from the normalized definition; `created_at` is set only
    /// when the document is new.
    pub fn upsert_execution_definition(&mut self, msg: NodeExecutionMessage, now: i64)
        requires
            old(self).wf(),
        ensures
            final(self).wf(),
            final(self).document(msg.execution_id@) is Some,
            final(self).document(msg.execution_id@)->0.accumulated_context == Some(msg.accumulated_context),
            edges_normalized(
                final(self).document(msg.execution_id@)->0.edges@,
                field(obj_members(msg.workflow_definition), "edges"@),
            ),
            exists|ns: Seq<JsonValue>| {
                &&& nodes_normalized(ns, field(obj_members(msg.workflow_definition), "nodes"@))
                &&& forall|k: Seq<char>| match #[trigger] last_with_id(ns, k) {
                    None => entry_of(final(self).document(msg.execution_id@)->0.nodes@, k) is None,
                    Some(n) => entry_of(final(self).document(msg.execution_id@)->0.nodes@, k) is Some
                        && hydrated_from(entry_of(final(self).document(msg.execution_id@)->0.nodes@, k)->0, n),
                }
            },
            final(self).document(msg.execution_id@)->0.execution_id == msg.execution_id,
            final(self).document(msg.execution_id@)->0.workflow_id == msg.workflow_id,
            match old(self).document(msg.execution_id@) {
                Some(d) => {
                    &&& final(self).document(msg.execution_id@)->0.created_at == d.created_at
                    &&& final(self).document(msg.execution_id@)->0.status == d.status
                    &&& final(self).document(msg.execution_id@)->0.updated_at == bumped(d.updated_at, now)
                },
                None => {
                    &&& final(self).document(msg.execution_id@)->0.created_at == Some(now)
                    &&& final(self).document(msg.execution_id@)->0.updated_at == Some(now)
                },
            },
            forall|k: Seq<char>| k != msg.execution_id@ ==> #[trigger] final(self).document(k) == old(self).document(k),
    {
        let id = msg.execution_id.clone();
        let ghost idv = id@;
        let ghost snapshot = *self;
        match self.take(&id) {
            Some((i, d)) => {
                let fresh = record_definition(Some(d), msg, now);
                assert forall|k: Seq<char>| k != id@ implies #[trigger] self.document(k) == snapshot.document(k) by {
                    crate::keyed::lemma_entry_update(snapshot.entries@, i as int, self.entries@[i as int], k);
                }
                self.put_back(i, &id, fresh);
            },
            None => {
                let fresh = record_definition(None, msg, now);
                upsert_entry(&mut self.entries, id, fresh);
            },
        }
        proof {
            assert forall|k: Seq<char>| #[trigger] self.document(k) is Some implies self.document(k)->0.execution_id@ == k
                && doc_wf(self.document(k)->0) by {
                if k != idv {
                    assert(self.document(k) == snapshot.document(k));
                }
            }
        }
    }

    /// Record a status event on its execution's document. Without a document
    /// nothing changes and `false` is returned: the activation that creates
    /// the document will follow.
    pub fn update_node_status(&mut self, msg: &NodeStatusMessage, now: i64) -> (found: bool)
        requires
            old(self).wf(),
        ensures
            final(self).wf(),
            found == old(self).document(msg.execution_id@) is Some,
            !found ==> final(self).entries@ == old(self).entries@,
            found ==> final(self).document(msg.execution_id@) is Some && status_recorded(
                final(self).document(msg.execution_id@)->0,
                old(self).document(msg.execution_id@)->0,
                *msg,
                now,
            ),
            found && has_stack(*msg) ==> {
                let n = entry_of(final(self).document(msg.execution_id@)->0.nodes@, msg.node_id@)->0;
                &&& entry_of(n.lineages@, lineage_hash_of(msg.lineage_stack->0@)) is Some
                &&& same_instance(
                    n.latest->0,
                    entry_of(n.lineages@, lineage_hash_of(msg.lineage_stack->0@))->0,
                )
            },
            forall|k: Seq<char>| k != msg.execution_id@ ==> #[trigger] final(self).document(k) == old(self).document(k),
    {
        let ghost snapshot = *self;
        let r = match self.take(&msg.execution_id) {
            None => false,
            Some((i, d)) => {
                let mut d = d;
                record_node_status(&mut d, msg, now);
                assert forall|k: Seq<char>| k != msg.execution_id@ implies #[trigger] self.document(k) == snapshot.document(k) by {
                    crate::keyed::lemma_entry_update(snapshot.entries@, i as int, self.entries@[i as int], k);
                }
                self.put_back(i, &msg.execution_id, d);
                true
            },
        };
        proof {
            assert forall|k: Seq<char>| #[trigger] self.document(k) is Some implies self.document(k)->0.execution_id@ == k
                && doc_wf(self.document(k)->0) by {
                if k != msg.execution_id@ {
                    assert(self.document(k) == snapshot.document(k));
                }
            }
        }
        r
    }

    /// Record a completion on its execution's document; `false` when there
    /// is no document yet.
    pub fn complete_execution(&mut self, msg: &CompletionMessage, now: i64) -> (matched: bool)
        requires
            old(self).wf(),
        ensures
            final(self).wf(),
            matched == old(self).document(msg.execution_id@) is Some,
            !matched ==> final(self).entries@ == old(self).entries@,
            matched ==> {
                let d = final(self).document(msg.execution_id@)->0;
                let before = old(self).document(msg.execution_id@)->0;
                &&& final(self).document(msg.execution_id@) is Some
                &&& d.status is Some
                &&& d.status->0@ == msg.status@
                &&& d.created_at == before.created_at
                &&& d.updated_at == bumped(before.updated_at, now)
                &&& d.nodes == before.nodes
                &&& d.execution_id == before.execution_id
                &&& d.workflow_id == before.workflow_id
                &&& d.edges == before.edges
                &&& d.accumulated_context == before.accumulated_context
                &&& d.name == before.name
                &&& d.node_type == before.node_type
            },
            forall|k: Seq<char>| k != msg.execution_id@ ==> #[trigger] final(self).document(k) == old(self).document(k),
    {
        let ghost snapshot = *self;
        let r = match self.take(&msg.execution_id) {
            None => false,
            Some((i, d)) => {
                let mut d = d;
                record_completion(&mut d, msg, now);
                assert forall|k: Seq<char>| k != msg.execution_id@ implies #[trigger] self.document(k) == snapshot.document(k) by {
                    crate::keyed::lemma_entry_update(snapshot.entries@, i as int, self.entries@[i as int], k);
                }
                self.put_back(i, &msg.execution_id, d);
                true
            },
        };
        proof {
            assert forall|k: Seq<char>| #[trigger] self.document(k) is Some implies self.document(k)->0.execution_id@ == k
                && doc_wf(self.document(k)->0) by {
                if k != msg.execution_id@ {
                    assert(self.document(k) == snapshot.document(k));
                }
            }
        }
        r
    }

    /// The document of an execution, if any.
    pub fn get_execution_document(&self, execution_id: &String) -> (r: Option<&ExecutionDocument>)
        requires
            self.wf(),
        ensures
            match r {
                Some(d) => self.document(execution_id@) == Some(*d) && d.execution_id@ == execution_id@,
                None => self.document(execution_id@) is None,
            },
    {
        match find_key(&self.entries, execution_id) {
            Some(i) => {
                proof {
                    crate::keyed::lemma_entry_at(self.entries@, execution_id@, i as int);
                }
                Some(&self.entries[i].1)
            },
            None => {
                proof {
                    crate::keyed::lemma_entry_absent(self.entries@, execution_id@);
                }
                None
            },
        }
    }

    /// Every document of a workflow, in store order.
    pub fn get_executions_for_workflow(&self, workflow_id: &String) -> (r: Vec<&ExecutionDocument>)
        ensures
            r@.len() == of_workflow(self.entries@, workflow_id@).len(),
            forall|i: int| 0 <= i < r@.len() ==> *(#[trigger] r@[i]) == of_workflow(self.entries@, workflow_id@)[i],
    {
        let mut out: Vec<&ExecutionDocument> = Vec::new();
        let mut i: usize = 0;
        while i < self.entries.len()
            invariant
                i <= self.entries@.len(),
                out@.len() == of_workflow(self.entries@.take(i as int), workflow_id@).len(),
                forall|j: int| 0 <= j < out@.len() ==> *(#[trigger] out@[j]) == of_workflow(self.entries@.take(i as int), workflow_id@)[j],
            decreases self.entries@.len() - i,
        {
            assert(self.entries@.take(i + 1).drop_last() =~= self.entries@.take(i as int));
            assert(self.entries@.take(i + 1).last() == self.entries@[i as int]);
            if self.entries[i].1.workflow_id == *workflow_id {
                out.push(&self.entries[i].1);
            }
            i = i + 1;
        }
        assert(self.entries@.take(i as int) =~= self.entries@);
        out
    }
}

} // verus!
