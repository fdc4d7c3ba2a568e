//! The token queue's payload and its expansion into grants.
use vstd::prelude::*;
use crate::grants::{ExecutionToken, GrantView};

verus! {

/// A grant request as accepted on the token queue: single ids, lists of ids,
/// or both.
#[derive(Clone, Debug, PartialEq, Eq)]
pub struct ExecutionTokenPayload {
    pub execution_id: Option<String>,
    pub execution_ids: Option<Vec<String>>,
    pub workflow_id: Option<String>,
    pub workflow_ids: Option<Vec<String>>,
    pub iat: i64,
    pub exp: i64,
    pub user_id: String,
}

/// Why a payload yields no grants.
#[derive(Clone, Copy, Debug, PartialEq, Eq)]
pub enum PayloadError {
    /// After trimming, no workflow id is left.
    MissingWorkflowId,
}

/// What `str::trim` leaves of a string.
pub uninterp spec fn trim_of(s: Seq<char>) -> Seq<char>;

/// Relies on `str::trim`: the result depends on the characters alone.
#[verifier::external_body]
fn trimmed(s: &String) -> (r: String)
    ensures
        r@ == trim_of(s@),
{
    s.trim().to_string()
}

/// The ids as given: the single id first, then the list.
pub open spec fn raw_ids(single: Option<String>, list: Option<Vec<String>>) -> Seq<Seq<char>> {
    head_ids(single) + tail_ids(list)
}

pub open spec fn head_ids(single: Option<String>) -> Seq<Seq<char>> {
    match single {
        Some(s) => seq![s@],
        None => Seq::empty(),
    }
}

pub open spec fn tail_ids(list: Option<Vec<String>>) -> Seq<Seq<char>> {
    match list {
        Some(v) => v@.map_values(|s: String| s@),
        None => Seq::empty(),
    }
}

/// Trimmed ids, without empty ones, each kept at its first occurrence.
pub open spec fn clean_ids(raw: Seq<Seq<char>>) -> Seq<Seq<char>>
    decreases raw.len(),
{
    if raw.len() == 0 {
        Seq::empty()
    } else {
        absorb_id(clean_ids(raw.drop_last()), raw.last())
    }
}

pub open spec fn grant_of(
    p: ExecutionTokenPayload,
    workflow: Seq<char>,
    execution: Option<Seq<char>>,
) -> GrantView {
    GrantView { execution_id: execution, workflow_id: workflow, iat: p.iat, exp: p.exp, user_id: p.user_id@ }
}

/// Grants of one workflow: one per execution id, or one wildcard grant.
pub open spec fn grants_for_workflow(
    p: ExecutionTokenPayload,
    w: Seq<char>,
    execs: Seq<Seq<char>>,
) -> Seq<GrantView> {
    if execs.len() == 0 {
        seq![grant_of(p, w, None)]
    } else {
        execs.map_values(|e: Seq<char>| grant_of(p, w, Some(e)))
    }
}

/// Grants of the first workflows, in order.
pub open spec fn grants_for_workflows(
    p: ExecutionTokenPayload,
    ws: Seq<Seq<char>>,
    execs: Seq<Seq<char>>,
) -> Seq<GrantView>
    decreases ws.len(),
{
    if ws.len() == 0 {
        Seq::empty()
    } else {
        grants_for_workflows(p, ws.drop_last(), execs) + grants_for_workflow(p, ws.last(), execs)
    }
}

pub open spec fn payload_workflows(p: ExecutionTokenPayload) -> Seq<Seq<char>> {
    clean_ids(raw_ids(p.workflow_id, p.workflow_ids))
}

pub open spec fn payload_executions(p: ExecutionTokenPayload) -> Seq<Seq<char>> {
    clean_ids(raw_ids(p.execution_id, p.execution_ids))
}

/// What a payload expands to.
pub open spec fn expansion_of(p: ExecutionTokenPayload) -> Result<Seq<GrantView>, PayloadError> {
    let ws = payload_workflows(p);
    if ws.len() == 0 {
        Err(PayloadError::MissingWorkflowId)
    } else {
        Ok(grants_for_workflows(p, ws, payload_executions(p)))
    }
}

/// One id taken in: trimmed, and kept unless empty or already present.
pub open spec fn absorb_id(prev: Seq<Seq<char>>, id: Seq<char>) -> Seq<Seq<char>> {
    let t = trim_of(id);
    if t.len() == 0 || prev.contains(t) {
        prev
    } else {
        prev.push(t)
    }
}

fn absorb(out: &mut Vec<String>, id: &String)
    ensures
        final(out)@.map_values(|s: String| s@) =~= absorb_id(old(out)@.map_values(|s: String| s@), id@),
{
    let t = trimmed(id);
    let ghost cur = out@.map_values(|s: String| s@);
    let mut present = false;
    let mut j: usize = 0;
    while j < out.len()
        invariant
            j <= out@.len(),
            cur == out@.map_values(|s: String| s@),
            present == exists|k: int| 0 <= k < j && (#[trigger] out@[k])@ == t@,
        decreases out@.len() - j,
    {
        if out[j] == t {
            present = true;
        }
        j = j + 1;
    }
    assert(present == cur.contains(t@)) by {
        if present {
            let k = choose|k: int| 0 <= k < out@.len() && (#[trigger] out@[k])@ == t@;
            assert(cur[k] == t@);
        }
        if cur.contains(t@) {
            let k = choose|k: int| 0 <= k < cur.len() && cur[k] == t@;
            assert(out@[k]@ == t@);
        }
    }
    if !t.as_str().is_empty() && !present {
        out.push(t);
    }
}

/// Collect the single id and the list, trimmed, without empty ids and without
/// repeats.
fn clean(single: &Option<String>, list: &Option<Vec<String>>) -> (r: Vec<String>)
    ensures
        r@.map_values(|s: String| s@) =~= clean_ids(raw_ids(*single, *list)),
{
    let ghost raw = raw_ids(*single, *list);
    let ghost head = head_ids(*single);
    let ghost tail = tail_ids(*list);
    assert(raw == head + tail);
    let mut out: Vec<String> = Vec::new();
    assert(clean_ids(raw.take(0)) =~= Seq::<Seq<char>>::empty());
    if let Some(s) = single {
        absorb(&mut out, s);
        assert(raw.take(1).drop_last() =~= raw.take(0));
        assert(raw.take(1).last() == s@);
    }
    assert(out@.map_values(|s: String| s@) =~= clean_ids(raw.take(head.len() as int)));
    if let Some(v) = list {
        let mut i: usize = 0;
        while i < v.len()
            invariant
                raw == head + tail,
                tail == v@.map_values(|s: String| s@),
                i <= v@.len(),
                out@.map_values(|s: String| s@) =~= clean_ids(raw.take(head.len() + i)),
            decreases v@.len() - i,
        {
            absorb(&mut out, &v[i]);
            assert(raw.take(head.len() + i + 1).drop_last() =~= raw.take(head.len() + i));
            assert(raw.take(head.len() + i + 1).last() == tail[i as int]);
            i = i + 1;
        }
    }
    assert(raw.take(raw.len() as int) =~= raw);
    out
}

impl ExecutionTokenPayload {
    /// Expand into grants. Without a workflow id the payload is refused;
    /// without execution ids each workflow gets one wildcard grant; otherwise
    /// each workflow gets one grant per execution id (the cross product).
    pub fn expand(&self) -> (r: Result<Vec<ExecutionToken>, PayloadError>)
        ensures
            match (r, expansion_of(*self)) {
                (Ok(v), Ok(g)) => v@.map_values(|t: ExecutionToken| t@) =~= g,
                (Err(e), Err(f)) => e == f,
                _ => false,
            },
    {
        let ws = clean(&self.workflow_id, &self.workflow_ids);
        let es = clean(&self.execution_id, &self.execution_ids);
        if ws.len() == 0 {
            return Err(PayloadError::MissingWorkflowId);
        }
        let ghost wsv = ws@.map_values(|s: String| s@);
        let ghost esv = es@.map_values(|s: String| s@);
        let ghost p = *self;
        let mut out: Vec<ExecutionToken> = Vec::new();
        let mut i: usize = 0;
        while i < ws.len()
            invariant
                i <= ws@.len(),
                wsv == ws@.map_values(|s: String| s@),
                esv == es@.map_values(|s: String| s@),
                p == *self,
                out@.map_values(|t: ExecutionToken| t@) =~= grants_for_workflows(p, wsv.take(i as int), esv),
            decreases ws@.len() - i,
        {
            let ghost before = out@.map_values(|t: ExecutionToken| t@);
            assert(wsv.take(i + 1).drop_last() =~= wsv.take(i as int));
            assert(wsv.take(i + 1).last() == ws@[i as int]@);
            if es.len() == 0 {
                out.push(ExecutionToken {
                    execution_id: None,
                    workflow_id: ws[i].clone(),
                    iat: self.iat,
                    exp: self.exp,
                    user_id: self.user_id.clone(),
                });
            } else {
                let mut j: usize = 0;
                while j < es.len()
                    invariant
                        j <= es@.len(),
                        i < ws@.len(),
                        esv == es@.map_values(|s: String| s@),
                        p == *self,
                        out@.map_values(|t: ExecutionToken| t@) =~= before + esv.take(j as int).map_values(
                            |e: Seq<char>| grant_of(p, ws@[i as int]@, Some(e)),
                        ),
                    decreases es@.len() - j,
                {
                    assert(esv.take(j + 1) =~= esv.take(j as int).push(es@[j as int]@));
                    let tok = ExecutionToken {
                        execution_id: Some(es[j].clone()),
                        workflow_id: ws[i].clone(),
                        iat: self.iat,
                        exp: self.exp,
                        user_id: self.user_id.clone(),
                    };
                    assert(tok@ == grant_of(p, ws@[i as int]@, Some(esv[j as int])));
                    let ghost prev = out@;
                    out.push(tok);
                    assert(out@.map_values(|t: ExecutionToken| t@) =~= prev.map_values(
                        |t: ExecutionToken| t@,
                    ).push(tok@));
                    j = j + 1;
                }
                assert(esv.take(es@.len() as int) =~= esv);
            }
            i = i + 1;
        }
        assert(wsv.take(ws@.len() as int) =~= wsv);
        Ok(out)
    }
}


proof fn lemma_grants_layout(p: ExecutionTokenPayload, ws: Seq<Seq<char>>, es: Seq<Seq<char>>)
    requires
        es.len() > 0,
    ensures
        grants_for_workflows(p, ws, es).len() == ws.len() * es.len(),
        forall|a: int, b: int|
            0 <= a < ws.len() && 0 <= b < es.len() ==> #[trigger] grants_for_workflows(p, ws, es)[a
                * es.len() + b] == grant_of(p, ws[a], Some(#[trigger] es[b])),
    decreases ws.len(),
{
    if ws.len() > 0 {
        let init = ws.drop_last();
        lemma_grants_layout(p, init, es);
        let g = grants_for_workflows(p, ws, es);
        let n = es.len();
        assert(grants_for_workflows(p, init, es).len() == init.len() * n);
        assert(g.len() == ws.len() * n) by (nonlinear_arith)
            requires
                g.len() == init.len() * n + n,
                ws.len() == init.len() + 1,
        ;
        assert forall|a: int, b: int| 0 <= a < ws.len() && 0 <= b < n implies #[trigger] g[a * n
            + b] == grant_of(p, ws[a], Some(#[trigger] es[b])) by {
            if a < init.len() {
                assert(a * n + b < init.len() * n) by (nonlinear_arith)
                    requires
                        a < init.len(),
                        b < n,
                        0 <= a,
                        0 <= b,
                ;
                assert(init[a] == ws[a]);
            } else {
                assert(a * n == init.len() * n) by (nonlinear_arith)
                    requires
                        a == init.len(),
                ;
            }
        }
    }
}

proof fn lemma_wildcard_layout(p: ExecutionTokenPayload, ws: Seq<Seq<char>>)
    ensures
        grants_for_workflows(p, ws, Seq::empty()).len() == ws.len(),
        forall|a: int|
            0 <= a < ws.len() ==> #[trigger] grants_for_workflows(p, ws, Seq::empty())[a] == grant_of(
                p,
                ws[a],
                None,
            ),
    decreases ws.len(),
{
    if ws.len() > 0 {
        lemma_wildcard_layout(p, ws.drop_last());
    }
}

/// A payload without any workflow id left after trimming is refused.
pub proof fn expansion_needs_a_workflow(p: ExecutionTokenPayload)
    requires
        payload_workflows(p).len() == 0,
    ensures
        expansion_of(p) == Err::<Seq<GrantView>, PayloadError>(PayloadError::MissingWorkflowId),
{
}

/// Without execution ids, each workflow id gets exactly one wildcard grant.
pub proof fn expansion_without_executions_is_wildcard_per_workflow(p: ExecutionTokenPayload)
    requires
        payload_workflows(p).len() > 0,
        payload_executions(p).len() == 0,
    ensures
        expansion_of(p) is Ok,
        expansion_of(p)->Ok_0.len() == payload_workflows(p).len(),
        forall|a: int|
            0 <= a < payload_workflows(p).len() ==> #[trigger] expansion_of(p)->Ok_0[a] == grant_of(
                p,
                payload_workflows(p)[a],
                None,
            ),
{
    assert(payload_executions(p) =~= Seq::<Seq<char>>::empty());
    lemma_wildcard_layout(p, payload_workflows(p));
}

/// With execution ids, the grants are the cross product: one for each pair of
/// a workflow id and an execution id, workflow-major.
pub proof fn expansion_is_cross_product(p: ExecutionTokenPayload)
    requires
        payload_workflows(p).len() > 0,
        payload_executions(p).len() > 0,
    ensures
        expansion_of(p) is Ok,
        expansion_of(p)->Ok_0.len() == payload_workflows(p).len() * payload_executions(p).len(),
        forall|a: int, b: int|
            0 <= a < payload_workflows(p).len() && 0 <= b < payload_executions(p).len()
                ==> #[trigger] expansion_of(p)->Ok_0[a * payload_executions(p).len() + b] == grant_of(
                p,
                payload_workflows(p)[a],
                Some(#[trigger] payload_executions(p)[b]),
            ),
{
    lemma_grants_layout(p, payload_workflows(p), payload_executions(p));
}

/// A payload with one execution id and one workflow id, both non-blank,
/// yields exactly one grant, for the trimmed pair.
pub proof fn expansion_of_single_ids(p: ExecutionTokenPayload, e: String, w: String)
    requires
        p.execution_id == Some(e),
        p.execution_ids is None,
        p.workflow_id == Some(w),
        p.workflow_ids is None,
        trim_of(e@).len() > 0,
        trim_of(w@).len() > 0,
    ensures
        expansion_of(p) == Ok::<Seq<GrantView>, PayloadError>(
            seq![grant_of(p, trim_of(w@), Some(trim_of(e@)))],
        ),
{
    let rw = raw_ids(p.workflow_id, p.workflow_ids);
    let re = raw_ids(p.execution_id, p.execution_ids);
    assert(rw =~= seq![w@]);
    assert(re =~= seq![e@]);
    assert(rw.drop_last() =~= Seq::<Seq<char>>::empty());
    assert(re.drop_last() =~= Seq::<Seq<char>>::empty());
    assert(clean_ids(rw.drop_last()) =~= Seq::<Seq<char>>::empty());
    assert(clean_ids(re.drop_last()) =~= Seq::<Seq<char>>::empty());
    assert(!Seq::<Seq<char>>::empty().contains(trim_of(w@)));
    assert(!Seq::<Seq<char>>::empty().contains(trim_of(e@)));
    assert(rw.last() == w@);
    assert(re.last() == e@);
    assert(clean_ids(rw) =~= seq![trim_of(w@)]);
    assert(clean_ids(re) =~= seq![trim_of(e@)]);
    let ws = payload_workflows(p);
    assert(ws.drop_last() =~= Seq::<Seq<char>>::empty());
    let es = payload_executions(p);
    assert(ws.last() == trim_of(w@));
    assert(grants_for_workflows(p, ws.drop_last(), es) =~= Seq::<GrantView>::empty());
    assert(es.map_values(|x: Seq<char>| grant_of(p, trim_of(w@), Some(x))) =~= seq![grant_of(p, trim_of(w@), Some(trim_of(e@)))]);
    let g = grants_for_workflows(p, ws, es);
    assert(g =~= seq![grant_of(p, trim_of(w@), Some(trim_of(e@)))]);
}

} // verus!
