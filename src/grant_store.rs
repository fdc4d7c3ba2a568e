//! An in-process credential store with the semantics of the key-value one:
//! a set of grants under each index key, expired grants swept by the query
//! that reads them.
use vstd::prelude::*;
use crate::grants::{
    execution_key, execution_key_of, execution_matches, grant_permits, index_keys_of, opt_ref_view,
    user_key, user_key_of, workflow_key, workflow_key_of, ExecutionToken, GrantView,
};
use crate::keyed::{entry_of, find_key, upsert_entry};

verus! {

pub open spec fn grants_view(v: Seq<ExecutionToken>) -> Seq<GrantView> {
    v.map_values(|t: ExecutionToken| t@)
}

/// A set of grants with `g` added.
pub open spec fn with_grant(s: Seq<GrantView>, g: GrantView) -> Seq<GrantView> {
    if s.contains(g) {
        s
    } else {
        s.push(g)
    }
}

/// The grants of `s` still visible at `now` (`exp > now`), in order.
pub open spec fn active_of(s: Seq<GrantView>, now: i64) -> Seq<GrantView>
    decreases s.len(),
{
    if s.len() == 0 {
        s
    } else if s.last().exp > now {
        active_of(s.drop_last(), now).push(s.last())
    } else {
        active_of(s.drop_last(), now)
    }
}

impl ExecutionToken {
    /// A field-for-field copy.
    pub fn copy(&self) -> (r: ExecutionToken)
        ensures
            r@ == self@,
    {
        ExecutionToken {
            execution_id: match &self.execution_id {
                Some(e) => Some(e.clone()),
                None => None,
            },
            workflow_id: self.workflow_id.clone(),
            iat: self.iat,
            exp: self.exp,
            user_id: self.user_id.clone(),
        }
    }

    /// Whether two grants hold the same fields.
    pub fn same_as(&self, other: &ExecutionToken) -> (r: bool)
        ensures
            r == (self@ == other@),
    {
        let exec_same = match (&self.execution_id, &other.execution_id) {
            (Some(a), Some(b)) => *a == *b,
            (None, None) => true,
            _ => false,
        };
        exec_same && self.workflow_id == other.workflow_id && self.iat == other.iat && self.exp
            == other.exp && self.user_id == other.user_id
    }
}

proof fn lemma_active_within(s: Seq<GrantView>, now: i64)
    ensures
        forall|i: int| 0 <= i < active_of(s, now).len() ==> exists|m: int|
            0 <= m < s.len() && s[m] == #[trigger] active_of(s, now)[i],
    decreases s.len(),
{
    if s.len() > 0 {
        lemma_active_within(s.drop_last(), now);
        let a = active_of(s, now);
        assert forall|i: int| 0 <= i < a.len() implies exists|m: int| 0 <= m < s.len() && s[m] == #[trigger] a[i] by {
            let prev = active_of(s.drop_last(), now);
            if i < prev.len() {
                let m = choose|m: int| 0 <= m < s.drop_last().len() && s.drop_last()[m] == prev[i];
                assert(s[m] == a[i]);
            } else {
                assert(s[s.len() - 1] == a[i]);
            }
        }
    }
}

/// Only a wildcard grant of workflow `w` is written under `w`'s key.
proof fn lemma_workflow_key_owner(g: GrantView, w: Seq<char>)
    requires
        index_keys_of(g).contains(workflow_key_of(w)),
    ensures
        g.execution_id is None,
        g.workflow_id == w,
{
    reveal_strlit("user_id_");
    reveal_strlit("execution_id_");
    reveal_strlit("workflow_id_");
    let ks = index_keys_of(g);
    let wk = workflow_key_of(w);
    let j = choose|j: int| 0 <= j < ks.len() && ks[j] == wk;
    assert(wk[0] == 'w');
    if j == 0 {
        assert(ks[0][0] == 'u');
    } else {
        match g.execution_id {
            Some(e) => {
                assert(ks[1] == execution_key_of(e));
                assert(ks[1][0] == 'e');
            },
            None => {
                assert(ks[1] == workflow_key_of(g.workflow_id));
                assert(g.workflow_id =~= wk.subrange(12, wk.len() as int));
                assert(w =~= wk.subrange(12, wk.len() as int));
            },
        }
    }
}

/// Grants kept under index keys.
#[derive(Debug)]
pub struct GrantStore {
    pub indexes: Vec<(String, Vec<ExecutionToken>)>,
}

impl GrantStore {
    /// The grants under `key`.
    pub open spec fn index(&self, key: Seq<char>) -> Seq<GrantView> {
        match entry_of(self.indexes@, key) {
            Some(v) => grants_view(v@),
            None => Seq::empty(),
        }
    }

    /// Every grant under a key is one that is written under that key.
    pub open spec fn wf(&self) -> bool {
        forall|k: Seq<char>, i: int|
            0 <= i < self.index(k).len() ==> index_keys_of(#[trigger] self.index(k)[i]).contains(k)
    }

    pub fn new() -> (r: GrantStore)
        ensures
            r.wf(),
            forall|k: Seq<char>| #[trigger] r.index(k) == Seq::<GrantView>::empty(),
    {
        GrantStore { indexes: Vec::new() }
    }

    /// Take the grants under `key` out of the store, leaving none there.
    fn take_index(&mut self, key: &String) -> (r: Vec<ExecutionToken>)
        ensures
            grants_view(r@) == old(self).index(key@),
            final(self).index(key@) == Seq::<GrantView>::empty(),
            forall|k: Seq<char>| k != key@ ==> #[trigger] final(self).index(k) == old(self).index(k),
    {
        match find_key(&self.indexes, key) {
            Some(i) => {
                proof {
                    crate::keyed::lemma_entry_at(self.indexes@, key@, i as int);
                }
                let ghost before = self.indexes@;
                let mut slot = (key.clone(), Vec::new());
                let ghost placeholder = slot;
                self.indexes.set_and_swap(i, &mut slot);
                assert(self.indexes@ == before.update(i as int, placeholder));
                assert forall|k: Seq<char>| k != key@ implies #[trigger] self.index(k) == old(self).index(k) by {
                    crate::keyed::lemma_entry_update(before, i as int, placeholder, k);
                }
                proof {
                    crate::keyed::lemma_entry_update(before, i as int, placeholder, key@);
                }
                assert(grants_view(placeholder.1@) =~= Seq::<GrantView>::empty());
                let (_, v) = slot;
                v
            },
            None => {
                proof {
                    crate::keyed::lemma_entry_absent(self.indexes@, key@);
                }
                let v: Vec<ExecutionToken> = Vec::new();
                assert(grants_view(v@) =~= Seq::<GrantView>::empty());
                v
            },
        }
    }

    /// Put `grants` under `key`.
    fn put_index(&mut self, key: String, grants: Vec<ExecutionToken>)
        ensures
            final(self).index(key@) == grants_view(grants@),
            forall|k: Seq<char>| k != key@ ==> #[trigger] final(self).index(k) == old(self).index(k),
    {
        let ghost kv = key@;
        upsert_entry(&mut self.indexes, key, grants);
        assert forall|k: Seq<char>| k != kv implies #[trigger] self.index(k) == old(self).index(k) by {}
    }

    fn add_under(&mut self, key: String, token: &ExecutionToken)
        ensures
            final(self).index(key@) == with_grant(old(self).index(key@), token@),
            forall|k: Seq<char>| k != key@ ==> #[trigger] final(self).index(k) == old(self).index(k),
    {
        let mut grants = self.take_index(&key);
        let ghost cur = grants_view(grants@);
        let mut present = false;
        let mut i: usize = 0;
        while i < grants.len()
            invariant
                i <= grants@.len(),
                cur == grants_view(grants@),
                present == exists|j: int| 0 <= j < i && (#[trigger] grants@[j])@ == token@,
            decreases grants@.len() - i,
        {
            if grants[i].same_as(token) {
                present = true;
            }
            i = i + 1;
        }
        assert(present == cur.contains(token@)) by {
            if present {
                let j = choose|j: int| 0 <= j < grants@.len() && (#[trigger] grants@[j])@ == token@;
                assert(cur[j] == token@);
            }
            if cur.contains(token@) {
                let j = choose|j: int| 0 <= j < cur.len() && cur[j] == token@;
                assert(grants@[j]@ == token@);
            }
        }
        if !present {
            let ghost before = grants@;
            grants.push(token.copy());
            assert(grants_view(grants@) =~= grants_view(before).push(token@));
        }
        self.put_index(key, grants);
    }

    /// Write a grant under each of its index keys (its user's; its
    /// execution's, or its workflow's when it is a wildcard). A grant that
    /// is already there is kept once.
    pub fn add_token(&mut self, token: &ExecutionToken)
        requires
            old(self).wf(),
        ensures
            final(self).wf(),
            forall|k: Seq<char>| #[trigger] final(self).index(k) == if index_keys_of(token@).contains(k) {
                with_grant(old(self).index(k), token@)
            } else {
                old(self).index(k)
            },
    {
        let ghost ks = index_keys_of(token@);
        let k0 = user_key(&token.user_id);
        let k1 = match &token.execution_id {
            Some(e) => execution_key(e),
            None => workflow_key(&token.workflow_id),
        };
        assert(ks[0] == k0@ && ks[1] == k1@);
        proof {
            reveal_strlit("user_id_");
            reveal_strlit("execution_id_");
            reveal_strlit("workflow_id_");
            assert(ks[0][0] == 'u');
            assert(ks[1][0] == 'e' || ks[1][0] == 'w');
        }
        let ghost s0 = *self;
        let ghost kv0 = k0@;
        let ghost kv1 = k1@;
        self.add_under(k0, token);
        self.add_under(k1, token);
        assert forall|k: Seq<char>| #[trigger] self.index(k) == if ks.contains(k) {
            with_grant(s0.index(k), token@)
        } else {
            s0.index(k)
        } by {
            if k == kv0 {
                assert(ks.contains(k));
            } else if k == kv1 {
                assert(ks.contains(k));
            } else {
                if ks.contains(k) {
                    let j = choose|j: int| 0 <= j < ks.len() && ks[j] == k;
                    assert(j == 0 || j == 1);
                }
            }
        }
        assert forall|k: Seq<char>, i: int| 0 <= i < self.index(k).len() implies index_keys_of(
            #[trigger] self.index(k)[i],
        ).contains(k) by {
            if ks.contains(k) && !s0.index(k).contains(token@) && i == s0.index(k).len() {
                assert(self.index(k)[i] == token@);
            } else {
                assert(self.index(k)[i] == s0.index(k)[i]);
            }
        }
    }

    /// Drop the expired grants under `key` (those with `exp <= now`) and hand
    /// out copies of the others.
    pub fn active_members(&mut self, key: &String, now: i64) -> (r: Vec<Option<ExecutionToken>>)
        requires
            old(self).wf(),
        ensures
            final(self).wf(),
            final(self).index(key@) == active_of(old(self).index(key@), now),
            forall|k: Seq<char>| k != key@ ==> #[trigger] final(self).index(k) == old(self).index(k),
            r@.len() == final(self).index(key@).len(),
            forall|i: int| 0 <= i < r@.len() ==> (#[trigger] r@[i]) is Some && r@[i]->0@ == final(self).index(key@)[i],
    {
        let mut grants = self.take_index(key);
        let ghost all = grants_view(grants@);
        let mut kept: Vec<ExecutionToken> = Vec::new();
        let mut out: Vec<Option<ExecutionToken>> = Vec::new();
        let n = grants.len();
        let mut i: usize = 0;
        while i < n
            invariant
                n == grants@.len(),
                i <= n,
                all == grants_view(grants@),
                grants_view(kept@) == active_of(all.take(i as int), now),
                out@.len() == kept@.len(),
                forall|j: int| 0 <= j < out@.len() ==> (#[trigger] out@[j]) is Some && out@[j]->0@ == kept@[j]@,
            decreases n - i,
        {
            assert(all.take(i + 1).drop_last() =~= all.take(i as int));
            assert(all.take(i + 1).last() == grants@[i as int]@);
            if grants[i].exp > now {
                let ghost before = kept@;
                out.push(Some(grants[i].copy()));
                kept.push(grants[i].copy());
                assert(grants_view(kept@) =~= grants_view(before).push(grants@[i as int]@));
            }
            i = i + 1;
        }
        assert(all.take(n as int) =~= all);
        let ghost before = *old(self);
        self.put_index(key.clone(), kept);
        proof {
            lemma_active_within(before.index(key@), now);
            assert forall|k: Seq<char>, j: int| 0 <= j < self.index(k).len() implies index_keys_of(
                #[trigger] self.index(k)[j],
            ).contains(k) by {
                if k == key@ {
                    let m = choose|m: int| 0 <= m < before.index(k).len() && before.index(k)[m] == self.index(k)[j];
                    assert(index_keys_of(before.index(k)[m]).contains(k));
                } else {
                    assert(self.index(k) == before.index(k));
                }
            }
        }
        out
    }

    /// `validate_access` on the user's index, after its sweep.
    pub fn validate_access(
        &mut self,
        user_id: &String,
        target_execution_id: Option<&String>,
        target_workflow_id: &String,
        now: i64,
    ) -> (r: bool)
        requires
            old(self).wf(),
        ensures
            final(self).wf(),
            final(self).index(user_key_of(user_id@)) == active_of(old(self).index(user_key_of(user_id@)), now),
            forall|k: Seq<char>| k != user_key_of(user_id@) ==> #[trigger] final(self).index(k) == old(self).index(k),
            r == exists|i: int|
                0 <= i < active_of(old(self).index(user_key_of(user_id@)), now).len() && grant_permits(
                    #[trigger] active_of(old(self).index(user_key_of(user_id@)), now)[i],
                    opt_ref_view(target_execution_id),
                    target_workflow_id@,
                ),
    {
        let key = user_key(user_id);
        let members = self.active_members(&key, now);
        let r = crate::grants::validate_access(&members, target_execution_id, target_workflow_id);
        let ghost act = active_of(old(self).index(user_key_of(user_id@)), now);
        assert(r == exists|i: int|
            0 <= i < act.len() && grant_permits(#[trigger] act[i], opt_ref_view(target_execution_id), target_workflow_id@)) by {
            if r {
                let i = choose|i: int|
                    0 <= i < members@.len() && #[trigger] crate::grants::decoded_at(members@, i) is Some
                        && grant_permits(crate::grants::decoded_at(members@, i)->0, opt_ref_view(target_execution_id), target_workflow_id@);
                assert(act[i] == members@[i]->0@);
            } else {
                assert forall|i: int| 0 <= i < act.len() implies !grant_permits(#[trigger] act[i], opt_ref_view(target_execution_id), target_workflow_id@) by {
                    assert(crate::grants::decoded_at(members@, i) is Some);
                }
            }
        }
        r
    }

    /// `validate_access_for_execution` on the user's index, after its sweep.
    pub fn validate_access_for_execution(&mut self, user_id: &String, target_execution_id: &String, now: i64) -> (r: bool)
        requires
            old(self).wf(),
        ensures
            final(self).wf(),
            final(self).index(user_key_of(user_id@)) == active_of(old(self).index(user_key_of(user_id@)), now),
            forall|k: Seq<char>| k != user_key_of(user_id@) ==> #[trigger] final(self).index(k) == old(self).index(k),
            r == exists|i: int|
                0 <= i < active_of(old(self).index(user_key_of(user_id@)), now).len() && execution_matches(
                    Some(target_execution_id@),
                    (#[trigger] active_of(old(self).index(user_key_of(user_id@)), now)[i]).execution_id,
                ),
    {
        let key = user_key(user_id);
        let members = self.active_members(&key, now);
        let r = crate::grants::validate_access_for_execution(&members, target_execution_id);
        let ghost act = active_of(old(self).index(user_key_of(user_id@)), now);
        assert(r == exists|i: int|
            0 <= i < act.len() && execution_matches(Some(target_execution_id@), (#[trigger] act[i]).execution_id)) by {
            if r {
                let i = choose|i: int|
                    0 <= i < members@.len() && #[trigger] crate::grants::decoded_at(members@, i) is Some
                        && execution_matches(Some(target_execution_id@), crate::grants::decoded_at(members@, i)->0.execution_id);
                assert(act[i] == members@[i]->0@);
            } else {
                assert forall|i: int| 0 <= i < act.len() implies !execution_matches(Some(target_execution_id@), (#[trigger] act[i]).execution_id) by {
                    assert(crate::grants::decoded_at(members@, i) is Some);
                }
            }
        }
        r
    }

    /// `validate_execution_access` on the execution's index, after its sweep.
    pub fn validate_execution_access(&mut self, target_execution_id: &String, target_workflow_id: &String, now: i64) -> (r: bool)
        requires
            old(self).wf(),
        ensures
            final(self).wf(),
            final(self).index(execution_key_of(target_execution_id@)) == active_of(old(self).index(execution_key_of(target_execution_id@)), now),
            forall|k: Seq<char>| k != execution_key_of(target_execution_id@) ==> #[trigger] final(self).index(k) == old(self).index(k),
            r == exists|i: int|
                0 <= i < active_of(old(self).index(execution_key_of(target_execution_id@)), now).len()
                    && (#[trigger] active_of(old(self).index(execution_key_of(target_execution_id@)), now)[i]).workflow_id
                    == target_workflow_id@,
    {
        let key = execution_key(target_execution_id);
        let members = self.active_members(&key, now);
        let r = crate::grants::validate_execution_access(&members, target_workflow_id);
        let ghost act = active_of(old(self).index(execution_key_of(target_execution_id@)), now);
        assert(r == exists|i: int| 0 <= i < act.len() && (#[trigger] act[i]).workflow_id == target_workflow_id@) by {
            if r {
                let i = choose|i: int|
                    0 <= i < members@.len() && #[trigger] crate::grants::decoded_at(members@, i) is Some
                        && crate::grants::decoded_at(members@, i)->0.workflow_id == target_workflow_id@;
                assert(act[i] == members@[i]->0@);
            } else {
                assert forall|i: int| 0 <= i < act.len() implies (#[trigger] act[i]).workflow_id != target_workflow_id@ by {
                    assert(crate::grants::decoded_at(members@, i) is Some);
                }
            }
        }
        r
    }

    /// `validate_workflow_access` on the workflow's index, after its sweep.
    pub fn validate_workflow_access(&mut self, target_workflow_id: &String, now: i64) -> (r: bool)
        requires
            old(self).wf(),
        ensures
            final(self).wf(),
            final(self).index(workflow_key_of(target_workflow_id@)) == active_of(old(self).index(workflow_key_of(target_workflow_id@)), now),
            forall|k: Seq<char>| k != workflow_key_of(target_workflow_id@) ==> #[trigger] final(self).index(k) == old(self).index(k),
            r == exists|i: int|
                0 <= i < active_of(old(self).index(workflow_key_of(target_workflow_id@)), now).len()
                    && (#[trigger] active_of(old(self).index(workflow_key_of(target_workflow_id@)), now)[i]).execution_id
                    is None && active_of(old(self).index(workflow_key_of(target_workflow_id@)), now)[i].workflow_id
                    == target_workflow_id@,
    {
        let key = workflow_key(target_workflow_id);
        let members = self.active_members(&key, now);
        let r = crate::grants::validate_workflow_access(&members);
        let ghost act = active_of(old(self).index(workflow_key_of(target_workflow_id@)), now);
        proof {
            lemma_active_within(old(self).index(workflow_key_of(target_workflow_id@)), now);
            assert forall|i: int| 0 <= i < act.len() implies (#[trigger] act[i]).execution_id is None
                && act[i].workflow_id == target_workflow_id@ by {
                let src = old(self).index(workflow_key_of(target_workflow_id@));
                let m = choose|m: int| 0 <= m < src.len() && src[m] == act[i];
                assert(index_keys_of(src[m]).contains(workflow_key_of(target_workflow_id@)));
                lemma_workflow_key_owner(act[i], target_workflow_id@);
            }
        }
        assert(r == exists|i: int| 0 <= i < act.len() && (#[trigger] act[i]).execution_id is None) by {
            if r {
                let i = choose|i: int|
                    0 <= i < members@.len() && #[trigger] crate::grants::decoded_at(members@, i) is Some
                        && crate::grants::decoded_at(members@, i)->0.execution_id is None;
                assert(act[i] == members@[i]->0@);
            } else {
                assert forall|i: int| 0 <= i < act.len() implies !((#[trigger] act[i]).execution_id is None) by {
                    assert(crate::grants::decoded_at(members@, i) is Some);
                }
            }
        }
        r
    }
}

} // verus!
