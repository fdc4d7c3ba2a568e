//! Vectors of `(key, value)` pairs read as maps: the first entry with a key
//! gives that key's value.
use vstd::prelude::*;

verus! {

/// The value of the first entry whose key is `k`.
pub open spec fn entry_of<T>(s: Seq<(String, T)>, k: Seq<char>) -> Option<T>
    decreases s.len(),
{
    if s.len() == 0 {
        None
    } else if s[0].0@ == k {
        Some(s[0].1)
    } else {
        entry_of(s.drop_first(), k)
    }
}

/// No two entries share a key.
pub open spec fn keys_unique<T>(s: Seq<(String, T)>) -> bool {
    forall|i: int, j: int| 0 <= i < j < s.len() ==> (#[trigger] s[i]).0@ != (#[trigger] s[j]).0@
}

pub proof fn lemma_entry_at<T>(s: Seq<(String, T)>, k: Seq<char>, i: int)
    requires
        0 <= i < s.len(),
        s[i].0@ == k,
        forall|j: int| 0 <= j < i ==> (#[trigger] s[j]).0@ != k,
    ensures
        entry_of(s, k) == Some(s[i].1),
    decreases i,
{
    if i > 0 {
        lemma_entry_at(s.drop_first(), k, i - 1);
    }
}

pub proof fn lemma_entry_absent<T>(s: Seq<(String, T)>, k: Seq<char>)
    requires
        forall|j: int| 0 <= j < s.len() ==> (#[trigger] s[j]).0@ != k,
    ensures
        entry_of(s, k) is None,
    decreases s.len(),
{
    if s.len() > 0 {
        lemma_entry_absent(s.drop_first(), k);
    }
}

pub proof fn lemma_entry_update<T>(s: Seq<(String, T)>, i: int, p: (String, T), k: Seq<char>)
    requires
        0 <= i < s.len(),
        s[i].0@ == p.0@,
        forall|j: int| 0 <= j < i ==> (#[trigger] s[j]).0@ != p.0@,
    ensures
        entry_of(s.update(i, p), k) == if k == p.0@ {
            Some(p.1)
        } else {
            entry_of(s, k)
        },
    decreases i,
{
    if i > 0 {
        lemma_entry_update(s.drop_first(), i - 1, p, k);
        assert(s.update(i, p).drop_first() =~= s.drop_first().update(i - 1, p));
    } else {
        assert(s.update(i, p).drop_first() =~= s.drop_first());
    }
}

pub proof fn lemma_entry_push<T>(s: Seq<(String, T)>, p: (String, T), k: Seq<char>)
    requires
        forall|j: int| 0 <= j < s.len() ==> (#[trigger] s[j]).0@ != p.0@,
    ensures
        entry_of(s.push(p), k) == if k == p.0@ {
            Some(p.1)
        } else {
            entry_of(s, k)
        },
    decreases s.len(),
{
    if s.len() > 0 {
        lemma_entry_push(s.drop_first(), p, k);
        assert(s.push(p).drop_first() =~= s.drop_first().push(p));
    } else {
        assert(s.push(p).drop_first() =~= s);
    }
}

/// Index of the first entry whose key is `k`.
pub fn find_key<T>(s: &Vec<(String, T)>, k: &String) -> (r: Option<usize>)
    ensures
        match r {
            Some(i) => i < s@.len() && s@[i as int].0@ == k@ && forall|j: int|
                0 <= j < i ==> (#[trigger] s@[j]).0@ != k@,
            None => forall|j: int| 0 <= j < s@.len() ==> (#[trigger] s@[j]).0@ != k@,
        },
{
    let mut i: usize = 0;
    while i < s.len()
        invariant
            i <= s@.len(),
            forall|j: int| 0 <= j < i ==> (#[trigger] s@[j]).0@ != k@,
        decreases s@.len() - i,
    {
        if s[i].0 == *k {
            return Some(i);
        }
        i = i + 1;
    }
    None
}

/// Index of the first entry whose key is the literal `k`.
pub fn find_key_str<T>(s: &Vec<(String, T)>, k: &str) -> (r: Option<usize>)
    ensures
        match r {
            Some(i) => i < s@.len() && s@[i as int].0@ == k@ && forall|j: int|
                0 <= j < i ==> (#[trigger] s@[j]).0@ != k@,
            None => forall|j: int| 0 <= j < s@.len() ==> (#[trigger] s@[j]).0@ != k@,
        },
{
    let key = k.to_owned();
    find_key(s, &key)
}

/// Set the value of `key`: the first entry with that key is replaced in place,
/// or a new entry is appended. Other keys keep their values.
pub fn upsert_entry<T>(s: &mut Vec<(String, T)>, key: String, value: T)
    ensures
        entry_of(final(s)@, key@) == Some(value),
        forall|k: Seq<char>| k != key@ ==> entry_of(final(s)@, k) == entry_of(old(s)@, k),
        keys_unique(old(s)@) ==> keys_unique(final(s)@),
        final(s)@.len() == old(s)@.len() || final(s)@.len() == old(s)@.len() + 1,
        forall|j: int| 0 <= j < final(s)@.len() ==> (#[trigger] final(s)@[j] == old(s)@[j] && j < old(s)@.len())
            || (final(s)@[j].0@ == key@ && final(s)@[j].1 == value),
{
    let ghost kv = key@;
    match find_key(s, &key) {
        Some(i) => {
            let ghost before = s@;
            let ghost p = (key, value);
            s.set(i, (key, value));
            assert(s@ == before.update(i as int, p));
            assert forall|k: Seq<char>| k != kv implies entry_of(s@, k) == entry_of(before, k) by {
                lemma_entry_update(before, i as int, p, k);
            }
            proof {
                lemma_entry_update(before, i as int, p, kv);
            }
        },
        None => {
            let ghost before = s@;
            let ghost p = (key, value);
            s.push((key, value));
            assert(s@ == before.push(p));
            proof {
                lemma_entry_absent(before, kv);
            }
            assert forall|k: Seq<char>| k != kv implies entry_of(s@, k) == entry_of(before, k) by {
                lemma_entry_push(before, p, k);
            }
            proof {
                lemma_entry_push(before, p, kv);
            }
        },
    }
}

} // verus!
