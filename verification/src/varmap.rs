//! Small maps and sets of variable names, kept as vectors in the order in
//! which the names came.

use crate::ir::VarKey;
use vstd::prelude::*;

verus! {

/// The position of the first entry with key `k`, or -1 if there is none.
pub open spec fn key_position<V>(s: Seq<(VarKey, V)>, k: VarKey) -> int
    decreases s.len(),
{
    if s.len() == 0 {
        -1
    } else {
        let p = key_position(s.drop_last(), k);
        if p >= 0 {
            p
        } else if s.last().0 == k {
            s.len() - 1
        } else {
            -1
        }
    }
}

/// The value that stands beside `k`, if `k` is a key.
pub open spec fn lookup<V>(s: Seq<(VarKey, V)>, k: VarKey) -> Option<V> {
    let p = key_position(s, k);
    if p >= 0 {
        Some(s[p].1)
    } else {
        None
    }
}

/// The map with `v` beside `k`: in the place of the old value if `k` was a
/// key, else at the end.
pub open spec fn with_entry<V>(s: Seq<(VarKey, V)>, k: VarKey, v: V) -> Seq<(VarKey, V)> {
    let p = key_position(s, k);
    if p >= 0 {
        s.update(p, (k, v))
    } else {
        s.push((k, v))
    }
}

/// The map without the first entry of `k`.
pub open spec fn without_key<V>(s: Seq<(VarKey, V)>, k: VarKey) -> Seq<(VarKey, V)> {
    let p = key_position(s, k);
    if p >= 0 {
        s.remove(p)
    } else {
        s
    }
}

/// The set with `k`: at the end if it was not in it.
pub open spec fn with_key(s: Seq<VarKey>, k: VarKey) -> Seq<VarKey> {
    if s.contains(k) {
        s
    } else {
        s.push(k)
    }
}

/// What `key_position` finds: the first entry with the key, and that no
/// entry has it when it finds none.
pub proof fn lemma_key_position<V>(s: Seq<(VarKey, V)>, k: VarKey)
    ensures
        -1 <= key_position(s, k) < s.len(),
        key_position(s, k) >= 0 ==> s[key_position(s, k)].0 == k,
        forall|i: int| 0 <= i < s.len() && s[i].0 == k ==> 0 <= key_position(s, k) <= i,
    decreases s.len(),
{
    if s.len() > 0 {
        lemma_key_position(s.drop_last(), k);
        assert forall|i: int| 0 <= i < s.len() && s[i].0 == k implies 0 <= key_position(s, k)
            <= i by {
            if i < s.len() - 1 {
                assert(s.drop_last()[i].0 == k);
            }
        }
    }
}

/// A key that is found in the first `n` entries is found at the same place
/// in the whole map.
pub proof fn lemma_key_position_prefix<V>(s: Seq<(VarKey, V)>, n: int, k: VarKey)
    requires
        0 <= n <= s.len(),
        key_position(s.take(n), k) >= 0,
    ensures
        key_position(s, k) == key_position(s.take(n), k),
    decreases s.len() - n,
{
    if n < s.len() {
        assert(s.drop_last().take(n) =~= s.take(n));
        lemma_key_position_prefix(s.drop_last(), n, k);
    } else {
        assert(s.take(n) =~= s);
    }
}

/// The place of the first entry with key `k`.
pub fn find_key<V>(map: &Vec<(VarKey, V)>, k: VarKey) -> (found: Option<usize>)
    ensures
        match found {
            Some(p) => p == key_position(map@, k),
            None => key_position(map@, k) == -1,
        },
{
    let mut i: usize = 0;
    while i < map.len()
        invariant
            i <= map.len(),
            key_position(map@.take(i as int), k) == -1,
        decreases map.len() - i,
    {
        let key = map[i].0;
        proof {
            assert(map@.take(i + 1).drop_last() =~= map@.take(i as int));
        }
        if key.0 == k.0 && key.1 == k.1 {
            proof {
                lemma_key_position_prefix(map@, i + 1, k);
            }
            return Some(i);
        }
        i += 1;
    }
    assert(map@.take(i as int) =~= map@);
    None
}

/// Whether `k` is in the set.
pub fn has_key(set: &Vec<VarKey>, k: VarKey) -> (found: bool)
    ensures
        found == set@.contains(k),
        found == set@.to_set().contains(k),
{
    let mut i: usize = 0;
    while i < set.len()
        invariant
            i <= set.len(),
            forall|j: int| 0 <= j < i ==> set@[j] != k,
        decreases set.len() - i,
    {
        let key = set[i];
        if key.0 == k.0 && key.1 == k.1 {
            return true;
        }
        i += 1;
    }
    false
}

/// Puts `k` into the set, at the end if it was not in it.
pub fn add_key(set: &mut Vec<VarKey>, k: VarKey) -> (added: bool)
    ensures
        final(set)@ == with_key(old(set)@, k),
        final(set)@.to_set() == old(set)@.to_set().insert(k),
        added == !old(set)@.contains(k),
{
    if has_key(set, k) {
        assert(set@.to_set() =~= set@.to_set().insert(k));
        false
    } else {
        set.push(k);
        proof {
            old(set)@.lemma_push_to_set_commute(k);
        }
        true
    }
}

/// Whether `n` is in the set.
pub fn has_node(set: &Vec<u32>, n: u32) -> (found: bool)
    ensures
        found == set@.contains(n),
        found == set@.to_set().contains(n),
{
    let mut i: usize = 0;
    while i < set.len()
        invariant
            i <= set.len(),
            forall|j: int| 0 <= j < i ==> set@[j] != n,
        decreases set.len() - i,
    {
        if set[i] == n {
            return true;
        }
        i += 1;
    }
    false
}

/// Puts `n` into the set, at the end if it was not in it.
pub fn add_node(set: &mut Vec<u32>, n: u32) -> (added: bool)
    ensures
        final(set)@.to_set() == old(set)@.to_set().insert(n),
        added == !old(set)@.contains(n),
        added ==> final(set)@ == old(set)@.push(n),
        !added ==> final(set)@ == old(set)@,
{
    if has_node(set, n) {
        assert(set@.to_set() =~= set@.to_set().insert(n));
        false
    } else {
        set.push(n);
        proof {
            old(set)@.lemma_push_to_set_commute(n);
        }
        true
    }
}

} // verus!
