//! Small association-sequence and distinct-sequence helpers: the peer table
//! is a vector of pairs with unique keys, and the `connected` /
//! `disconnected` sets are vectors without duplicates.

use vstd::prelude::*;

use crate::peer::PeerId;

verus! {

/// The sequence holds an entry for key `k`.
pub open spec fn has_key<V>(s: Seq<(PeerId, V)>, k: PeerId) -> bool {
    exists|i: int| 0 <= i < s.len() && s[i].0 == k
}

/// The index of the entry for key `k` (meaningful under `unique_keys`).
pub open spec fn key_index<V>(s: Seq<(PeerId, V)>, k: PeerId) -> int {
    choose|i: int| 0 <= i < s.len() && s[i].0 == k
}

/// The value stored under key `k` (meaningful under `unique_keys`).
pub open spec fn value_of<V>(s: Seq<(PeerId, V)>, k: PeerId) -> V {
    s[key_index(s, k)].1
}

/// No two entries share a key.
pub open spec fn unique_keys<V>(s: Seq<(PeerId, V)>) -> bool {
    forall|i: int, j: int| 0 <= i < j < s.len() ==> (#[trigger] s[i]).0 != (#[trigger] s[j]).0
}

/// The sequence with the entry for `k` set to `v`: updated in place when the
/// key is present, appended otherwise.
pub open spec fn upsert<V>(s: Seq<(PeerId, V)>, k: PeerId, v: V) -> Seq<(PeerId, V)> {
    if has_key(s, k) {
        s.update(key_index(s, k), (k, v))
    } else {
        s.push((k, v))
    }
}

/// How `upsert` acts on lookups.
pub proof fn lemma_upsert<V>(s: Seq<(PeerId, V)>, k: PeerId, v: V)
    requires
        unique_keys(s),
    ensures
        unique_keys(upsert(s, k, v)),
        forall|x: PeerId| #[trigger] has_key(upsert(s, k, v), x) <==> (has_key(s, x) || x == k),
        value_of(upsert(s, k, v), k) == v,
        forall|x: PeerId|
            x != k && has_key(s, x) ==> #[trigger] value_of(upsert(s, k, v), x) == value_of(s, x),
{
    let t = upsert(s, k, v);
    if has_key(s, k) {
        let i = key_index(s, k);
        assert(0 <= i < s.len() && s[i].0 == k);
        assert(t == s.update(i, (k, v)));
        assert(t.len() == s.len());
        assert forall|a: int, b: int| 0 <= a < b < t.len() implies (#[trigger] t[a]).0 != (
        #[trigger] t[b]).0 by {
            assert(s[a].0 != s[b].0);
        }
        assert forall|x: PeerId| #[trigger] has_key(t, x) implies (has_key(s, x) || x == k) by {
            let j = choose|j: int| 0 <= j < t.len() && t[j].0 == x;
            if j != i {
                assert(s[j].0 == x);
            }
        }
        assert forall|x: PeerId| has_key(s, x) || x == k implies #[trigger] has_key(t, x) by {
            if x == k {
                assert(t[i].0 == k);
            } else {
                let j = choose|j: int| 0 <= j < s.len() && s[j].0 == x;
                assert(j != i);
                assert(t[j].0 == x);
            }
        }
        assert(has_key(t, k));
        let ik = key_index(t, k);
        assert(0 <= ik < t.len() && t[ik].0 == k);
        if ik != i {
            assert(s[ik].0 == k);
            assert(false);
        }
        assert(value_of(t, k) == v);
        assert forall|x: PeerId| x != k && has_key(s, x) implies #[trigger] value_of(t, x)
            == value_of(s, x) by {
            assert(has_key(t, x));
            let jt = key_index(t, x);
            assert(0 <= jt < t.len() && t[jt].0 == x);
            assert(jt != i);
            assert(s[jt].0 == x);
            assert(has_key(s, x));
            let js = key_index(s, x);
            assert(0 <= js < s.len() && s[js].0 == x);
            if js != jt {
                assert(false);
            }
            assert(value_of(t, x) == t[jt].1);
            assert(t[jt] == s[jt]);
        }
    } else {
        assert(t == s.push((k, v)));
        assert(t[s.len() as int] == (k, v));
        assert forall|a: int, b: int| 0 <= a < b < t.len() implies (#[trigger] t[a]).0 != (
        #[trigger] t[b]).0 by {
            if b < s.len() {
                assert(s[a].0 != s[b].0);
            } else {
                assert(t[b].0 == k);
                assert(t[a] == s[a]);
                assert(!has_key(s, k));
                if s[a].0 == k {
                    assert(false);
                }
            }
        }
        assert forall|x: PeerId| #[trigger] has_key(t, x) implies (has_key(s, x) || x == k) by {
            let j = choose|j: int| 0 <= j < t.len() && t[j].0 == x;
            if j < s.len() {
                assert(s[j].0 == x);
            }
        }
        assert forall|x: PeerId| has_key(s, x) || x == k implies #[trigger] has_key(t, x) by {
            if x == k {
                assert(t[s.len() as int].0 == k);
            } else {
                let j = choose|j: int| 0 <= j < s.len() && s[j].0 == x;
                assert(t[j].0 == x);
            }
        }
        assert(has_key(t, k));
        let ik = key_index(t, k);
        assert(0 <= ik < t.len() && t[ik].0 == k);
        if ik != s.len() {
            assert(s[ik].0 == k);
            assert(false);
        }
        assert(value_of(t, k) == v);
        assert forall|x: PeerId| x != k && has_key(s, x) implies #[trigger] value_of(t, x)
            == value_of(s, x) by {
            assert(has_key(t, x));
            let jt = key_index(t, x);
            assert(0 <= jt < t.len() && t[jt].0 == x);
            assert(jt != s.len());
            assert(s[jt].0 == x);
            let js = key_index(s, x);
            assert(0 <= js < s.len() && s[js].0 == x);
            if js != jt {
                assert(false);
            }
            assert(t[jt] == s[jt]);
        }
    }
}

/// Updating the value under an existing key is an `upsert`.
pub proof fn lemma_update_is_upsert<V>(s: Seq<(PeerId, V)>, i: int, v: V)
    requires
        unique_keys(s),
        0 <= i < s.len(),
    ensures
        s.update(i, (s[i].0, v)) == upsert(s, s[i].0, v),
{
    let k = s[i].0;
    assert(has_key(s, k));
    let j = key_index(s, k);
    assert(0 <= j < s.len() && s[j].0 == k);
    if i != j {
        assert(false);
    }
}

/// Appending a fresh key is an `upsert`.
pub proof fn lemma_push_is_upsert<V>(s: Seq<(PeerId, V)>, k: PeerId, v: V)
    requires
        !has_key(s, k),
    ensures
        s.push((k, v)) == upsert(s, k, v),
{
}

/// Setting a key twice keeps only the second value.
pub proof fn lemma_upsert_upsert<V>(s: Seq<(PeerId, V)>, k: PeerId, a: V, b: V)
    requires
        unique_keys(s),
    ensures
        upsert(upsert(s, k, a), k, b) == upsert(s, k, b),
{
    lemma_upsert(s, k, a);
    let t = upsert(s, k, a);
    if has_key(s, k) {
        let i = key_index(s, k);
        assert(0 <= i < s.len() && s[i].0 == k);
        assert(t == s.update(i, (k, a)));
        assert(has_key(t, k));
        let j = key_index(t, k);
        assert(0 <= j < t.len() && t[j].0 == k);
        if j != i {
            assert(s[j].0 == k);
            assert(false);
        }
        assert(t.update(i, (k, b)) =~= s.update(i, (k, b)));
    } else {
        assert(t == s.push((k, a)));
        assert(t[s.len() as int].0 == k);
        assert(has_key(t, k));
        let j = key_index(t, k);
        assert(0 <= j < t.len() && t[j].0 == k);
        if j != s.len() {
            assert(s[j].0 == k);
            assert(false);
        }
        assert(t.update(s.len() as int, (k, b)) =~= s.push((k, b)));
    }
}

/// How appending a fresh key acts on lookups.
pub proof fn lemma_assoc_push<V>(s: Seq<(PeerId, V)>, k: PeerId, v: V)
    requires
        unique_keys(s),
        !has_key(s, k),
    ensures
        unique_keys(s.push((k, v))),
        forall|x: PeerId| #[trigger] has_key(s.push((k, v)), x) <==> (has_key(s, x) || x == k),
        value_of(s.push((k, v)), k) == v,
        forall|x: PeerId|
            x != k && has_key(s, x) ==> #[trigger] value_of(s.push((k, v)), x) == value_of(s, x),
{
    lemma_push_is_upsert(s, k, v);
    lemma_upsert(s, k, v);
}

/// How removing the entry at index `i` acts on lookups.
pub proof fn lemma_assoc_remove<V>(s: Seq<(PeerId, V)>, i: int)
    requires
        unique_keys(s),
        0 <= i < s.len(),
    ensures
        unique_keys(s.remove(i)),
        forall|x: PeerId| #[trigger] has_key(s.remove(i), x) <==> (has_key(s, x) && x != s[i].0),
        forall|x: PeerId|
            x != s[i].0 && has_key(s, x) ==> #[trigger] value_of(s.remove(i), x) == value_of(s, x),
{
    let t = s.remove(i);
    let k = s[i].0;
    assert forall|a: int, b: int| 0 <= a < b < t.len() implies (#[trigger] t[a]).0 != (
    #[trigger] t[b]).0 by {
        let sa: int = if a < i { a } else { a + 1 };
        let sb: int = if b < i { b } else { b + 1 };
        assert(t[a] == s[sa]);
        assert(t[b] == s[sb]);
    }
    assert forall|x: PeerId| #[trigger] has_key(t, x) implies (has_key(s, x) && x != k) by {
        let j = choose|j: int| 0 <= j < t.len() && t[j].0 == x;
        let sj: int = if j < i { j } else { j + 1 };
        assert(t[j] == s[sj]);
        assert(sj != i);
    }
    assert forall|x: PeerId| has_key(s, x) && x != k implies #[trigger] has_key(t, x) by {
        let j = choose|j: int| 0 <= j < s.len() && s[j].0 == x;
        assert(j != i);
        if j < i {
            assert(t[j] == s[j]);
        } else {
            assert(t[j - 1] == s[j]);
        }
    }
    assert forall|x: PeerId| x != k && has_key(s, x) implies #[trigger] value_of(t, x)
        == value_of(s, x) by {
        assert(has_key(t, x));
        let jt = key_index(t, x);
        assert(0 <= jt < t.len() && t[jt].0 == x);
        let sj: int = if jt < i { jt } else { jt + 1 };
        assert(t[jt] == s[sj]);
        let js = key_index(s, x);
        assert(0 <= js < s.len() && s[js].0 == x);
        if js != sj {
            assert(false);
        }
    }
}

/// No element occurs twice.
pub open spec fn distinct(s: Seq<PeerId>) -> bool {
    forall|i: int, j: int| 0 <= i < j < s.len() ==> s[i] != s[j]
}

/// The sequence seen as a set, grown by `p`.
pub open spec fn seq_insert(s: Seq<PeerId>, p: PeerId) -> Seq<PeerId> {
    if s.contains(p) {
        s
    } else {
        s.push(p)
    }
}

/// The sequence seen as a set, shrunk by `p`.
pub open spec fn seq_remove(s: Seq<PeerId>, p: PeerId) -> Seq<PeerId> {
    if s.contains(p) {
        s.remove(s.index_of(p))
    } else {
        s
    }
}

/// How `seq_insert` acts on membership.
pub proof fn lemma_seq_insert(s: Seq<PeerId>, p: PeerId)
    requires
        distinct(s),
    ensures
        distinct(seq_insert(s, p)),
        forall|x: PeerId| #[trigger] seq_insert(s, p).contains(x) <==> (s.contains(x) || x == p),
        seq_insert(s, p).len() == if s.contains(p) {
            s.len()
        } else {
            s.len() + 1
        },
{
    let t = seq_insert(s, p);
    if !s.contains(p) {
        assert forall|x: PeerId| #[trigger] t.contains(x) implies (s.contains(x) || x == p) by {
            let j = choose|j: int| 0 <= j < t.len() && t[j] == x;
            if j < s.len() {
                assert(s[j] == x);
            }
        }
        assert forall|x: PeerId| s.contains(x) || x == p implies #[trigger] t.contains(x) by {
            if x == p {
                assert(t[s.len() as int] == p);
            } else {
                let j = choose|j: int| 0 <= j < s.len() && s[j] == x;
                assert(t[j] == x);
            }
        }
    }
}

/// How `seq_remove` acts on membership.
pub proof fn lemma_seq_remove(s: Seq<PeerId>, p: PeerId)
    requires
        distinct(s),
    ensures
        distinct(seq_remove(s, p)),
        forall|x: PeerId| #[trigger] seq_remove(s, p).contains(x) <==> (s.contains(x) && x != p),
        seq_remove(s, p).len() == if s.contains(p) {
            s.len() - 1
        } else {
            s.len() as int
        },
{
    let t = seq_remove(s, p);
    if s.contains(p) {
        let i = s.index_of(p);
        assert(0 <= i < s.len() && s[i] == p);
        assert forall|x: PeerId| #[trigger] t.contains(x) implies (s.contains(x) && x != p) by {
            let j = choose|j: int| 0 <= j < t.len() && t[j] == x;
            if j < i {
                assert(s[j] == x);
                assert(j != i);
            } else {
                assert(s[j + 1] == x);
                assert(j + 1 != i);
            }
        }
        assert forall|x: PeerId| s.contains(x) && x != p implies #[trigger] t.contains(x) by {
            let j = choose|j: int| 0 <= j < s.len() && s[j] == x;
            assert(j != i);
            if j < i {
                assert(t[j] == x);
            } else {
                assert(t[j - 1] == x);
            }
        }
        assert forall|a: int, b: int| 0 <= a < b < t.len() implies t[a] != t[b] by {
            let sa: int = if a < i { a } else { a + 1 };
            let sb: int = if b < i { b } else { b + 1 };
            assert(t[a] == s[sa]);
            assert(t[b] == s[sb]);
        }
    }
}

/// Finds the entry for key `k` in an association vector.
pub fn find_index<V>(s: &Vec<(PeerId, V)>, k: PeerId) -> (r: Option<usize>)
    ensures
        match r {
            Some(i) => i < s@.len() && s@[i as int].0 == k && (unique_keys(s@) ==> i as int
                == key_index(s@, k)),
            None => !has_key(s@, k),
        },
{
    let mut i: usize = 0;
    while i < s.len()
        invariant
            i <= s@.len(),
            forall|j: int| 0 <= j < i ==> (#[trigger] s@[j]).0 != k,
        decreases s@.len() - i,
    {
        if s[i].0 == k {
            proof {
                if unique_keys(s@) {
                    let j = key_index(s@, k);
                    assert(0 <= j < s@.len() && s@[j].0 == k);
                    if j != i as int {
                        assert(false);
                    }
                }
            }
            return Some(i);
        }
        i = i + 1;
    }
    None
}

/// Whether the set holds `p`.
pub fn set_contains(s: &Vec<PeerId>, p: PeerId) -> (r: bool)
    ensures
        r == s@.contains(p),
{
    let mut i: usize = 0;
    while i < s.len()
        invariant
            i <= s@.len(),
            forall|j: int| 0 <= j < i ==> s@[j] != p,
        decreases s@.len() - i,
    {
        if s[i] == p {
            return true;
        }
        i = i + 1;
    }
    false
}

/// Adds `p` to the set.
pub fn set_insert(s: &mut Vec<PeerId>, p: PeerId)
    requires
        distinct(old(s)@),
    ensures
        final(s)@ == seq_insert(old(s)@, p),
        distinct(final(s)@),
{
    proof {
        lemma_seq_insert(s@, p);
    }
    if !set_contains(s, p) {
        s.push(p);
    }
}

/// Removes `p` from the set.
pub fn set_remove(s: &mut Vec<PeerId>, p: PeerId)
    requires
        distinct(old(s)@),
    ensures
        final(s)@ == seq_remove(old(s)@, p),
        distinct(final(s)@),
{
    proof {
        lemma_seq_remove(s@, p);
    }
    let mut i: usize = 0;
    while i < s.len()
        invariant
            i <= s@.len(),
            forall|j: int| 0 <= j < i ==> s@[j] != p,
            s@ == old(s)@,
            distinct(s@),
        decreases s@.len() - i,
    {
        if s[i] == p {
            proof {
                let j = s@.index_of(p);
                assert(0 <= j < s@.len() && s@[j] == p);
                if j != i as int {
                    assert(false);
                }
            }
            s.remove(i);
            return ;
        }
        i = i + 1;
    }
}

} // verus!
