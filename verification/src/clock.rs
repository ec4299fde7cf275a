//! The network-adjusted clock: one signed time-offset sample per peer, and
//! a current adjustment equal to the median of all samples, clamped to
//! `MAX_TIME_ADJUSTMENT` seconds.

use vstd::prelude::*;
use vstd::seq_lib::lemma_sorted_unique;
use vstd::relations::sorted_by;
use vstd::relations::total_ordering;

use crate::peer::MAX_TIME_ADJUSTMENT;
use crate::peer::PeerId;
use crate::table::has_key;
use crate::table::key_index;
use crate::table::lemma_assoc_remove;
use crate::table::unique_keys;
use crate::table::value_of;

verus! {

/// The order the median is taken in.
pub open spec fn leq_i64() -> spec_fn(i64, i64) -> bool {
    |x: i64, y: i64| x <= y
}

/// The sample sequence with the sample for `p` set to `v`: replaced (moved
/// to the back) when present, appended otherwise.
pub open spec fn sample_upsert(s: Seq<(PeerId, i64)>, p: PeerId, v: i64) -> Seq<(PeerId, i64)> {
    if has_key(s, p) {
        s.remove(key_index(s, p)).push((p, v))
    } else {
        s.push((p, v))
    }
}

/// The sample sequence with the sample for `p` retracted.
pub open spec fn sample_remove(s: Seq<(PeerId, i64)>, p: PeerId) -> Seq<(PeerId, i64)> {
    if has_key(s, p) {
        s.remove(key_index(s, p))
    } else {
        s
    }
}

/// An adjustment clamped to the allowed band.
pub open spec fn clamp(x: int) -> i64 {
    if x < -4200 {
        -4200i64
    } else if x > 4200 {
        4200i64
    } else {
        x as i64
    }
}

/// A multiset of per-peer time-offset samples, in seconds.
#[derive(Clone, Debug)]
pub struct AdjustedClock {
    /// The samples, one entry per contributing peer.
    pub samples: Vec<(PeerId, i64)>,
}

impl AdjustedClock {
    /// At most one sample per peer.
    pub open spec fn wf(self) -> bool {
        unique_keys(self.samples@)
    }

    /// Whether peer `p` currently contributes a sample.
    pub open spec fn has_sample(self, p: PeerId) -> bool {
        has_key(self.samples@, p)
    }

    /// The sample contributed by peer `p`.
    pub open spec fn sample_of(self, p: PeerId) -> i64 {
        value_of(self.samples@, p)
    }

    /// The sample values, in insertion order.
    pub open spec fn values(self) -> Seq<i64> {
        self.samples@.map_values(|t: (PeerId, i64)| t.1)
    }

    /// The clamped median of the samples: the lower of the two middle
    /// elements for even counts, zero when no samples exist.
    pub open spec fn spec_offset(self) -> i64 {
        if self.samples@.len() == 0 {
            0
        } else {
            clamp(self.values().sort_by(leq_i64())[(self.values().len() - 1) as int / 2] as int)
        }
    }

    /// An empty clock.
    pub fn new() -> (r: AdjustedClock)
        ensures
            r.samples@ == Seq::<(PeerId, i64)>::empty(),
            r.wf(),
    {
        AdjustedClock { samples: Vec::new() }
    }

    /// The number of peers currently contributing a sample.
    pub fn len(&self) -> (r: usize)
        ensures
            r == self.samples@.len(),
    {
        self.samples.len()
    }

    /// Records the signed offset, in seconds, between `p`'s clock and ours;
    /// an earlier sample by the same peer is replaced.
    pub fn add_sample(&mut self, p: PeerId, offset: i64)
        requires
            old(self).wf(),
        ensures
            final(self).wf(),
            final(self).samples@ == sample_upsert(old(self).samples@, p, offset),
            final(self).has_sample(p),
            final(self).sample_of(p) == offset,
            forall|q: PeerId|
                q != p ==> (#[trigger] final(self).has_sample(q) <==> old(self).has_sample(q)),
            forall|q: PeerId|
                q != p && old(self).has_sample(q) ==> #[trigger] final(self).sample_of(q) == old(
                    self,
                ).sample_of(q),
    {
        proof {
            if has_key(self.samples@, p) {
                lemma_assoc_remove(self.samples@, key_index(self.samples@, p));
            }
        }
        match crate::table::find_index(&self.samples, p) {
            Some(i) => {
                let ghost s0 = self.samples@;
                self.samples.remove(i);
                let ghost s1 = self.samples@;
                self.samples.push((p, offset));
                proof {
                    crate::table::lemma_assoc_push(s1, p, offset);
                }
            },
            None => {
                let ghost s0 = self.samples@;
                self.samples.push((p, offset));
                proof {
                    crate::table::lemma_assoc_push(s0, p, offset);
                }
            },
        }
    }

    /// Retracts the sample contributed by peer `p`, if any.
    pub fn remove_sample(&mut self, p: PeerId)
        requires
            old(self).wf(),
        ensures
            final(self).wf(),
            final(self).samples@ == sample_remove(old(self).samples@, p),
            !final(self).has_sample(p),
            forall|q: PeerId|
                q != p ==> (#[trigger] final(self).has_sample(q) <==> old(self).has_sample(q)),
            forall|q: PeerId|
                q != p && old(self).has_sample(q) ==> #[trigger] final(self).sample_of(q) == old(
                    self,
                ).sample_of(q),
    {
        proof {
            if has_key(self.samples@, p) {
                lemma_assoc_remove(self.samples@, key_index(self.samples@, p));
            }
        }
        match crate::table::find_index(&self.samples, p) {
            Some(i) => {
                self.samples.remove(i);
            },
            None => {},
        }
    }

    /// The current network adjustment: the clamped median of all samples.
    /// Its magnitude never exceeds `MAX_TIME_ADJUSTMENT` seconds.
    pub fn offset(&self) -> (r: i64)
        requires
            self.wf(),
        ensures
            r == self.spec_offset(),
            -MAX_TIME_ADJUSTMENT <= r <= MAX_TIME_ADJUSTMENT,
    {
        let n = self.samples.len();
        if n == 0 {
            return 0;
        }
        let mut vals: Vec<i64> = Vec::new();
        let mut i: usize = 0;
        while i < n
            invariant
                i <= n,
                n == self.samples@.len(),
                vals@.len() == i,
                forall|j: int| 0 <= j < i ==> vals@[j] == self.samples@[j].1,
            decreases n - i,
        {
            let v = self.samples[i].1;
            vals.push(v);
            i = i + 1;
        }
        proof {
            assert(vals@ =~= self.values());
        }
        sort_i64(&mut vals);
        proof {
            lemma_leq_i64_total_ordering();
            self.values().lemma_sort_by_ensures(leq_i64());
            lemma_sorted_unique(vals@, self.values().sort_by(leq_i64()), leq_i64());
            assert(vals@ =~= self.values().sort_by(leq_i64()));
        }
        let mid = (n - 1) / 2;
        let m = vals[mid];
        if m < -MAX_TIME_ADJUSTMENT {
            -MAX_TIME_ADJUSTMENT
        } else if m > MAX_TIME_ADJUSTMENT {
            MAX_TIME_ADJUSTMENT
        } else {
            m
        }
    }
}

/// How setting a sample acts on lookups.
pub proof fn lemma_sample_upsert(s: Seq<(PeerId, i64)>, p: PeerId, v: i64)
    requires
        unique_keys(s),
    ensures
        unique_keys(sample_upsert(s, p, v)),
        forall|x: PeerId| #[trigger] has_key(sample_upsert(s, p, v), x) <==> (has_key(s, x) || x == p),
        value_of(sample_upsert(s, p, v), p) == v,
        forall|x: PeerId|
            x != p && has_key(s, x) ==> #[trigger] value_of(sample_upsert(s, p, v), x) == value_of(
                s,
                x,
            ),
{
    if has_key(s, p) {
        let i = key_index(s, p);
        assert(0 <= i < s.len() && s[i].0 == p);
        lemma_assoc_remove(s, i);
        let t = s.remove(i);
        assert(!has_key(t, p));
        crate::table::lemma_assoc_push(t, p, v);
    } else {
        crate::table::lemma_assoc_push(s, p, v);
    }
}

/// How retracting a sample acts on lookups.
pub proof fn lemma_sample_remove(s: Seq<(PeerId, i64)>, p: PeerId)
    requires
        unique_keys(s),
    ensures
        unique_keys(sample_remove(s, p)),
        !has_key(sample_remove(s, p), p),
        forall|x: PeerId| x != p ==> (#[trigger] has_key(sample_remove(s, p), x) <==> has_key(s, x)),
        forall|x: PeerId|
            x != p && has_key(s, x) ==> #[trigger] value_of(sample_remove(s, p), x) == value_of(
                s,
                x,
            ),
{
    if has_key(s, p) {
        let i = key_index(s, p);
        assert(0 <= i < s.len() && s[i].0 == p);
        lemma_assoc_remove(s, i);
    }
}

/// The median order is a total ordering.
pub proof fn lemma_leq_i64_total_ordering()
    ensures
        total_ordering(leq_i64()),
{
    let leq = leq_i64();
    assert forall|x: i64, y: i64| #[trigger] leq(x, y) || #[trigger] leq(y, x) by {}
}

/// Sorts the values in non-decreasing order, keeping the multiset of
/// elements.
fn sort_i64(v: &mut Vec<i64>)
    ensures
        final(v)@.len() == old(v)@.len(),
        final(v)@.to_multiset() == old(v)@.to_multiset(),
        sorted_by(final(v)@, leq_i64()),
{
    broadcast use vstd::seq_lib::group_to_multiset_ensures;

    let n = v.len();
    let mut i: usize = 0;
    while i < n
        invariant
            i <= n,
            n == v@.len(),
            v@.to_multiset() == old(v)@.to_multiset(),
            forall|a: int, b: int| 0 <= a < b < i ==> v@[a] <= v@[b],
            forall|a: int, b: int| 0 <= a < i <= b < n ==> v@[a] <= v@[b],
        decreases n - i,
    {
        let mut m: usize = i;
        let mut k: usize = i + 1;
        while k < n
            invariant
                i <= m < k <= n,
                n == v@.len(),
                forall|a: int| i <= a < k ==> v@[m as int] <= v@[a],
            decreases n - k,
        {
            if v[k] < v[m] {
                m = k;
            }
            k = k + 1;
        }
        let ghost v0 = v@;
        let vi = v[i];
        let vm = v[m];
        v[i] = vm;
        v[m] = vi;
        proof {
            broadcast use vstd::multiset::group_multiset_axioms;

            if i == m {
                assert(v@ =~= v0);
                assert(v@.to_multiset() =~= v0.to_multiset());
            } else {
                let v1 = v0.update(i as int, vm);
                let v2 = v1.update(m as int, vi);
                assert(v@ == v2);
                vstd::seq_lib::to_multiset_update(v0, i as int, vm);
                assert(v1[m as int] == vm);
                vstd::seq_lib::to_multiset_update(v1, m as int, vi);
                vstd::seq_lib::to_multiset_contains(v0, vm);
                vstd::seq_lib::to_multiset_contains(v0, vi);
                assert(v0.contains(vm));
                assert(v0.contains(vi));
                assert(v0.to_multiset().count(vm) > 0);
                assert(v0.to_multiset().count(vi) > 0);
                assert forall|x: i64| v@.to_multiset().count(x) == v0.to_multiset().count(
                    x,
                ) by {}
                assert(v@.to_multiset() =~= v0.to_multiset());
            }
        }
        i = i + 1;
    }
    proof {
        assert(sorted_by(v@, leq_i64()));
    }
}

} // verus!
