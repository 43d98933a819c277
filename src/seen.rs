use vstd::prelude::*;

use std::collections::HashMap;

use crate::natural::{bucket_of, Natural};
use crate::trace::{all_wf, values_of};

verus! {

broadcast use vstd::std_specs::hash::group_hash_axioms;

/// Some number of `traj` is in `seen`.
pub open spec fn related_to(seen: Set<nat>, traj: Seq<nat>) -> bool {
    exists|i: int| 0 <= i < traj.len() && seen.contains(#[trigger] traj[i])
}

/// `seen` with every number of `traj` added.
pub open spec fn absorb(seen: Set<nat>, traj: Seq<nat>) -> Set<nat> {
    Set::new(|x: nat| seen.contains(x) || traj.contains(x))
}

/// Of two trajectories that share a number, scanned against a seen-set that
/// neither meets, the one that comes first is novel and the second is
/// related, in either order.
pub proof fn lemma_order_sensitivity(seen: Set<nat>, a: Seq<nat>, b: Seq<nat>, x: nat)
    requires
        a.contains(x),
        b.contains(x),
        !related_to(seen, a),
        !related_to(seen, b),
    ensures
        related_to(absorb(seen, a), b),
        related_to(absorb(seen, b), a),
{
    let i = choose|i: int| 0 <= i < a.len() && a[i] == x;
    let j = choose|j: int| 0 <= j < b.len() && b[j] == x;
    assert(absorb(seen, a).contains(b[j]));
    assert(absorb(seen, b).contains(a[i]));
}

/// A set of numbers that only grows: a hash table from the key of a number
/// to the numbers of that key.
pub struct SeenSet {
    buckets: HashMap<u64, Vec<Natural>>,
    members: Ghost<Set<nat>>,
}

impl View for SeenSet {
    type V = Set<nat>;

    closed spec fn view(&self) -> Set<nat> {
        self.members@
    }
}

impl SeenSet {
    /// Each stored number is canonical, sits under its own key and is a
    /// member; each member is stored.
    pub closed spec fn wf(&self) -> bool {
        &&& forall|k: u64, i: int|
            self.buckets@.contains_key(k) && 0 <= i < self.buckets@[k]@.len() ==> {
                let x = #[trigger] self.buckets@[k]@[i];
                x.wf() && bucket_of(x@) == k && self.members@.contains(x@)
            }
        &&& forall|x: nat| #[trigger]
            self.members@.contains(x) ==> {
                &&& self.buckets@.contains_key(bucket_of(x))
                &&& exists|i: int|
                    0 <= i < self.buckets@[bucket_of(x)]@.len()
                        && (#[trigger] self.buckets@[bucket_of(x)]@[i])@ == x
            }
    }

    pub fn new() -> (r: SeenSet)
        ensures
            r.wf(),
            r@ == Set::<nat>::empty(),
    {
        SeenSet { buckets: HashMap::new(), members: Ghost(Set::empty()) }
    }

    pub fn contains(&self, n: &Natural) -> (r: bool)
        requires
            self.wf(),
            n.wf(),
        ensures
            r == self@.contains(n@),
    {
        let key = n.bucket_key();
        match self.buckets.get(&key) {
            None => false,
            Some(bucket) => {
                let mut i: usize = 0;
                while i < bucket.len()
                    invariant
                        self.wf(),
                        n.wf(),
                        key == bucket_of(n@),
                        self.buckets@.contains_key(key),
                        self.buckets@[key] == *bucket,
                        i <= bucket@.len(),
                        forall|j: int| 0 <= j < i ==> (#[trigger] bucket@[j])@ != n@,
                    decreases bucket@.len() - i,
                {
                    if bucket[i].same_value(n) {
                        assert(self.buckets@[key]@[i as int] == bucket@[i as int]);
                        return true;
                    }
                    i += 1;
                }
                false
            },
        }
    }

    /// Add `n`; the result tells whether it was new.
    pub fn insert(&mut self, n: Natural) -> (r: bool)
        requires
            old(self).wf(),
            n.wf(),
        ensures
            final(self).wf(),
            final(self)@ == old(self)@.insert(n@),
            r == !old(self)@.contains(n@),
    {
        if self.contains(&n) {
            assert(self@.insert(n@) =~= self@);
            return false;
        }
        let key = n.bucket_key();
        let ghost old_buckets = self.buckets@;
        let mut bucket = match self.buckets.remove(&key) {
            Some(b) => b,
            None => Vec::new(),
        };
        let ghost old_bucket = bucket@;
        assert(old_buckets.contains_key(key) ==> old_bucket == old_buckets[key]@);
        bucket.push(n);
        self.buckets.insert(key, bucket);
        self.members = Ghost(self.members@.insert(n@));
        assert forall|k: u64, i: int|
            self.buckets@.contains_key(k) && 0 <= i < self.buckets@[k]@.len() implies {
            let x = #[trigger] self.buckets@[k]@[i];
            x.wf() && bucket_of(x@) == k && self.members@.contains(x@)
        } by {
            if k != key {
                assert(self.buckets@[k] == old_buckets[k]);
            } else if i < old_bucket.len() {
                assert(self.buckets@[k]@[i] == old_bucket[i]);
            }
        }
        assert forall|x: nat| #[trigger] self.members@.contains(x) implies {
            &&& self.buckets@.contains_key(bucket_of(x))
            &&& exists|i: int|
                0 <= i < self.buckets@[bucket_of(x)]@.len()
                    && (#[trigger] self.buckets@[bucket_of(x)]@[i])@ == x
        } by {
            let kx = bucket_of(x);
            if x == n@ {
                let last = old_bucket.len() as int;
                assert(self.buckets@[kx]@[last]@ == x);
            } else if kx != key {
                assert(self.buckets@[kx] == old_buckets[kx]);
                let i = choose|i: int|
                    0 <= i < old_buckets[kx]@.len() && (#[trigger] old_buckets[kx]@[i])@ == x;
                assert(self.buckets@[kx]@[i]@ == x);
            } else {
                let i = choose|i: int|
                    0 <= i < old_buckets[kx]@.len() && (#[trigger] old_buckets[kx]@[i])@ == x;
                assert(self.buckets@[kx]@[i] == old_bucket[i]);
            }
        }
        true
    }

    /// Add every number of `seq`.
    pub fn insert_all(&mut self, seq: &Vec<Natural>)
        requires
            old(self).wf(),
            all_wf(seq@),
        ensures
            final(self).wf(),
            final(self)@ == absorb(old(self)@, values_of(seq@)),
    {
        let ghost start = self@;
        let mut i: usize = 0;
        while i < seq.len()
            invariant
                self.wf(),
                all_wf(seq@),
                i <= seq@.len(),
                self@ == absorb(start, values_of(seq@.subrange(0, i as int))),
            decreases seq@.len() - i,
        {
            let ghost before = self@;
            let x = seq[i].duplicate();
            self.insert(x);
            proof {
                let p = values_of(seq@.subrange(0, i as int));
                let q = values_of(seq@.subrange(0, i + 1));
                assert(q =~= p.push(seq@[i as int]@));
                assert(self@ =~= absorb(start, q)) by {
                    assert forall|y: nat| #[trigger] q.contains(y) implies p.contains(y) || y
                        == seq@[i as int]@ by {
                        let j = choose|j: int| 0 <= j < q.len() && q[j] == y;
                        if j < p.len() {
                            assert(p[j] == y);
                        }
                    }
                    assert forall|y: nat| #[trigger] p.contains(y) implies q.contains(y) by {
                        let j = choose|j: int| 0 <= j < p.len() && p[j] == y;
                        assert(q[j] == y);
                    }
                    assert(q[i as int] == seq@[i as int]@);
                }
            }
            i += 1;
        }
        assert(seq@.subrange(0, i as int) =~= seq@);
    }
}

/// Whether some number of `seq` is in `seen`; stops at the first one found.
pub fn is_related(seq: &Vec<Natural>, seen: &SeenSet) -> (r: bool)
    requires
        seen.wf(),
        all_wf(seq@),
    ensures
        r == related_to(seen@, values_of(seq@)),
{
    let mut i: usize = 0;
    while i < seq.len()
        invariant
            seen.wf(),
            all_wf(seq@),
            i <= seq@.len(),
            forall|j: int| 0 <= j < i ==> !seen@.contains(#[trigger] values_of(seq@)[j]),
        decreases seq@.len() - i,
    {
        if seen.contains(&seq[i]) {
            assert(values_of(seq@)[i as int] == seq@[i as int]@);
            return true;
        }
        assert(values_of(seq@)[i as int] == seq@[i as int]@);
        i += 1;
    }
    false
}

} // verus!
