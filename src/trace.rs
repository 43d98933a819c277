use vstd::prelude::*;

use crate::natural::{is_palindrome, palindromic, reverse_add, reverse_add_of, Natural};

verus! {

/// `n` after `k` applications of reverse-and-add.
pub open spec fn iterate(n: nat, k: nat) -> nat
    decreases k,
{
    if k == 0 {
        n
    } else {
        reverse_add_of(iterate(n, (k - 1) as nat))
    }
}

/// No result of the first `t` reverse-and-add steps from `n` is a palindrome.
/// The seed itself is not tested.
pub open spec fn lychrel_within(n: nat, t: nat) -> bool {
    forall|k: nat| 1 <= k <= t ==> !palindromic(#[trigger] iterate(n, k))
}

/// The results of the first `t` reverse-and-add steps from `n`, in order;
/// the seed is not among them.
pub open spec fn trajectory(n: nat, t: nat) -> Seq<nat> {
    Seq::new(t, |i: int| iterate(n, (i + 1) as nat))
}

pub open spec fn values_of(v: Seq<Natural>) -> Seq<nat> {
    v.map_values(|x: Natural| x@)
}

pub open spec fn all_wf(v: Seq<Natural>) -> bool {
    forall|i: int| 0 <= i < v.len() ==> #[trigger] v[i].wf()
}

/// Apply reverse-and-add to `seed` up to `max_tests` times. `None` when some
/// result is a palindrome; otherwise the full trajectory. A `None` proves
/// that `seed` is no Lychrel number; a `Some` only says that none was found
/// within the bound.
pub fn trace_lychrel(seed: &Natural, max_tests: usize) -> (r: Option<Vec<Natural>>)
    requires
        seed.wf(),
    ensures
        r is Some <==> lychrel_within(seed@, max_tests as nat),
        r matches Some(v) ==> all_wf(v@) && values_of(v@) == trajectory(seed@, max_tests as nat),
{
    let mut sequence: Vec<Natural> = Vec::new();
    let mut current = seed.duplicate();
    let mut step: usize = 0;
    while step < max_tests
        invariant
            step <= max_tests,
            current.wf(),
            current@ == iterate(seed@, step as nat),
            all_wf(sequence@),
            values_of(sequence@) =~= trajectory(seed@, step as nat),
            lychrel_within(seed@, step as nat),
        decreases max_tests - step,
    {
        let next = reverse_add(&current);
        assert(next@ == iterate(seed@, (step + 1) as nat));
        if is_palindrome(&next) {
            return None;
        }
        let ghost prev = sequence@;
        let copy = next.duplicate();
        sequence.push(copy);
        current = next;
        step += 1;
        assert(values_of(prev).len() == prev.len());
        assert(prev.len() == step - 1);
        assert(sequence@ == prev.push(copy));
        assert forall|i: int| 0 <= i < step implies #[trigger] values_of(sequence@)[i] == trajectory(
            seed@,
            step as nat,
        )[i] by {
            if i < step - 1 {
                assert(sequence@[i] == prev[i]);
                assert(values_of(prev)[i] == trajectory(seed@, (step - 1) as nat)[i]);
            }
        }
        assert(values_of(sequence@) =~= trajectory(seed@, step as nat));
    }
    Some(sequence)
}

} // verus!
