use vstd::prelude::*;

use crate::natural::{is_palindrome, palindromic, Natural};
use crate::seen::{absorb, is_related, related_to, SeenSet};
use crate::trace::{all_wf, lychrel_within, trace_lychrel, trajectory, values_of};

verus! {

/// Where a scan stands: the three lists so far, and every number of every
/// trajectory of a candidate found so far.
pub struct ScanState {
    pub novel: Seq<nat>,
    pub related: Seq<nat>,
    pub palindromes: Seq<nat>,
    pub seen: Set<nat>,
}

/// The scan of `1..=k` with the cap `t`, one number after the other in
/// ascending order. Each number is classified against the seen-set as it
/// stood before its own trajectory is added.
pub open spec fn scan_upto(k: nat, t: nat) -> ScanState
    decreases k,
{
    if k == 0 {
        ScanState {
            novel: Seq::empty(),
            related: Seq::empty(),
            palindromes: Seq::empty(),
            seen: Set::empty(),
        }
    } else {
        let s = scan_upto((k - 1) as nat, t);
        if lychrel_within(k, t) {
            let traj = trajectory(k, t);
            let rel = related_to(s.seen, traj);
            ScanState {
                novel: if rel {
                    s.novel
                } else {
                    s.novel.push(k)
                },
                related: if rel {
                    s.related.push(k)
                } else {
                    s.related
                },
                palindromes: if palindromic(k) {
                    s.palindromes.push(k)
                } else {
                    s.palindromes
                },
                seen: absorb(s.seen, traj),
            }
        } else {
            s
        }
    }
}

/// Every novel or related number of a scan of `1..=m` lies in that range and
/// is a Lychrel candidate for the cap; no number is both novel and related;
/// every number on the palindrome list is a palindrome and a candidate.
pub proof fn lemma_scan_classification(m: nat, t: nat)
    ensures
        forall|i: int|
            0 <= i < scan_upto(m, t).novel.len() ==> {
                let x = #[trigger] scan_upto(m, t).novel[i];
                1 <= x <= m && lychrel_within(x, t)
            },
        forall|i: int|
            0 <= i < scan_upto(m, t).related.len() ==> {
                let x = #[trigger] scan_upto(m, t).related[i];
                1 <= x <= m && lychrel_within(x, t)
            },
        forall|i: int|
            0 <= i < scan_upto(m, t).palindromes.len() ==> {
                let x = #[trigger] scan_upto(m, t).palindromes[i];
                1 <= x <= m && lychrel_within(x, t) && palindromic(x)
            },
        forall|i: int, j: int|
            0 <= i < scan_upto(m, t).novel.len() && 0 <= j < scan_upto(m, t).related.len()
                ==> #[trigger] scan_upto(m, t).novel[i] != #[trigger] scan_upto(m, t).related[j],
    decreases m,
{
    if m > 0 {
        lemma_scan_classification((m - 1) as nat, t);
        let s = scan_upto((m - 1) as nat, t);
        let n = scan_upto(m, t);
        if lychrel_within(m, t) {
            assert forall|i: int| 0 <= i < n.novel.len() implies {
                let x = #[trigger] n.novel[i];
                1 <= x <= m && lychrel_within(x, t)
            } by {
                if i < s.novel.len() {
                    assert(n.novel[i] == s.novel[i]);
                }
            }
            assert forall|i: int| 0 <= i < n.related.len() implies {
                let x = #[trigger] n.related[i];
                1 <= x <= m && lychrel_within(x, t)
            } by {
                if i < s.related.len() {
                    assert(n.related[i] == s.related[i]);
                }
            }
        }
    }
}

/// Two scans with the same bound and cap give the same three lists.
pub proof fn lemma_scan_repeatable(
    max_num: nat,
    max_tests: nat,
    first: (Vec<Natural>, Vec<Natural>, Vec<Natural>),
    second: (Vec<Natural>, Vec<Natural>, Vec<Natural>),
)
    requires
        values_of(first.0@) == scan_upto(max_num, max_tests).novel,
        values_of(first.1@) == scan_upto(max_num, max_tests).related,
        values_of(first.2@) == scan_upto(max_num, max_tests).palindromes,
        values_of(second.0@) == scan_upto(max_num, max_tests).novel,
        values_of(second.1@) == scan_upto(max_num, max_tests).related,
        values_of(second.2@) == scan_upto(max_num, max_tests).palindromes,
    ensures
        values_of(first.0@) == values_of(second.0@),
        values_of(first.1@) == values_of(second.1@),
        values_of(first.2@) == values_of(second.2@),
{
}

/// Classify every number of `1..=max_num` in ascending order: the novel
/// Lychrel candidates, those related to an earlier trajectory, and the
/// candidates that are palindromes themselves.
pub fn scan_range(max_num: u64, max_tests: usize) -> (r: (Vec<Natural>, Vec<Natural>, Vec<Natural>))
    ensures
        all_wf(r.0@),
        all_wf(r.1@),
        all_wf(r.2@),
        values_of(r.0@) == scan_upto(max_num as nat, max_tests as nat).novel,
        values_of(r.1@) == scan_upto(max_num as nat, max_tests as nat).related,
        values_of(r.2@) == scan_upto(max_num as nat, max_tests as nat).palindromes,
{
    let mut novel: Vec<Natural> = Vec::new();
    let mut related: Vec<Natural> = Vec::new();
    let mut palindromes: Vec<Natural> = Vec::new();
    let mut seen = SeenSet::new();
    let mut i: u64 = 0;
    while i < max_num
        invariant
            i <= max_num,
            seen.wf(),
            all_wf(novel@),
            all_wf(related@),
            all_wf(palindromes@),
            values_of(novel@) == scan_upto(i as nat, max_tests as nat).novel,
            values_of(related@) == scan_upto(i as nat, max_tests as nat).related,
            values_of(palindromes@) == scan_upto(i as nat, max_tests as nat).palindromes,
            seen@ == scan_upto(i as nat, max_tests as nat).seen,
        decreases max_num - i,
    {
        i += 1;
        let num = Natural::from_u64(i);
        if let Some(seq) = trace_lychrel(&num, max_tests) {
            let rel = is_related(&seq, &seen);
            seen.insert_all(&seq);
            if rel {
                let ghost prev = related@;
                related.push(num.duplicate());
                assert(values_of(related@) =~= values_of(prev).push(i as nat));
            } else {
                let ghost prev = novel@;
                novel.push(num.duplicate());
                assert(values_of(novel@) =~= values_of(prev).push(i as nat));
            }
            if is_palindrome(&num) {
                let ghost prev = palindromes@;
                palindromes.push(num);
                assert(values_of(palindromes@) =~= values_of(prev).push(i as nat));
            }
        }
    }
    (novel, related, palindromes)
}

} // verus!
