use lychrel::{is_palindrome, is_related, reverse_add, scan_range, trace_lychrel, Natural, SeenSet};

fn num_of(n: u64) -> Natural {
    Natural::from_u64(n)
}

fn values(v: &[Natural]) -> Vec<Vec<u8>> {
    v.iter().map(|n| n.digits().clone()).collect()
}

#[test]
fn simple_rev_adds() {
    assert!(reverse_add(&num_of(1)) == num_of(2));
    assert!(reverse_add(&num_of(12)) == num_of(33));
    assert!(reverse_add(&num_of(55)) == num_of(110));
    assert!(reverse_add(&num_of(123)) == num_of(444));
}

#[test]
fn simple_palindromes() {
    assert!(is_palindrome(&num_of(1)));
    assert!(is_palindrome(&num_of(11)));
    assert!(is_palindrome(&num_of(121)));
    assert!(is_palindrome(&num_of(1221)));
    assert!(is_palindrome(&num_of(12321)));
    assert!(is_palindrome(&num_of(123321)));
}

#[test]
fn not_palindromes() {
    assert!(!is_palindrome(&num_of(12)));
    assert!(!is_palindrome(&num_of(21)));
    assert!(!is_palindrome(&num_of(1231)));
    assert!(!is_palindrome(&num_of(124321)));
}

#[test]
fn expected_lychrels() {
    assert!(trace_lychrel(&num_of(196), 500).is_some());
    assert!(trace_lychrel(&num_of(879), 500).is_some());
}

#[test]
fn expected_non_lychrels() {
    assert!(trace_lychrel(&num_of(1), 500).is_none());
    assert!(trace_lychrel(&num_of(2), 500).is_none());
    assert!(trace_lychrel(&num_of(3), 500).is_none());
    assert!(trace_lychrel(&num_of(4), 500).is_none());
}

#[test]
fn digits_of_u64_values() {
    assert_eq!(num_of(0).digits(), &vec![0u8]);
    assert_eq!(num_of(1234).digits(), &vec![1u8, 2, 3, 4]);
    assert_eq!(num_of(u64::MAX).digits().len(), 20);
    assert_eq!(num_of(u64::MAX).digits()[0], 1);
}

#[test]
fn reverse_drops_leading_zeros() {
    assert_eq!(reverse_add(&num_of(100)), num_of(101));
    assert_eq!(reverse_add(&num_of(10)), num_of(11));
    assert_eq!(reverse_add(&num_of(0)), num_of(0));
    assert_eq!(reverse_add(&num_of(89)), num_of(187));
}

#[test]
fn reverse_add_of_reversal_differs() {
    // 10 reverses to 1: reverse_add(10) = 11 but reverse_add(1) = 2.
    assert_ne!(reverse_add(&num_of(10)), reverse_add(&num_of(1)));
    // 12 and 21 are reversals of each other and share the sum.
    assert_eq!(reverse_add(&num_of(12)), reverse_add(&num_of(21)));
}

#[test]
fn reverse_add_beyond_u64() {
    let big = num_of(9_999_999_999_999_999_999);
    let r = reverse_add(&big);
    let mut expected = vec![1u8];
    expected.extend(std::iter::repeat(9u8).take(18));
    expected.push(8);
    assert_eq!(r.digits(), &expected);
}

#[test]
fn zero_and_single_digit_palindromes() {
    assert!(is_palindrome(&num_of(0)));
    assert!(is_palindrome(&num_of(7)));
    assert!(!is_palindrome(&num_of(10)));
    assert!(is_palindrome(&num_of(1001)));
}

#[test]
fn trace_of_196_starts_as_expected() {
    let seq = trace_lychrel(&num_of(196), 500).unwrap();
    assert_eq!(seq.len(), 500);
    assert_eq!(seq[0], num_of(887));
    assert_eq!(seq[1], num_of(1675));
    assert_eq!(seq[2], num_of(7436));
}

#[test]
fn trace_with_zero_cap_is_empty_candidate() {
    assert_eq!(trace_lychrel(&num_of(1), 0), Some(vec![]));
    assert_eq!(trace_lychrel(&num_of(196), 0), Some(vec![]));
}

#[test]
fn trace_skips_the_seed() {
    // 5 is a palindrome, but only results are tested: 5 -> 10 -> 11.
    assert!(trace_lychrel(&num_of(5), 1).is_some());
    assert!(trace_lychrel(&num_of(5), 2).is_none());
}

#[test]
fn seen_set_insert_and_contains() {
    let mut seen = SeenSet::new();
    assert!(!seen.contains(&num_of(887)));
    assert!(seen.insert(num_of(887)));
    assert!(!seen.insert(num_of(887)));
    assert!(seen.contains(&num_of(887)));
    assert!(!seen.contains(&num_of(888)));
    // same key modulo the bucket modulus, different numbers
    assert!(seen.insert(num_of(887 + 1_000_000_007)));
    assert!(seen.contains(&num_of(887 + 1_000_000_007)));
    assert!(!seen.contains(&num_of(887 + 2 * 1_000_000_007)));
}

#[test]
fn related_trajectories() {
    let mut seen = SeenSet::new();
    let a = trace_lychrel(&num_of(196), 30).unwrap();
    let b = trace_lychrel(&num_of(887), 30).unwrap();
    let c = trace_lychrel(&num_of(879), 30).unwrap();
    assert!(!is_related(&a, &seen));
    seen.insert_all(&a);
    assert!(is_related(&b, &seen));
    assert!(!is_related(&c, &seen));
}

#[test]
fn order_decides_novel_and_related() {
    let a = trace_lychrel(&num_of(196), 50).unwrap();
    let b = trace_lychrel(&num_of(887), 50).unwrap();

    let mut seen = SeenSet::new();
    assert!(!is_related(&a, &seen));
    seen.insert_all(&a);
    assert!(is_related(&b, &seen));

    let mut seen = SeenSet::new();
    assert!(!is_related(&b, &seen));
    seen.insert_all(&b);
    assert!(is_related(&a, &seen));
}

#[test]
fn scan_up_to_one_thousand() {
    let (novel, related, palindromes) = scan_range(1000, 500);
    assert_eq!(novel, vec![num_of(196), num_of(879)]);
    assert!(related.contains(&num_of(295)));
    assert!(related.contains(&num_of(887)));
    assert!(!related.contains(&num_of(196)));
    assert!(palindromes.is_empty());
}

#[test]
fn scan_lists_are_consistent() {
    let cap = 100;
    let (novel, related, palindromes) = scan_range(1200, cap);
    for n in novel.iter().chain(related.iter()) {
        assert!(trace_lychrel(n, cap).is_some());
    }
    for n in novel.iter() {
        assert!(!related.contains(n));
    }
    for n in palindromes.iter() {
        assert!(is_palindrome(n));
        assert!(trace_lychrel(n, cap).is_some());
    }
    let mut all = values(&novel);
    all.extend(values(&related));
    for i in 1..=1200u64 {
        let candidate = trace_lychrel(&num_of(i), cap).is_some();
        assert_eq!(candidate, all.contains(num_of(i).digits()));
    }
}

#[test]
fn scan_is_repeatable() {
    assert_eq!(scan_range(600, 200), scan_range(600, 200));
}

#[test]
fn scan_of_one_and_zero() {
    assert_eq!(scan_range(1, 500), (vec![], vec![], vec![]));
    assert_eq!(scan_range(0, 500), (vec![], vec![], vec![]));
}

#[test]
fn scan_up_to_ten_thousand() {
    let (novel, related, palindromes) = scan_range(10_000, 500);
    assert_eq!(novel, vec![num_of(196), num_of(879), num_of(1997), num_of(7059), num_of(9999)]);
    assert_eq!(related.len(), 244);
    assert_eq!(palindromes, vec![num_of(4994), num_of(8778), num_of(9999)]);
}
