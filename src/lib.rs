//! Classification of positive integers under the reverse-and-add iteration
//! that defines Lychrel numbers, bounded by an iteration cap.
//!
//! A number is a Lychrel candidate for a cap `t` when none of the first `t`
//! results of reverse-and-add is a palindrome. This is a bounded search: it
//! never proves that a number is a true Lychrel number.

mod natural;
mod scan;
mod seen;
mod trace;

pub use natural::{
    all_digits, bucket_of, decimal_value, digits_of, fold_key, is_palindrome, lemma_digits_of, lemma_reverse_add_sum,
    palindromic, reverse_add, reverse_add_of, reverse_digits, reversed, symmetric, Natural,
    KEY_MODULUS,
};
pub use scan::{lemma_scan_classification, lemma_scan_repeatable, scan_range, scan_upto, ScanState};
pub use seen::{absorb, is_related, lemma_order_sensitivity, related_to, SeenSet};
pub use trace::{all_wf, iterate, lychrel_within, trace_lychrel, trajectory, values_of};
