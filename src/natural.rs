use vstd::prelude::*;

verus! {

/// The number written by a sequence of base-10 digits, most significant first.
pub open spec fn decimal_value(s: Seq<u8>) -> nat
    decreases s.len(),
{
    if s.len() == 0 {
        0
    } else {
        decimal_value(s.drop_last()) * 10 + s.last() as nat
    }
}

/// The canonical base-10 digits of `n`, most significant first: no leading
/// zero, and `[0]` for zero.
pub open spec fn digits_of(n: nat) -> Seq<u8>
    decreases n,
{
    if n < 10 {
        seq![n as u8]
    } else {
        digits_of(n / 10).push((n % 10) as u8)
    }
}

pub open spec fn reversed(s: Seq<u8>) -> Seq<u8> {
    Seq::new(s.len(), |i: int| s[s.len() - 1 - i])
}

/// The number whose digits are those of `n` in reverse order (`100` gives `1`).
pub open spec fn reverse_digits(n: nat) -> nat {
    decimal_value(reversed(digits_of(n)))
}

pub open spec fn reverse_add_of(n: nat) -> nat {
    n + reverse_digits(n)
}

pub open spec fn symmetric(s: Seq<u8>) -> bool {
    forall|i: int| 0 <= i < s.len() ==> s[i] == #[trigger] s[s.len() - 1 - i]
}

/// `n` reads the same forwards and backwards in base 10.
pub open spec fn palindromic(n: nat) -> bool {
    symmetric(digits_of(n))
}

pub open spec fn all_digits(s: Seq<u8>) -> bool {
    forall|i: int| 0 <= i < s.len() ==> #[trigger] s[i] < 10
}

pub proof fn lemma_digits_of(n: nat)
    ensures
        digits_of(n).len() >= 1,
        all_digits(digits_of(n)),
        decimal_value(digits_of(n)) == n,
    decreases n,
{
    let d = digits_of(n);
    if n >= 10 {
        lemma_digits_of(n / 10);
        assert(d.drop_last() =~= digits_of(n / 10));
        assert(d.last() as nat == n % 10);
        assert(decimal_value(d) == decimal_value(d.drop_last()) * 10 + d.last() as nat);
        assert((n / 10) * 10 + n % 10 == n);
    } else {
        assert(d.drop_last() =~= Seq::<u8>::empty());
        assert(decimal_value(d) == decimal_value(d.drop_last()) * 10 + d.last() as nat);
    }
}

/// The modulus of the key that sorts numbers into the buckets of a hash table.
pub const KEY_MODULUS: u64 = 1_000_000_007;

/// The remainder modulo `KEY_MODULUS` of the number written by `s`, computed
/// digit by digit.
pub open spec fn fold_key(s: Seq<u8>) -> u64
    decreases s.len(),
{
    if s.len() == 0 {
        0
    } else {
        ((fold_key(s.drop_last()) as nat * 10 + s.last() as nat) % (KEY_MODULUS as nat)) as u64
    }
}

/// The hash-table key of the number `n`.
pub open spec fn bucket_of(n: nat) -> u64 {
    fold_key(digits_of(n))
}

/// Relies on num-bigint: `BigUint` addition, with `BigUint::from_radix_be` and
/// `BigUint::to_radix_be` converting from and to base-10 digits, most
/// significant first (`to_radix_be` gives no leading zero, and `[0]` for zero).
#[verifier::external_body]
fn add_decimal(a: &Vec<u8>, b: &Vec<u8>) -> (r: Vec<u8>)
    requires
        all_digits(a@),
        all_digits(b@),
    ensures
        r@ == digits_of(decimal_value(a@) + decimal_value(b@)),
{
    let x = num::BigUint::from_radix_be(a, 10).unwrap();
    let y = num::BigUint::from_radix_be(b, 10).unwrap();
    (x + y).to_radix_be(10)
}

/// Relies on num-bigint's `BigUint::to_radix_be` for the base-10 digits of
/// a `u64`, most significant first (no leading zero, and `[0]` for zero).
#[verifier::external_body]
fn u64_digits(n: u64) -> (r: Vec<u8>)
    ensures
        r@ == digits_of(n as nat),
{
    num::BigUint::from(n).to_radix_be(10)
}

/// A natural number of any size, held as its canonical base-10 digits.
#[derive(Debug, Clone, PartialEq, Eq)]
pub struct Natural {
    digits: Vec<u8>,
}

impl View for Natural {
    type V = nat;

    closed spec fn view(&self) -> nat {
        decimal_value(self.digits@)
    }
}

impl Natural {
    /// The digits are the canonical ones of the value.
    pub closed spec fn wf(&self) -> bool {
        self.digits@ == digits_of(decimal_value(self.digits@))
    }

    proof fn lemma_wf(&self)
        requires
            self.wf(),
        ensures
            self.digits@ == digits_of(self@),
            all_digits(self.digits@),
            self.digits@.len() >= 1,
    {
        lemma_digits_of(self@);
    }

    pub fn from_u64(n: u64) -> (r: Natural)
        ensures
            r.wf(),
            r@ == n as nat,
    {
        let digits = u64_digits(n);
        proof {
            lemma_digits_of(n as nat);
        }
        Natural { digits }
    }

    /// The canonical base-10 digits, most significant first.
    pub fn digits(&self) -> (r: &Vec<u8>)
        requires
            self.wf(),
        ensures
            r@ == digits_of(self@),
    {
        &self.digits
    }

    pub fn duplicate(&self) -> (r: Natural)
        requires
            self.wf(),
        ensures
            r.wf(),
            r@ == self@,
    {
        let mut digits: Vec<u8> = Vec::new();
        let mut i: usize = 0;
        while i < self.digits.len()
            invariant
                i <= self.digits@.len(),
                digits@ =~= self.digits@.subrange(0, i as int),
            decreases self.digits@.len() - i,
        {
            digits.push(self.digits[i]);
            i += 1;
        }
        assert(digits@ =~= self.digits@);
        Natural { digits }
    }

    /// The hash-table key of this number.
    pub fn bucket_key(&self) -> (r: u64)
        requires
            self.wf(),
        ensures
            r == bucket_of(self@),
    {
        proof {
            self.lemma_wf();
        }
        let mut key: u64 = 0;
        let mut i: usize = 0;
        while i < self.digits.len()
            invariant
                i <= self.digits@.len(),
                all_digits(self.digits@),
                key < KEY_MODULUS,
                key == fold_key(self.digits@.subrange(0, i as int)),
            decreases self.digits@.len() - i,
        {
            let d = self.digits[i];
            proof {
                let next = self.digits@.subrange(0, i + 1);
                assert(next.drop_last() =~= self.digits@.subrange(0, i as int));
                assert(next.last() == d);
            }
            key = (key * 10 + d as u64) % KEY_MODULUS;
            i += 1;
        }
        assert(self.digits@.subrange(0, i as int) =~= self.digits@);
        key
    }

    /// Whether two numbers are equal, by comparing their digits.
    pub fn same_value(&self, other: &Natural) -> (r: bool)
        requires
            self.wf(),
            other.wf(),
        ensures
            r == (self@ == other@),
    {
        proof {
            self.lemma_wf();
            other.lemma_wf();
        }
        if self.digits.len() != other.digits.len() {
            return false;
        }
        let mut i: usize = 0;
        while i < self.digits.len()
            invariant
                self.digits@.len() == other.digits@.len(),
                self.digits@ == digits_of(self@),
                other.digits@ == digits_of(other@),
                i <= self.digits@.len(),
                forall|j: int| 0 <= j < i ==> self.digits@[j] == other.digits@[j],
            decreases self.digits@.len() - i,
        {
            if self.digits[i] != other.digits[i] {
                return false;
            }
            i += 1;
        }
        assert(self.digits@ =~= other.digits@);
        true
    }
}

/// Reverse the decimal digits of `n` and add the number they write to `n`.
pub fn reverse_add(n: &Natural) -> (r: Natural)
    requires
        n.wf(),
    ensures
        r.wf(),
        r@ == reverse_add_of(n@),
        r@ == n@ + reverse_digits(n@),
{
    proof {
        n.lemma_wf();
    }
    let len = n.digits.len();
    let mut rev: Vec<u8> = Vec::new();
    let mut i: usize = 0;
    while i < len
        invariant
            len == n.digits@.len(),
            i <= len,
            rev@ =~= reversed(n.digits@).subrange(0, i as int),
        decreases len - i,
    {
        rev.push(n.digits[len - 1 - i]);
        i += 1;
    }
    assert(rev@ =~= reversed(n.digits@));
    let digits = add_decimal(&n.digits, &rev);
    proof {
        lemma_digits_of(decimal_value(n.digits@) + decimal_value(rev@));
    }
    Natural { digits }
}

/// Reverse-and-add is `n` plus its digit reversal, and the two addends may
/// be taken in either order.
pub proof fn lemma_reverse_add_sum(n: nat)
    ensures
        reverse_add_of(n) == n + reverse_digits(n),
        reverse_add_of(n) == reverse_digits(n) + n,
{
}

/// Whether `n` reads the same forwards and backwards in base 10.
pub fn is_palindrome(n: &Natural) -> (r: bool)
    requires
        n.wf(),
    ensures
        r == palindromic(n@),
{
    proof {
        n.lemma_wf();
    }
    let len = n.digits.len();
    let half = len / 2;
    let mut i: usize = 0;
    while i < half
        invariant
            len == n.digits@.len(),
            n.digits@ == digits_of(n@),
            half == len / 2,
            i <= half,
            forall|j: int|
                0 <= j < i ==> n.digits@[j] == #[trigger] n.digits@[len - 1 - j],
        decreases half - i,
    {
        if n.digits[i] != n.digits[len - 1 - i] {
            assert(!symmetric(n.digits@)) by {
                assert(n.digits@[i as int] != n.digits@[len - 1 - i]);
            }
            return false;
        }
        i += 1;
    }
    assert forall|j: int| 0 <= j < len implies n.digits@[j] == #[trigger] n.digits@[len - 1 - j] by {
        if j >= half {
            let k = len - 1 - j;
            if k < half {
                assert(n.digits@[k] == n.digits@[len - 1 - k]);
            }
        }
    }
    true
}

} // verus!
