//! Natural numbers of any size.

use vstd::prelude::*;
use crate::digits::{weight, digit_at, prefix_value, le_value, be_value};
use crate::digits::{lemma_weight_positive, lemma_prefix_bound, lemma_prefix_agree};
use crate::digits::{lemma_prefix_zeros, lemma_prefix_push, lemma_prefix_decides};
use crate::digits::{lemma_reverse_value, lemma_prefix_monotone};

verus! {

/// A natural number without an upper bound.
///
/// The digits are kept in base 256, least significant first. Every digit
/// string is a valid number; high zero digits do not change its value.
#[derive(Debug)]
pub struct BigUint {
    digits: Vec<u8>,
}

/// How one number stands to another.
enum Relation {
    Less,
    Equal,
    Greater,
}

impl View for BigUint {
    type V = nat;

    closed spec fn view(&self) -> nat {
        le_value(self.digits@)
    }
}

impl BigUint {
    /// The number zero.
    pub fn zero() -> (r: BigUint)
        ensures
            r@ == 0,
    {
        BigUint { digits: Vec::new() }
    }

    /// The number `value`.
    pub fn from_u64(value: u64) -> (r: BigUint)
        ensures
            r@ == value,
    {
        let mut digits: Vec<u8> = Vec::new();
        let mut rest: u64 = value;
        proof {
            let w: nat = weight(0);
            assert(rest * w == rest) by (nonlinear_arith)
                requires
                    w == 1,
            ;
            assert(digits@.len() == 0);
            assert(le_value(digits@) == 0);
        }
        while rest > 0
            invariant
                le_value(digits@) + rest * weight(digits@.len()) == value,
            decreases rest,
        {
            let d: u8 = (rest % 256) as u8;
            let next: u64 = rest / 256;
            proof {
                let w: nat = weight(digits@.len());
                lemma_prefix_push(digits@, d);
                assert(d * w + next * (256 * w) == rest * w) by (nonlinear_arith)
                    requires
                        rest == 256 * next + d,
                ;
            }
            digits.push(d);
            rest = next;
        }
        BigUint { digits }
    }

    /// The number as a `u64`, where it fits.
    pub fn to_u64(&self) -> (r: Option<u64>)
        ensures
            self@ <= u64::MAX ==> r == Some(self@ as u64),
            self@ > u64::MAX ==> r is None,
    {
        let mut acc: u64 = 0;
        let mut i: usize = self.digits.len();
        while i > 0
            invariant
                i <= self.digits.len(),
                le_value(self.digits@) == prefix_value(self.digits@, i as nat) + acc * weight(
                    i as nat,
                ),
            decreases i,
        {
            i = i - 1;
            let d: u8 = self.digits[i];
            proof {
                let w: nat = weight(i as nat);
                assert(d * w + acc * (256 * w) == (acc * 256 + d) * w) by (nonlinear_arith);
            }
            if acc > (u64::MAX - d as u64) / 256 {
                proof {
                    let w: nat = weight(i as nat);
                    let x: int = acc * 256 + d;
                    lemma_weight_positive(i as nat);
                    assert(x * w >= x) by (nonlinear_arith)
                        requires
                            w >= 1,
                            x >= 0,
                    ;
                }
                return None;
            }
            acc = acc * 256 + d as u64;
        }
        proof {
            let w: nat = weight(0);
            assert(acc * w == acc) by (nonlinear_arith)
                requires
                    w == 1,
            ;
        }
        Some(acc)
    }

    /// Whether the number is zero.
    pub fn is_zero(&self) -> (r: bool)
        ensures
            r == (self@ == 0),
    {
        let mut i: usize = 0;
        while i < self.digits.len()
            invariant
                i <= self.digits.len(),
                forall|j: int| 0 <= j < i ==> digit_at(self.digits@, j) == 0,
            decreases self.digits.len() - i,
        {
            if self.digits[i] != 0 {
                proof {
                    let s = self.digits@;
                    let d: nat = digit_at(s, i as int);
                    let w: nat = weight(i as nat);
                    lemma_weight_positive(i as nat);
                    lemma_prefix_monotone(s, (i + 1) as nat, s.len());
                    assert(d * w >= 1) by (nonlinear_arith)
                        requires
                            d >= 1,
                            w >= 1,
                    ;
                }
                return false;
            }
            i = i + 1;
        }
        proof {
            lemma_prefix_zeros(self.digits@, 0, self.digits@.len());
        }
        true
    }

    /// The number that `bytes` denote, most significant byte first.
    pub fn from_bytes_be(bytes: &[u8]) -> (r: BigUint)
        ensures
            r@ == be_value(bytes@),
    {
        let n: usize = bytes.len();
        let mut digits: Vec<u8> = Vec::new();
        let mut i: usize = n;
        while i > 0
            invariant
                i <= n,
                n == bytes@.len(),
                digits@.len() == n - i,
                forall|k: int| 0 <= k < digits@.len() ==> digits@[k] == bytes@[n - 1 - k],
            decreases i,
        {
            i = i - 1;
            digits.push(bytes[i]);
        }
        proof {
            assert(digits@.reverse() =~= bytes@);
            lemma_reverse_value(digits@);
        }
        BigUint { digits }
    }

    /// The shortest string of bytes that denotes the number, most significant
    /// byte first. Zero is the empty string.
    pub fn to_bytes_be(&self) -> (r: Vec<u8>)
        ensures
            be_value(r@) == self@,
            r@.len() > 0 ==> r@[0] != 0,
    {
        let mut n: usize = self.digits.len();
        while n > 0 && self.digits[n - 1] == 0
            invariant
                n <= self.digits@.len(),
                forall|j: int| n <= j < self.digits@.len() ==> digit_at(self.digits@, j) == 0,
            decreases n,
        {
            n = n - 1;
        }
        let mut out: Vec<u8> = Vec::new();
        let mut i: usize = n;
        while i > 0
            invariant
                i <= n <= self.digits@.len(),
                out@.len() == n - i,
                forall|k: int| 0 <= k < out@.len() ==> out@[k] == self.digits@[n - 1 - k],
            decreases i,
        {
            i = i - 1;
            out.push(self.digits[i]);
        }
        proof {
            let s = self.digits@;
            let t = s.take(n as int);
            assert(out@ =~= t.reverse());
            lemma_reverse_value(t);
            lemma_prefix_agree(t, s, n as nat);
            lemma_prefix_zeros(s, n as nat, s.len());
        }
        out
    }

    /// The digit at position `i`; zero past the end.
    fn digit(&self, i: usize) -> (d: u8)
        ensures
            d as nat == digit_at(self.digits@, i as int),
    {
        if i < self.digits.len() {
            self.digits[i]
        } else {
            0
        }
    }

    /// The longer of the two digit strings' lengths.
    fn span(&self, other: &BigUint) -> (n: usize)
        ensures
            n >= self.digits@.len(),
            n >= other.digits@.len(),
            self@ == prefix_value(self.digits@, n as nat),
            other@ == prefix_value(other.digits@, n as nat),
    {
        let n: usize = if self.digits.len() >= other.digits.len() {
            self.digits.len()
        } else {
            other.digits.len()
        };
        proof {
            lemma_prefix_zeros(self.digits@, self.digits@.len(), n as nat);
            lemma_prefix_zeros(other.digits@, other.digits@.len(), n as nat);
        }
        n
    }

    fn compare(&self, other: &BigUint) -> (r: Relation)
        ensures
            r is Less <==> self@ < other@,
            r is Equal <==> self@ == other@,
            r is Greater <==> self@ > other@,
    {
        let n: usize = self.span(other);
        let mut i: usize = n;
        while i > 0
            invariant
                i <= n,
                self@ == prefix_value(self.digits@, n as nat),
                other@ == prefix_value(other.digits@, n as nat),
                forall|j: int|
                    i <= j < n ==> digit_at(self.digits@, j) == digit_at(other.digits@, j),
            decreases i,
        {
            i = i - 1;
            let x: u8 = self.digit(i);
            let y: u8 = other.digit(i);
            if x < y {
                proof {
                    lemma_prefix_decides(self.digits@, other.digits@, i as nat, n as nat);
                }
                return Relation::Less;
            }
            if x > y {
                proof {
                    lemma_prefix_decides(other.digits@, self.digits@, i as nat, n as nat);
                }
                return Relation::Greater;
            }
        }
        proof {
            lemma_prefix_agree(self.digits@, other.digits@, n as nat);
        }
        Relation::Equal
    }

    /// Whether the number is less than `other`.
    pub fn lt(&self, other: &BigUint) -> (r: bool)
        ensures
            r == (self@ < other@),
    {
        match self.compare(other) {
            Relation::Less => true,
            _ => false,
        }
    }

    /// Whether the number is at most `other`.
    pub fn le(&self, other: &BigUint) -> (r: bool)
        ensures
            r == (self@ <= other@),
    {
        match self.compare(other) {
            Relation::Greater => false,
            _ => true,
        }
    }

    /// Whether the number is greater than `other`.
    pub fn gt(&self, other: &BigUint) -> (r: bool)
        ensures
            r == (self@ > other@),
    {
        match self.compare(other) {
            Relation::Greater => true,
            _ => false,
        }
    }

    /// Whether the number is at least `other`.
    pub fn ge(&self, other: &BigUint) -> (r: bool)
        ensures
            r == (self@ >= other@),
    {
        match self.compare(other) {
            Relation::Less => false,
            _ => true,
        }
    }

    /// The sum of the two numbers.
    pub fn add(&self, other: &BigUint) -> (r: BigUint)
        ensures
            r@ == self@ + other@,
    {
        let n: usize = self.span(other);
        let mut digits: Vec<u8> = Vec::new();
        let mut carry: u16 = 0;
        let mut i: usize = 0;
        proof {
            let w: nat = weight(0);
            assert(carry * w == 0) by (nonlinear_arith)
                requires
                    carry == 0,
            ;
            assert(le_value(digits@) == 0);
        }
        while i < n
            invariant
                i <= n,
                digits@.len() == i,
                carry <= 1,
                le_value(digits@) + carry * weight(i as nat) == prefix_value(
                    self.digits@,
                    i as nat,
                ) + prefix_value(other.digits@, i as nat),
            decreases n - i,
        {
            let x: u8 = self.digit(i);
            let y: u8 = other.digit(i);
            let sum: u16 = x as u16 + y as u16 + carry;
            let d: u8 = (sum % 256) as u8;
            let next: u16 = sum / 256;
            proof {
                let w: nat = weight(i as nat);
                lemma_prefix_push(digits@, d);
                assert(d * w + next * (256 * w) == x * w + y * w + carry * w) by (nonlinear_arith)
                    requires
                        d + 256 * next == x + y + carry,
                ;
            }
            digits.push(d);
            carry = next;
            i = i + 1;
        }
        proof {
            let w: nat = weight(n as nat);
            assert(carry * w == if carry == 1 { w } else { 0 }) by (nonlinear_arith)
                requires
                    carry <= 1,
            ;
        }
        if carry > 0 {
            proof {
                lemma_prefix_push(digits@, 1u8);
            }
            digits.push(1);
        }
        BigUint { digits }
    }

    /// The difference of the two numbers, where `other` is not the greater.
    pub fn sub(&self, other: &BigUint) -> (r: BigUint)
        requires
            self@ >= other@,
        ensures
            r@ == self@ - other@,
    {
        let n: usize = self.span(other);
        let mut digits: Vec<u8> = Vec::new();
        let mut borrow: u16 = 0;
        let mut i: usize = 0;
        proof {
            let w: nat = weight(0);
            assert(borrow * w == 0) by (nonlinear_arith)
                requires
                    borrow == 0,
            ;
            assert(le_value(digits@) == 0);
        }
        while i < n
            invariant
                i <= n,
                digits@.len() == i,
                borrow <= 1,
                le_value(digits@) + prefix_value(other.digits@, i as nat) == prefix_value(
                    self.digits@,
                    i as nat,
                ) + borrow * weight(i as nat),
            decreases n - i,
        {
            let x: u16 = self.digit(i) as u16;
            let y: u16 = other.digit(i) as u16 + borrow;
            let next: u16 = if x >= y {
                0
            } else {
                1
            };
            let d: u8 = (x + 256 * next - y) as u8;
            proof {
                let w: nat = weight(i as nat);
                lemma_prefix_push(digits@, d);
                assert(d * w + (y - borrow) * w + borrow * w == x * w + next * (256 * w))
                    by (nonlinear_arith)
                    requires
                        d + y == x + 256 * next,
                ;
            }
            digits.push(d);
            borrow = next;
            i = i + 1;
        }
        proof {
            let w: nat = weight(n as nat);
            lemma_prefix_bound(digits@, n as nat);
            assert(borrow * w == if borrow == 1 { w } else { 0 }) by (nonlinear_arith)
                requires
                    borrow <= 1,
            ;
        }
        BigUint { digits }
    }
}

impl Clone for BigUint {
    fn clone(&self) -> (r: Self)
        ensures
            r@ == self@,
    {
        let digits: Vec<u8> = self.digits.clone();
        assert(digits@ =~= self.digits@);
        BigUint { digits }
    }
}

impl PartialEq for BigUint {
    fn eq(&self, other: &Self) -> (r: bool) {
        match self.compare(other) {
            Relation::Equal => true,
            _ => false,
        }
    }
}

impl vstd::std_specs::cmp::PartialEqSpecImpl for BigUint {
    open spec fn obeys_eq_spec() -> bool {
        true
    }

    open spec fn eq_spec(&self, other: &Self) -> bool {
        self@ == other@
    }
}

} // verus!
