//! Base-256 positional notation: what a string of digits is worth.

use vstd::prelude::*;

verus! {

/// The weight `256^i` of the digit at position `i`.
pub open spec fn weight(i: nat) -> nat
    decreases i,
{
    if i == 0 {
        1
    } else {
        256 * weight((i - 1) as nat)
    }
}

/// The digit of `s` at position `i`; positions past the end hold zero.
pub open spec fn digit_at(s: Seq<u8>, i: int) -> nat {
    if 0 <= i < s.len() {
        s[i] as nat
    } else {
        0
    }
}

/// The worth of the `n` least significant digits of `s`, least significant first.
pub open spec fn prefix_value(s: Seq<u8>, n: nat) -> nat
    decreases n,
{
    if n == 0 {
        0
    } else {
        prefix_value(s, (n - 1) as nat) + digit_at(s, n - 1) * weight((n - 1) as nat)
    }
}

/// The number that `s` denotes when read least significant digit first.
pub open spec fn le_value(s: Seq<u8>) -> nat {
    prefix_value(s, s.len())
}

/// The number that `s` denotes when read most significant digit first.
pub open spec fn be_value(s: Seq<u8>) -> nat
    decreases s.len(),
{
    if s.len() == 0 {
        0
    } else {
        256 * be_value(s.drop_last()) + s.last() as nat
    }
}

/// Every weight is at least one.
pub proof fn lemma_weight_positive(i: nat)
    ensures
        weight(i) >= 1,
    decreases i,
{
    if i > 0 {
        lemma_weight_positive((i - 1) as nat);
    }
}

/// `n` digits denote a number below `256^n`.
pub proof fn lemma_prefix_bound(s: Seq<u8>, n: nat)
    ensures
        prefix_value(s, n) < weight(n),
    decreases n,
{
    if n > 0 {
        let m: nat = (n - 1) as nat;
        lemma_prefix_bound(s, m);
        let d: nat = digit_at(s, m as int);
        let w: nat = weight(m);
        assert(d * w <= 255 * w) by (nonlinear_arith)
            requires
                d <= 255,
                w >= 0,
        ;
    }
}

/// Strings that agree on their first `n` positions have equal `n`-digit prefixes.
pub proof fn lemma_prefix_agree(s: Seq<u8>, t: Seq<u8>, n: nat)
    requires
        forall|j: int| 0 <= j < n ==> digit_at(s, j) == digit_at(t, j),
    ensures
        prefix_value(s, n) == prefix_value(t, n),
    decreases n,
{
    if n > 0 {
        lemma_prefix_agree(s, t, (n - 1) as nat);
    }
}

/// Zero digits between positions `m` and `n` add nothing.
pub proof fn lemma_prefix_zeros(s: Seq<u8>, m: nat, n: nat)
    requires
        m <= n,
        forall|j: int| m <= j < n ==> digit_at(s, j) == 0,
    ensures
        prefix_value(s, n) == prefix_value(s, m),
    decreases n,
{
    if n > m {
        lemma_prefix_zeros(s, m, (n - 1) as nat);
        assert(digit_at(s, n - 1) == 0);
    }
}

/// A longer prefix is worth at least as much as a shorter one.
pub proof fn lemma_prefix_monotone(s: Seq<u8>, m: nat, n: nat)
    requires
        m <= n,
    ensures
        prefix_value(s, m) <= prefix_value(s, n),
    decreases n,
{
    if n > m {
        lemma_prefix_monotone(s, m, (n - 1) as nat);
    }
}

/// Appending a digit adds that digit at the weight of the old length.
pub proof fn lemma_prefix_push(s: Seq<u8>, d: u8)
    ensures
        le_value(s.push(d)) == le_value(s) + d * weight(s.len()),
{
    lemma_prefix_agree(s.push(d), s, s.len());
}

/// The most significant position at which two strings differ decides their order.
pub proof fn lemma_prefix_decides(a: Seq<u8>, b: Seq<u8>, i: nat, n: nat)
    requires
        i < n,
        digit_at(a, i as int) < digit_at(b, i as int),
        forall|j: int| i < j < n ==> digit_at(a, j) == digit_at(b, j),
    ensures
        prefix_value(a, n) < prefix_value(b, n),
    decreases n,
{
    let m: nat = (n - 1) as nat;
    if m == i {
        lemma_prefix_bound(a, i);
        let x: nat = digit_at(a, i as int);
        let y: nat = digit_at(b, i as int);
        let w: nat = weight(i);
        assert((x + 1) * w <= y * w) by (nonlinear_arith)
            requires
                x + 1 <= y,
                w >= 0,
        ;
        assert((x + 1) * w == x * w + w) by (nonlinear_arith);
    } else {
        lemma_prefix_decides(a, b, i, m);
        assert(digit_at(a, m as int) == digit_at(b, m as int));
    }
}

/// Dropping the least significant digit divides the rest by 256.
pub proof fn lemma_prefix_shift(s: Seq<u8>, n: nat)
    requires
        s.len() > 0,
    ensures
        prefix_value(s, n + 1) == s[0] + 256 * prefix_value(s.drop_first(), n),
    decreases n,
{
    let t = s.drop_first();
    if n == 0 {
        assert(weight(0) == 1);
        assert(prefix_value(s, 0) == 0);
        assert(prefix_value(t, 0) == 0);
        assert(prefix_value(s, 1) == prefix_value(s, 0) + digit_at(s, 0) * weight(0));
    } else {
        let m: nat = (n - 1) as nat;
        lemma_prefix_shift(s, m);
        let d: nat = digit_at(s, n as int);
        let w: nat = weight(m);
        assert(d == digit_at(t, m as int));
        assert(weight(n) == 256 * w);
        assert(prefix_value(s, n + 1) == prefix_value(s, n) + d * weight(n));
        assert(prefix_value(t, n) == prefix_value(t, m) + d * w);
        assert(d * (256 * w) == 256 * (d * w)) by (nonlinear_arith);
    }
}

/// Reading a string backwards, most significant digit first, gives the same number.
pub proof fn lemma_reverse_value(s: Seq<u8>)
    ensures
        be_value(s.reverse()) == le_value(s),
    decreases s.len(),
{
    let t = s.reverse();
    if s.len() > 0 {
        assert(t.drop_last() =~= s.drop_first().reverse());
        lemma_reverse_value(s.drop_first());
        lemma_prefix_shift(s, (s.len() - 1) as nat);
    }
}

} // verus!
