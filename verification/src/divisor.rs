//! Divisor enumeration by divisor pairs.
//!
//! Every divisor d of n pairs with the cofactor n / d, and one member of
//! each pair is at most the integer square root of n. Walking d from 1 up
//! to that root and emitting both members of each pair therefore produces
//! every divisor of n exactly once — as long as a perfect square's root,
//! whose pair members coincide, is emitted only once.

use vstd::prelude::*;

verus! {

/// d is a positive divisor of n: n mod d = 0.
pub open spec fn divides(d: u64, n: u64) -> bool {
    1 <= d && n % d == 0
}

/// The set of positive divisors of n.
pub open spec fn divisor_set(n: u64) -> Set<u64> {
    Set::new(|d: u64| divides(d, n))
}

/// tau(n): how many distinct positive divisors n has.
pub open spec fn tau(n: u64) -> nat {
    divisor_set(n).len()
}

/// Enumerate the divisors of n, each exactly once, by walking divisor pairs
/// (d, n / d) for d from 1 up to the integer square root of n.
pub fn divisors_of(n: u64) -> (r: Vec<u64>)
    requires
        n >= 1,
    ensures
        r@.no_duplicates(),
        forall|v: u64| #[trigger] r@.contains(v) <==> divides(v, n),
        r@.len() == tau(n),
{
    let mut r: Vec<u64> = Vec::new();
    let mut d: u64 = 1;
    proof {
        lemma_no_divisor_collected_before_one(n);
    }
    while d <= n / d
        invariant
            n >= 1,
            1 <= d,
            r@.no_duplicates(),
            forall|v: u64| #[trigger] r@.contains(v) <==> divides(v, n) && (v < d || n / v < d),
        decreases n + 1 - d,
    {
        proof {
            lemma_candidate_in_bound(n, d);
        }
        if n % d == 0 {
            let e = n / d;
            let ghost s0 = r@;
            proof {
                lemma_pair_not_yet_seen(n, d, s0);
            }
            r.push(d);
            proof {
                broadcast use vstd::seq_lib::lemma_seq_contains_after_push;

                lemma_push_keeps_no_duplicates(s0, d);
            }
            if e > d {
                proof {
                    broadcast use vstd::seq_lib::lemma_seq_contains_after_push;

                    assert(!s0.push(d).contains(e));
                    lemma_push_keeps_no_duplicates(s0.push(d), e);
                }
                r.push(e);
            }
            proof {
                broadcast use vstd::seq_lib::lemma_seq_contains_after_push;

                if e > d {
                    assert(r@ == s0.push(d).push(e));
                } else {
                    assert(r@ == s0.push(d));
                }
                lemma_step_collects_pair(n, d, s0, r@);
            }
        } else {
            proof {
                lemma_step_skips_non_divisor(n, d, r@);
            }
        }
        d = d + 1;
    }
    proof {
        lemma_enumeration_complete(n, d, r@);
        assert(divisor_set(n) =~= r@.to_set());
        r@.unique_seq_to_set();
    }
    r
}

/// tau(n): count the divisors of n.
pub fn tau_of(n: u64) -> (t: usize)
    requires
        n >= 1,
    ensures
        t == tau(n),
{
    let divisors = divisors_of(n);
    divisors.len()
}

/// For a perfect square n = k * k, any enumeration of n's divisors that
/// holds each divisor exactly once holds the square root k exactly once:
/// the coinciding pair (k, n / k) contributes a single entry, never two.
pub proof fn lemma_perfect_square_root_once(n: u64, k: u64, s: Seq<u64>)
    requires
        1 <= k,
        n == k * k,
        s.no_duplicates(),
        forall|v: u64| #[trigger] s.contains(v) <==> divides(v, n),
    ensures
        divisor_set(n).contains(k),
        s.to_multiset().count(k) == 1,
{
    broadcast use vstd::seq_lib::group_to_multiset_ensures;
    broadcast use vstd::multiset::group_multiset_axioms;

    vstd::arithmetic::div_mod::lemma_mod_multiples_basic(k as int, k as int);
    assert(divides(k, n));
    assert(s.contains(k));
    s.lemma_multiset_has_no_duplicates();
}

/// The enumeration of n's divisors is determined by n alone: any two
/// sequences that each hold every divisor of n exactly once hold exactly
/// the same entries, and in particular the same count tau(n).
pub proof fn lemma_enumeration_determined(n: u64, s1: Seq<u64>, s2: Seq<u64>)
    requires
        s1.no_duplicates(),
        s2.no_duplicates(),
        forall|v: u64| #[trigger] s1.contains(v) <==> divides(v, n),
        forall|v: u64| #[trigger] s2.contains(v) <==> divides(v, n),
    ensures
        s1.to_multiset() == s2.to_multiset(),
        s1.len() == s2.len(),
{
    broadcast use vstd::seq_lib::group_to_multiset_ensures;
    broadcast use vstd::multiset::group_multiset_axioms;

    s1.lemma_multiset_has_no_duplicates();
    s2.lemma_multiset_has_no_duplicates();
    assert forall|v: u64| s1.to_multiset().count(v) == s2.to_multiset().count(v) by {
        if s1.contains(v) || s2.contains(v) {
            assert(divides(v, n));
            assert(s1.contains(v) && s2.contains(v));
        }
    }
    assert(s1.to_multiset() =~= s2.to_multiset());
    assert(s1.len() == s1.to_multiset().len());
    assert(s2.len() == s2.to_multiset().len());
}

/// d * q + m with q at least d and m non-negative is at least d * d.
proof fn lemma_square_below(d: int, q: int, m: int, n: int)
    by (nonlinear_arith)
    requires
        1 <= d,
        d <= q,
        n == d * q + m,
        0 <= m,
    ensures
        d * d <= n,
{
}

/// A positive integer whose square is at most n < 2^64 fits in 32 bits.
proof fn lemma_root_is_small(d: int, n: int)
    by (nonlinear_arith)
    requires
        1 <= d,
        d * d <= n,
        n < 0x1_0000_0000_0000_0000,
    ensures
        d < 0x1_0000_0000,
{
}

/// A non-negative cofactor of a positive product is positive.
proof fn lemma_cofactor_positive(v: int, q: int, n: int)
    by (nonlinear_arith)
    requires
        1 <= v,
        0 <= q,
        v * q == n,
        1 <= n,
    ensures
        1 <= q,
{
}

/// When the quotient and remainder of n by d are both below d, n < d * d.
proof fn lemma_past_the_root(d: int, q: int, m: int, n: int)
    by (nonlinear_arith)
    requires
        1 <= d,
        0 <= q < d,
        0 <= m < d,
        n == d * q + m,
    ensures
        n < d * d,
{
}

/// When n < d * d, one member of each divisor pair of n lies below d.
proof fn lemma_pair_member_below(v: int, w: int, d: int, n: int)
    by (nonlinear_arith)
    requires
        1 <= d,
        1 <= v,
        0 <= w,
        v * w == n,
        n < d * d,
    ensures
        v < d || w < d,
{
}

/// No divisor of n lies below 1 or has a cofactor below 1, so the
/// enumeration owes nothing before its first candidate.
proof fn lemma_no_divisor_collected_before_one(n: u64)
    requires
        n >= 1,
    ensures
        forall|v: u64| !(divides(v, n) && (v < 1 || n / v < 1)),
{
    assert forall|v: u64| !(divides(v, n) && (v < 1 || n / v < 1)) by {
        if divides(v, n) {
            lemma_cofactor_facts(n, v);
        }
    }
}

/// While d has not passed the integer square root of n, d * d <= n, so d is
/// far below u64::MAX and stepping to d + 1 cannot overflow.
proof fn lemma_candidate_in_bound(n: u64, d: u64)
    requires
        1 <= d,
        d <= n / d,
    ensures
        d < 0x1_0000_0000,
{
    vstd::arithmetic::div_mod::lemma_fundamental_div_mod(n as int, d as int);
    let q = n as int / d as int;
    let m = n as int % d as int;
    lemma_square_below(d as int, q, m, n as int);
    lemma_root_is_small(d as int, n as int);
}

/// When d divides n, the cofactor e = n / d satisfies d * e == n, e divides
/// n, and n / e == d.
proof fn lemma_cofactor_facts(n: u64, d: u64)
    requires
        n >= 1,
        1 <= d,
        n % d == 0,
    ensures
        d * (n / d) == n,
        divides((n / d) as u64, n),
        n / (n / d) == d,
{
    let e = n / d;
    vstd::arithmetic::div_mod::lemma_fundamental_div_mod(n as int, d as int);
    assert(d * e == n);
    lemma_cofactor_positive(d as int, e as int, n as int);
    vstd::arithmetic::div_mod::lemma_fundamental_div_mod_converse(
        n as int,
        e as int,
        d as int,
        0,
    );
}

/// Before candidate d is processed, neither d nor its cofactor n / d is
/// already in the collected sequence: everything collected so far lies
/// strictly below d or has a cofactor strictly below d.
proof fn lemma_pair_not_yet_seen(n: u64, d: u64, s: Seq<u64>)
    requires
        n >= 1,
        1 <= d,
        d <= n / d,
        n % d == 0,
        forall|v: u64| #[trigger] s.contains(v) <==> divides(v, n) && (v < d || n / v < d),
    ensures
        !s.contains(d),
        !s.contains((n / d) as u64),
{
    let e = (n / d) as u64;
    assert(!s.contains(d));
    lemma_cofactor_facts(n, d);
    assert(n / e == d);
    assert(!s.contains(e));
}

/// Pushing an element a sequence does not yet contain keeps it free of
/// duplicates.
proof fn lemma_push_keeps_no_duplicates(s: Seq<u64>, x: u64)
    requires
        s.no_duplicates(),
        !s.contains(x),
    ensures
        s.push(x).no_duplicates(),
{
    let t = s.push(x);
    assert forall|i: int, j: int|
        0 <= i < t.len() && 0 <= j < t.len() && i != j implies t[i] != t[j] by {
        if i < s.len() && j < s.len() {
            assert(t[i] == s[i] && t[j] == s[j]);
        } else if j == s.len() {
            assert(t[j] == x && t[i] == s[i]);
            if s[i] == x {
                assert(s.contains(x));
            }
        } else {
            assert(t[i] == x && t[j] == s[j]);
            if s[j] == x {
                assert(s.contains(x));
            }
        }
    }
}

/// After candidate d (a divisor of n) has been processed — d pushed, and the
/// cofactor n / d pushed when it is a distinct larger divisor — the collected
/// sequence holds exactly the divisors emitted by candidates up to d: those
/// below d + 1, and those whose cofactor is below d + 1.
proof fn lemma_step_collects_pair(n: u64, d: u64, s0: Seq<u64>, s: Seq<u64>)
    requires
        n >= 1,
        1 <= d,
        d <= n / d,
        n % d == 0,
        forall|v: u64| #[trigger] s0.contains(v) <==> divides(v, n) && (v < d || n / v < d),
        forall|v: u64| #[trigger] s.contains(v) <==> s0.contains(v) || v == d || (v == n / d && n / d > d),
    ensures
        forall|v: u64| #[trigger] s.contains(v) <==> divides(v, n) && (v < d + 1 || n / v < d + 1),
{
    let e = (n / d) as u64;
    lemma_cofactor_facts(n, d);
    assert forall|v: u64| s.contains(v) implies divides(v, n) && (v < d + 1 || n / v < d + 1) by {
        if v == d {
            assert(divides(d, n));
        } else if v == e {
            assert(divides(e, n));
            assert(n / e == d);
        }
    }
    assert forall|v: u64| divides(v, n) && (v < d + 1 || n / v < d + 1) implies s.contains(v) by {
        if !(v < d || n / v < d) {
            if v < d + 1 {
                assert(v == d);
            } else {
                assert(n / v == d);
                lemma_cofactor_facts(n, v);
                vstd::arithmetic::div_mod::lemma_fundamental_div_mod_converse(
                    n as int,
                    d as int,
                    v as int,
                    0,
                );
                assert(n / d == v);
            }
        }
    }
}

/// After a candidate d that does not divide n has been skipped, nothing new
/// was owed: a divisor of n can neither equal d nor have cofactor d.
proof fn lemma_step_skips_non_divisor(n: u64, d: u64, s: Seq<u64>)
    requires
        n >= 1,
        1 <= d,
        n % d != 0,
        forall|v: u64| #[trigger] s.contains(v) <==> divides(v, n) && (v < d || n / v < d),
    ensures
        forall|v: u64| #[trigger] s.contains(v) <==> divides(v, n) && (v < d + 1 || n / v < d + 1),
{
    assert forall|v: u64| divides(v, n) && (v < d + 1 || n / v < d + 1) implies s.contains(v) by {
        if !(v < d || n / v < d) {
            if v < d + 1 {
                assert(v == d);
                assert(false);
            } else {
                assert(n / v == d);
                lemma_cofactor_facts(n, v);
                vstd::arithmetic::div_mod::lemma_fundamental_div_mod_converse(
                    n as int,
                    d as int,
                    v as int,
                    0,
                );
                assert(false);
            }
        }
    }
}

/// Once d has passed the integer square root of n (n / d < d), every
/// divisor pair has been covered: each divisor of n lies below d or has a
/// cofactor below d.
proof fn lemma_enumeration_complete(n: u64, d: u64, s: Seq<u64>)
    requires
        n >= 1,
        1 <= d,
        n / d < d,
        forall|v: u64| #[trigger] s.contains(v) <==> divides(v, n) && (v < d || n / v < d),
    ensures
        forall|v: u64| #[trigger] s.contains(v) <==> divides(v, n),
{
    vstd::arithmetic::div_mod::lemma_fundamental_div_mod(n as int, d as int);
    let q = n as int / d as int;
    let m = n as int % d as int;
    lemma_past_the_root(d as int, q, m, n as int);
    assert forall|v: u64| divides(v, n) implies v < d || n / v < d by {
        lemma_cofactor_facts(n, v);
        lemma_pair_member_below(v as int, n as int / v as int, d as int, n as int);
    }
}

} // verus!
