//! The greatest common divisor of two natural numbers, and its laws.

use crate::divisor::{
    divides, is_common_divisor, lemma_divides_antisymmetric, lemma_divides_multiple,
    lemma_divides_difference, lemma_divides_sum, lemma_divides_transitive, lemma_divides_trivial,
    lemma_divisor_bound,
};
use vstd::arithmetic::div_mod::{lemma_fundamental_div_mod, lemma_truncate_middle};
use vstd::prelude::*;

verus! {

/// `g` is a greatest common divisor of `a` and `b`: it divides both, and
/// every number that divides both divides `g`.
///
/// "Greatest" is meant in the order of divisibility, in which zero is the
/// top element; this is what makes zero the greatest common divisor of zero
/// and zero. [`lemma_gcd_greatest`] relates it to the order by magnitude.
pub open spec fn is_gcd(g: nat, a: nat, b: nat) -> bool {
    &&& is_common_divisor(g, a, b)
    &&& forall|d: nat| #[trigger] is_common_divisor(d, a, b) ==> divides(d, g)
}

/// The greatest common divisor of `a` and `b`.
///
/// [`lemma_gcd_is_gcd`] shows that such a number exists, and
/// [`lemma_gcd_unique`] that there is only one.
pub open spec fn gcd(a: nat, b: nat) -> nat {
    choose|g: nat| is_gcd(g, a, b)
}

/// For a positive `b`, the pairs `(a, b)` and `(b, a % b)` have the same
/// common divisors.
pub proof fn lemma_common_divisor_remainder(d: nat, a: nat, b: nat)
    requires
        b > 0,
    ensures
        is_common_divisor(d, a, b) <==> is_common_divisor(d, b, a % b),
{
    let q = a / b;
    let r = a % b;
    lemma_fundamental_div_mod(a as int, b as int);
    assert(0 <= q * b) by (nonlinear_arith)
        requires
            0 <= q,
            0 <= b,
    ;
    assert(b * q == q * b) by (nonlinear_arith);
    let m = (q * b) as nat;
    assert(a == m + r);
    if divides(d, b) {
        lemma_divides_multiple(b, q);
        lemma_divides_transitive(d, b, m);
        if divides(d, a) {
            lemma_divides_difference(d, a, m);
        }
        if divides(d, r) {
            lemma_divides_sum(d, m, r);
        }
    }
}

/// For a positive `b`, the pairs `(a, b)` and `(b, a % b)` have the same
/// greatest common divisors.
pub proof fn lemma_is_gcd_remainder(g: nat, a: nat, b: nat)
    requires
        b > 0,
    ensures
        is_gcd(g, a, b) <==> is_gcd(g, b, a % b),
{
    assert forall|d: nat|
        #![trigger is_common_divisor(d, a, b)]
        #![trigger is_common_divisor(d, b, a % b)]
        is_common_divisor(d, a, b) <==> is_common_divisor(d, b, a % b) by {
        lemma_common_divisor_remainder(d, a, b);
    }
}

/// Every pair of natural numbers has a greatest common divisor, and
/// [`gcd`] is one.
pub proof fn lemma_gcd_is_gcd(a: nat, b: nat)
    ensures
        is_gcd(gcd(a, b), a, b),
    decreases b,
{
    if b == 0 {
        lemma_divides_trivial(a);
        assert(is_gcd(a, a, b));
    } else {
        lemma_gcd_is_gcd(b, a % b);
        lemma_is_gcd_remainder(gcd(b, a % b), a, b);
    }
}

/// A pair of natural numbers has only one greatest common divisor.
pub proof fn lemma_gcd_unique(g: nat, a: nat, b: nat)
    requires
        is_gcd(g, a, b),
    ensures
        g == gcd(a, b),
{
    lemma_gcd_is_gcd(a, b);
    lemma_divides_antisymmetric(g, gcd(a, b));
}

/// The greatest common divisor divides both numbers: where it is not
/// zero, dividing either by it leaves no remainder.
pub proof fn lemma_gcd_divides(a: nat, b: nat)
    ensures
        divides(gcd(a, b), a),
        divides(gcd(a, b), b),
        gcd(a, b) != 0 ==> a % gcd(a, b) == 0 && b % gcd(a, b) == 0,
{
    lemma_gcd_is_gcd(a, b);
}

/// Unless both numbers are zero, the greatest common divisor is positive
/// and no common divisor is larger. Of zero and zero it is zero.
pub proof fn lemma_gcd_greatest(a: nat, b: nat)
    ensures
        a == 0 && b == 0 ==> gcd(a, b) == 0,
        a != 0 || b != 0 ==> gcd(a, b) > 0,
        a != 0 || b != 0 ==> forall|d: nat| #[trigger]
            is_common_divisor(d, a, b) ==> d <= gcd(a, b),
{
    let g = gcd(a, b);
    lemma_gcd_is_gcd(a, b);
    if a == 0 && b == 0 {
        assert(is_common_divisor(0, a, b));
    } else {
        assert forall|d: nat| #[trigger] is_common_divisor(d, a, b) implies d <= g by {
            lemma_divisor_bound(d, g);
        }
    }
}

/// The greatest common divisor does not depend on the order of the two
/// numbers.
pub proof fn lemma_gcd_commutative(a: nat, b: nat)
    ensures
        gcd(a, b) == gcd(b, a),
{
    lemma_gcd_is_gcd(a, b);
    assert forall|d: nat| #[trigger] is_common_divisor(d, b, a) implies divides(d, gcd(a, b)) by {
        assert(is_common_divisor(d, a, b));
    }
    lemma_gcd_unique(gcd(a, b), b, a);
}

/// The greatest common divisor of a number and zero is that number.
pub proof fn lemma_gcd_zero(a: nat)
    ensures
        gcd(a, 0) == a,
        gcd(0, a) == a,
{
    lemma_divides_trivial(a);
    assert(is_gcd(a, a, 0));
    lemma_gcd_unique(a, a, 0);
    lemma_gcd_commutative(a, 0);
}

/// One step of the Euclidean algorithm: for a positive `b`, the greatest
/// common divisor of `a` and `b` is that of `b` and `a % b`.
pub proof fn lemma_gcd_remainder(a: nat, b: nat)
    requires
        b > 0,
    ensures
        gcd(a, b) == gcd(b, a % b),
{
    lemma_gcd_is_gcd(a, b);
    lemma_is_gcd_remainder(gcd(a, b), a, b);
    lemma_gcd_unique(gcd(a, b), b, a % b);
}

/// Scaling both numbers by `k` scales their greatest common divisor by `k`.
pub proof fn lemma_gcd_scaling(k: nat, a: nat, b: nat)
    ensures
        gcd(k * a, k * b) == k * gcd(a, b),
    decreases b,
{
    if k == 0 {
        assert(k * a == 0 && k * b == 0 && k * gcd(a, b) == 0) by (nonlinear_arith)
            requires
                k == 0,
        ;
        lemma_gcd_zero(0);
    } else if b == 0 {
        assert(k * b == 0) by (nonlinear_arith)
            requires
                b == 0,
        ;
        lemma_gcd_zero(a);
        lemma_gcd_zero(k * a);
    } else {
        assert(k * b > 0) by (nonlinear_arith)
            requires
                k > 0,
                b > 0,
        ;
        lemma_truncate_middle(a as int, k as int, b as int);
        assert((k * a) % (k * b) == k * (a % b));
        lemma_gcd_remainder(k * a, k * b);
        lemma_gcd_scaling(k, b, a % b);
        lemma_gcd_remainder(a, b);
    }
}

} // verus!
