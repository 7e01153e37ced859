//! Divisibility on the natural numbers.

use vstd::arithmetic::div_mod::{lemma_fundamental_div_mod, lemma_mod_multiples_basic, lemma_small_mod};
use vstd::prelude::*;

verus! {

/// `d` divides `n`: dividing `n` by `d` leaves no remainder. Zero divides
/// only zero, so that `divides(d, n)` holds exactly when `n` is a multiple
/// of `d`.
pub open spec fn divides(d: nat, n: nat) -> bool {
    if d == 0 {
        n == 0
    } else {
        n % d == 0
    }
}

/// `d` divides both `a` and `b`.
pub open spec fn is_common_divisor(d: nat, a: nat, b: nat) -> bool {
    divides(d, a) && divides(d, b)
}

/// Every multiple of `d` is divisible by `d`.
pub proof fn lemma_divides_multiple(d: nat, k: nat)
    ensures
        divides(d, k * d),
        divides(d, d * k),
{
    assert(k * d == d * k) by (nonlinear_arith);
    if d == 0 {
        assert(k * d == 0) by (nonlinear_arith)
            requires
                d == 0,
        ;
    } else {
        lemma_mod_multiples_basic(k as int, d as int);
    }
}

/// A number divisible by `d` is `d` times its quotient by `d`.
pub proof fn lemma_divides_quotient(d: nat, n: nat)
    requires
        divides(d, n),
    ensures
        n == d * (n / d),
{
    if d != 0 {
        lemma_fundamental_div_mod(n as int, d as int);
    }
}

/// Every number divides itself and zero, and one divides every number.
pub proof fn lemma_divides_trivial(n: nat)
    ensures
        divides(n, n),
        divides(n, 0),
        divides(1, n),
{
    lemma_divides_multiple(n, 1);
    lemma_divides_multiple(n, 0);
}

/// A divisor of a positive number is positive and no larger than it.
pub proof fn lemma_divisor_bound(d: nat, n: nat)
    requires
        divides(d, n),
        n > 0,
    ensures
        0 < d <= n,
{
    if n < d {
        lemma_small_mod(n, d);
    }
}

/// Two numbers that divide each other are equal.
pub proof fn lemma_divides_antisymmetric(m: nat, n: nat)
    requires
        divides(m, n),
        divides(n, m),
    ensures
        m == n,
{
    if m > 0 && n > 0 {
        lemma_divisor_bound(m, n);
        lemma_divisor_bound(n, m);
    }
}

/// Divisibility is transitive.
pub proof fn lemma_divides_transitive(d: nat, m: nat, n: nat)
    requires
        divides(d, m),
        divides(m, n),
    ensures
        divides(d, n),
{
    lemma_divides_quotient(d, m);
    lemma_divides_quotient(m, n);
    let p = m / d;
    let q = n / m;
    assert(n == (p * q) * d) by (nonlinear_arith)
        requires
            m == d * p,
            n == m * q,
    ;
    lemma_divides_multiple(d, p * q);
}

/// A divisor of two numbers divides their sum.
pub proof fn lemma_divides_sum(d: nat, m: nat, n: nat)
    requires
        divides(d, m),
        divides(d, n),
    ensures
        divides(d, m + n),
{
    lemma_divides_quotient(d, m);
    lemma_divides_quotient(d, n);
    let p = m / d;
    let q = n / d;
    assert(m + n == (p + q) * d) by (nonlinear_arith)
        requires
            m == d * p,
            n == d * q,
    ;
    lemma_divides_multiple(d, p + q);
}

/// A divisor of two numbers divides their difference.
pub proof fn lemma_divides_difference(d: nat, m: nat, n: nat)
    requires
        divides(d, m),
        divides(d, n),
        n <= m,
    ensures
        divides(d, (m - n) as nat),
{
    lemma_divides_quotient(d, m);
    lemma_divides_quotient(d, n);
    let p = m / d;
    let q = n / d;
    if d == 0 {
    } else {
        assert(q <= p && m - n == (p - q) * d) by (nonlinear_arith)
            requires
                m == d * p,
                n == d * q,
                n <= m,
                d > 0,
        ;
        lemma_divides_multiple(d, (p - q) as nat);
    }
}

} // verus!
