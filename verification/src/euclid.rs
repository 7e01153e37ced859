//! The Euclidean algorithm on 32-bit unsigned integers.

use crate::divisor::is_common_divisor;
use crate::gcd::{gcd, is_gcd, lemma_gcd_greatest, lemma_gcd_is_gcd, lemma_gcd_remainder, lemma_gcd_zero};
use vstd::prelude::*;

verus! {

/// Computes the greatest common divisor of `a` and `b` by repeatedly
/// replacing the pair `(a, b)` with `(b, a % b)` until the second number is
/// zero.
///
/// Every pair of inputs is accepted. The result divides both inputs and is
/// divided by each of their common divisors; unless both inputs are zero it
/// is positive and the largest of their common divisors, and of zero and
/// zero it is zero.
pub fn find_gcd(a: u32, b: u32) -> (g: u32)
    ensures
        g == gcd(a as nat, b as nat),
        is_gcd(g as nat, a as nat, b as nat),
        a == 0 && b == 0 ==> g == 0,
        a != 0 || b != 0 ==> g > 0,
        a != 0 || b != 0 ==> forall|d: nat| #[trigger]
            is_common_divisor(d, a as nat, b as nat) ==> d <= g,
{
    let mut x: u32 = a;
    let mut y: u32 = b;
    while y != 0
        invariant
            gcd(x as nat, y as nat) == gcd(a as nat, b as nat),
        decreases y,
    {
        proof {
            lemma_gcd_remainder(x as nat, y as nat);
        }
        let r: u32 = x % y;
        x = y;
        y = r;
    }
    proof {
        lemma_gcd_zero(x as nat);
        lemma_gcd_is_gcd(a as nat, b as nat);
        lemma_gcd_greatest(a as nat, b as nat);
    }
    x
}

} // verus!
