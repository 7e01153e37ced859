//! The laws of the greatest common divisor, observed on ranges of inputs.

use euclid_gcd::find_gcd;

const SAMPLES: [u32; 16] = [
    0,
    1,
    2,
    3,
    12,
    13,
    17,
    48,
    120,
    1_071,
    65_535,
    65_536,
    1_000_000_007,
    2_147_483_648,
    4_294_967_294,
    4_294_967_295,
];

#[test]
fn result_divides_both_inputs() {
    for a in 0u32..80 {
        for b in 0u32..80 {
            let g: u32 = find_gcd(a, b);
            if g != 0 {
                assert_eq!(a % g, 0);
                assert_eq!(b % g, 0);
            }
        }
    }
    for &a in SAMPLES.iter() {
        for &b in SAMPLES.iter() {
            let g: u32 = find_gcd(a, b);
            if g != 0 {
                assert_eq!(a % g, 0);
                assert_eq!(b % g, 0);
            }
        }
    }
}

#[test]
fn result_is_zero_only_for_zero_and_zero() {
    for &a in SAMPLES.iter() {
        for &b in SAMPLES.iter() {
            assert_eq!(find_gcd(a, b) == 0, a == 0 && b == 0);
        }
    }
}

#[test]
fn no_common_divisor_is_larger_than_the_result() {
    for a in 0u32..60 {
        for b in 0u32..60 {
            if a == 0 && b == 0 {
                continue;
            }
            let g: u32 = find_gcd(a, b);
            let mut largest: u32 = 0;
            for d in 1u32..=60 {
                if a % d == 0 && b % d == 0 {
                    largest = d;
                }
            }
            assert_eq!(g, largest);
        }
    }
}

#[test]
fn every_common_divisor_divides_the_result() {
    for a in 0u32..60 {
        for b in 0u32..60 {
            let g: u32 = find_gcd(a, b);
            for d in 1u32..=60 {
                if a % d == 0 && b % d == 0 {
                    assert_eq!(g % d, 0);
                }
            }
        }
    }
}

#[test]
fn order_of_inputs_does_not_matter() {
    for a in 0u32..80 {
        for b in 0u32..80 {
            assert_eq!(find_gcd(a, b), find_gcd(b, a));
        }
    }
    for &a in SAMPLES.iter() {
        for &b in SAMPLES.iter() {
            assert_eq!(find_gcd(a, b), find_gcd(b, a));
        }
    }
}

#[test]
fn zero_is_neutral() {
    for &a in SAMPLES.iter() {
        assert_eq!(find_gcd(a, 0), a);
        assert_eq!(find_gcd(0, a), a);
    }
}

#[test]
fn scaling_both_inputs_scales_the_result() {
    for k in 0u32..40 {
        for a in 0u32..40 {
            for b in 0u32..40 {
                assert_eq!(find_gcd(k * a, k * b), k * find_gcd(a, b));
            }
        }
    }
    assert_eq!(find_gcd(1_000 * 120, 1_000 * 48), 1_000 * 24);
    assert_eq!(find_gcd(65_535 * 65_537, 65_535 * 2), 65_535);
    assert_eq!(find_gcd(4 * 1_000_000_007, 4 * 1_073_741_823), 4);
}

#[test]
fn one_step_of_remainder_keeps_the_result() {
    for a in 0u32..80 {
        for b in 1u32..80 {
            assert_eq!(find_gcd(a, b), find_gcd(b, a % b));
        }
    }
    for &a in SAMPLES.iter() {
        for &b in SAMPLES.iter() {
            if b != 0 {
                assert_eq!(find_gcd(a, b), find_gcd(b, a % b));
            }
        }
    }
}
