use zaremba::divisor::{divisors_of, tau_of};

/// tau(n) by brute-force trial division over 1..=n.
fn brute_tau(n: u64) -> usize {
    (1..=n).filter(|d| n % d == 0).count()
}

/// z(n) folded over an explicit divisor list.
fn z_over(divisors: &[u64]) -> f64 {
    let mut z = 0_f64;
    for &d in divisors {
        let df = d as f64;
        z += df.ln() / df;
    }
    z
}

/// z(n) by brute-force trial division over 1..=n, in ascending order.
fn brute_z(n: u64) -> f64 {
    let mut z = 0_f64;
    for d in 1..=n {
        if n % d == 0 {
            let df = d as f64;
            z += df.ln() / df;
        }
    }
    z
}

#[test]
fn tau_matches_brute_force() {
    for n in 1..=300_u64 {
        assert_eq!(tau_of(n), brute_tau(n), "tau mismatch at n = {}", n);
        assert_eq!(divisors_of(n).len(), brute_tau(n));
    }
}

#[test]
fn z_matches_brute_force() {
    for n in 1..=200_u64 {
        let z = z_over(&divisors_of(n));
        let expected = brute_z(n);
        assert!(
            (z - expected).abs() < 1e-12,
            "z mismatch at n = {}: {} vs {}",
            n,
            z,
            expected
        );
    }
}

#[test]
fn every_entry_is_a_divisor_and_none_repeats() {
    for n in 1..=300_u64 {
        let divisors = divisors_of(n);
        for &d in divisors.iter() {
            assert!(d >= 1 && n % d == 0, "non-divisor {} listed for n = {}", d, n);
        }
        for i in 0..divisors.len() {
            for j in 0..divisors.len() {
                if i != j {
                    assert_ne!(divisors[i], divisors[j], "duplicate divisor for n = {}", n);
                }
            }
        }
    }
}

#[test]
fn perfect_square_root_counted_once() {
    for k in 1..=40_u64 {
        let n = k * k;
        let divisors = divisors_of(n);
        let occurrences = divisors.iter().filter(|&&d| d == k).count();
        assert_eq!(occurrences, 1, "sqrt({}) = {} not counted exactly once", n, k);
        assert_eq!(tau_of(n), brute_tau(n));
    }
}

#[test]
fn literal_case_n_1() {
    let divisors = divisors_of(1);
    assert_eq!(divisors, vec![1]);
    assert_eq!(tau_of(1), 1);
    assert_eq!(z_over(&divisors), 0.0);
}

#[test]
fn literal_case_n_2() {
    let divisors = divisors_of(2);
    let mut sorted = divisors.clone();
    sorted.sort();
    assert_eq!(sorted, vec![1, 2]);
    assert_eq!(tau_of(2), 2);
    let z = z_over(&divisors);
    assert!((z - 2.0_f64.ln() / 2.0).abs() < 1e-15);
    assert!((z - 0.3466).abs() < 1e-4);
}

#[test]
fn literal_case_n_4() {
    let divisors = divisors_of(4);
    let mut sorted = divisors.clone();
    sorted.sort();
    assert_eq!(sorted, vec![1, 2, 4]);
    assert_eq!(tau_of(4), 3);
    let z = z_over(&divisors);
    let expected = 2.0_f64.ln() / 2.0 + 4.0_f64.ln() / 4.0;
    assert!((z - expected).abs() < 1e-15);
    assert!((z - 0.6931).abs() < 1e-4);
}

#[test]
fn literal_case_n_6() {
    let divisors = divisors_of(6);
    let mut sorted = divisors.clone();
    sorted.sort();
    assert_eq!(sorted, vec![1, 2, 3, 6]);
    assert_eq!(tau_of(6), 4);
    let z = z_over(&divisors);
    let expected = 2.0_f64.ln() / 2.0 + 3.0_f64.ln() / 3.0 + 6.0_f64.ln() / 6.0;
    assert!((z - expected).abs() < 1e-15);
    assert!((z - 1.0114).abs() < 1e-4);
}

#[test]
fn compute_is_idempotent() {
    for n in [1_u64, 2, 6, 12, 36, 97, 100, 360, 1 << 32, 999_999_937] {
        let first = divisors_of(n);
        let second = divisors_of(n);
        assert_eq!(first, second, "divisor enumeration differs between calls for n = {}", n);
        assert_eq!(tau_of(n), tau_of(n));
        let z1 = z_over(&first);
        let z2 = z_over(&second);
        assert_eq!(z1.to_bits(), z2.to_bits(), "z not bit-identical for n = {}", n);
    }
}
