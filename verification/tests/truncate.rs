use fyre_fractal_function::truncate::effective_term_count;

use std::f64::consts::PI;

/// Finiteness flags for the scaled power table of `b`, checked against
/// `max_abs_x`, one flag per step `1 ..= term_count`, stopping at the
/// first failing step as the table builder does.
fn power_table_flags(b: f64, term_count: u32, max_abs_x: f64) -> Vec<bool> {
    let mut b_scaled: f64 = PI;
    let mut flags = Vec::new();
    for _ in 1..=term_count {
        b_scaled *= b;
        let finite = !(max_abs_x * b_scaled).is_infinite();
        flags.push(finite);
        if !finite {
            break;
        }
    }
    flags
}

#[test]
fn stops_at_first_false_flag() {
    let flags = vec![true, true, false, true];
    assert_eq!(effective_term_count(&flags), 2);
}

#[test]
fn keeps_all_terms_when_every_step_is_finite() {
    let flags = vec![true, true, true, true, true];
    assert_eq!(effective_term_count(&flags), 5);
}

#[test]
fn no_steps_means_zero_terms() {
    let flags: Vec<bool> = Vec::new();
    assert_eq!(effective_term_count(&flags), 0);
}

#[test]
fn immediate_overflow_keeps_only_the_constant_term() {
    let flags = vec![false, true, true];
    assert_eq!(effective_term_count(&flags), 0);
}

#[test]
fn repeated_calls_return_the_same_count() {
    let flags = vec![true, false, true];
    let first = effective_term_count(&flags);
    let second = effective_term_count(&flags);
    assert_eq!(first, second);
    assert_eq!(first, 1);
}

#[test]
fn overflow_scenario_with_huge_base_truncates() {
    // pi * (1e100)^4 overflows f64, so of the five requested steps only
    // the first three survive.
    let flags = power_table_flags(1e100, 5, 1.0);
    assert_eq!(effective_term_count(&flags), 3);
}

#[test]
fn truncation_threshold_is_monotone_in_scan_magnitude() {
    // A wider scan (larger max |x|) can only truncate earlier, never
    // later, for the same series coefficients.
    let wide = power_table_flags(1e100, 5, 1e8);
    let narrow = power_table_flags(1e100, 5, 1.0);
    let wide_count = effective_term_count(&wide);
    let narrow_count = effective_term_count(&narrow);
    assert_eq!(wide_count, 2);
    assert_eq!(narrow_count, 3);
    assert!(wide_count <= narrow_count);
}

#[test]
fn large_term_count_with_base_nine_never_overflows_unit_scan() {
    // a = 1, b = 9, 256 terms, scan over [0, 1]: pi * 9^256 stays finite,
    // so the full term count survives and every evaluated value is finite.
    let flags = power_table_flags(9.0, 256, 1.0);
    let effective = effective_term_count(&flags);
    assert_eq!(effective, 256);

    let mut a_pows = vec![1.0f64];
    let mut b_scaled = vec![PI];
    for i in 1..=effective {
        a_pows.push(a_pows[i - 1] * 1.0);
        b_scaled.push(b_scaled[i - 1] * 9.0);
    }
    for &x in &[0.0f64, 0.25, 0.5, 0.75, 1.0] {
        let mut sum = 0.0f64;
        for i in 0..=effective {
            sum += a_pows[i] * (b_scaled[i] * x).cos();
        }
        assert!(sum.is_finite());
    }
}
