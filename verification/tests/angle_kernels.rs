// Runtime checks of the fixed-point angle kernels. The half period of the
// angle domain is 1000 units in most tests, so a full period is 2000 units.

use vhsd_kernels::demod::demodulate_phase_in_place;
use vhsd_kernels::diff::diff_forward_in_place;
use vhsd_kernels::phase::{normalize_angles_in_place, unwrap_angles_impl, unwrap_angles_in_place};
use vhsd_kernels::KernelError;

#[test]
fn unwrap_corrects_large_jump() {
    let x: Vec<i64> = vec![0, 1900];
    let y = unwrap_angles_impl(&x, 1000).unwrap();
    assert_eq!(y, vec![0, -100]);
}

#[test]
fn unwrap_keeps_boundary_jump() {
    // A jump of exactly one half period is kept, in either direction: the
    // tie-break maps a positive boundary jump to +half_period.
    let up: Vec<i64> = vec![0, 1000];
    assert_eq!(unwrap_angles_impl(&up, 1000).unwrap(), vec![0, 1000]);
    let down: Vec<i64> = vec![0, -1000];
    assert_eq!(unwrap_angles_impl(&down, 1000).unwrap(), vec![0, -1000]);
}

#[test]
fn unwrap_leaves_small_jumps() {
    let x: Vec<i64> = vec![0, 500, -400, 300];
    let y = unwrap_angles_impl(&x, 1000).unwrap();
    assert_eq!(y, x);
}

#[test]
fn unwrap_chains_corrections() {
    // Two successive wraps accumulate whole-period corrections.
    let x: Vec<i64> = vec![0, 1900, 3800];
    let y = unwrap_angles_impl(&x, 1000).unwrap();
    // 1900 -> -100; then 3800 sits 3900 above -100, reduced by two periods
    // to a jump of -100.
    assert_eq!(y, vec![0, -100, -200]);
}

#[test]
fn unwrap_idempotent() {
    let cases: Vec<Vec<i64>> = vec![
        vec![7],
        vec![0, 1900, 3800, 100, -2500],
        vec![314, -1592, 653, 5897, -9323],
        vec![0, 1000, -1000, 2000],
    ];
    for x in cases {
        let y = unwrap_angles_impl(&x, 1000).unwrap();
        let z = unwrap_angles_impl(&y, 1000).unwrap();
        assert_eq!(z, y);
    }
}

#[test]
fn unwrap_continuity() {
    let x: Vec<i64> = vec![0, 1900, 1850, -300, 4100, 4090];
    let y = unwrap_angles_impl(&x, 1000).unwrap();
    for i in 1..y.len() {
        let out_jump = (y[i] - y[i - 1]).abs();
        let in_jump = (x[i] - x[i - 1]).abs();
        assert!(out_jump < 1000 || in_jump >= 1000);
    }
}

#[test]
fn unwrap_empty_fails() {
    let x: Vec<i64> = vec![];
    assert_eq!(unwrap_angles_impl(&x, 1000), Err(KernelError::EmptyInput));
}

#[test]
fn unwrap_in_place_matches_copying_variant() {
    let x: Vec<i64> = vec![0, 2100, -2100, 900];
    let expected = unwrap_angles_impl(&x, 1000).unwrap();
    let mut y = x.clone();
    unwrap_angles_in_place(&mut y, 1000);
    assert_eq!(y, expected);
}

#[test]
fn diff_zero_boundary_and_constant_input() {
    let mut x: Vec<i64> = vec![5, 5, 5, 5];
    diff_forward_in_place(&mut x);
    assert_eq!(x, vec![0, 0, 0, 0]);

    let mut single: Vec<i64> = vec![42];
    diff_forward_in_place(&mut single);
    assert_eq!(single, vec![0]);
}

#[test]
fn diff_values() {
    let mut x: Vec<i64> = vec![1, 4, 9, 16];
    diff_forward_in_place(&mut x);
    assert_eq!(x, vec![0, 3, 5, 7]);
}

#[test]
fn normalize_reduces_into_one_period() {
    let mut x: Vec<i64> = vec![-100, 2047, 4000, 0, 1999];
    normalize_angles_in_place(&mut x, 1000);
    assert_eq!(x, vec![1900, 47, 0, 0, 1999]);
}

#[test]
fn demod_recovers_pure_tone() {
    // A tone advancing 700 units per sample, with each phase sample wrapped
    // into (-1000, 1000]: the demodulated output is the constant increment
    // everywhere past the zero boundary element.
    let x: Vec<i64> = vec![0, 700, -600, 100, 800, -500];
    let mut y = x.clone();
    demodulate_phase_in_place(&mut y, 1000);
    assert_eq!(y, vec![0, 700, 700, 700, 700, 700]);
}

#[test]
fn demod_wraps_negative_increment_into_one_period() {
    // The output range is [0, period): a falling phase shows up one period up.
    let x: Vec<i64> = vec![0, -300, -600];
    let mut y = x.clone();
    demodulate_phase_in_place(&mut y, 1000);
    assert_eq!(y, vec![0, 1700, 1700]);
}

#[test]
fn demod_two_samples() {
    let mut y: Vec<i64> = vec![100, 350];
    demodulate_phase_in_place(&mut y, 1000);
    assert_eq!(y, vec![0, 250]);
}
