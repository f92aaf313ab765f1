// Runtime checks of the cascade layout and the pulse level estimator, with
// the filtering itself run through the outside filter crate.

use sci_rs::signal::filter::design::Sos;
use sci_rs::signal::filter::sosfiltfilt_dyn;
use vhsd_kernels::filters::from_scipy_dyn_slice;
use vhsd_kernels::levels::{_hz_to_ire, _ire_to_hz, fallback_vsync_loc_means_impl};
use vhsd_kernels::KernelError;

#[test]
fn cascade_groups_six_coefficients_per_section() {
    let buf: Vec<f64> = vec![
        0.5, 1.0, 0.5, 1.0, -0.2, 0.1, 0.25, 0.5, 0.25, 1.0, -0.4, 0.3,
    ];
    let sections = from_scipy_dyn_slice(2, &buf).unwrap();
    assert_eq!(sections.len(), 2);
    assert_eq!(sections[0].b0, 0.5);
    assert_eq!(sections[0].b1, 1.0);
    assert_eq!(sections[0].b2, 0.5);
    assert_eq!(sections[0].a0, 1.0);
    assert_eq!(sections[0].a1, -0.2);
    assert_eq!(sections[0].a2, 0.1);
    assert_eq!(sections[1].b0, 0.25);
    assert_eq!(sections[1].a2, 0.3);
}

#[test]
fn cascade_rejects_length_not_six_per_section() {
    let buf: Vec<f64> = vec![0.5, 1.0, 0.5, 1.0, -0.2];
    assert_eq!(
        from_scipy_dyn_slice(1, &buf),
        Err(KernelError::CoefficientLengthMismatch)
    );
    // Divisible by six but not matching the stated order is a mismatch too.
    let twelve: Vec<f64> = vec![0.0; 12];
    assert_eq!(
        from_scipy_dyn_slice(1, &twelve),
        Err(KernelError::CoefficientLengthMismatch)
    );
    let empty: Vec<f64> = vec![];
    assert!(from_scipy_dyn_slice(0, &empty).unwrap().is_empty());
}

#[test]
fn zero_phase_filtering_keeps_symmetry() {
    // A second-order low-pass section; applying it forward and backward
    // cancels the phase shift, so an even-symmetric input filters to an
    // even-symmetric output.
    let coeffs: Vec<f64> = vec![
        0.06745527, 0.13491055, 0.06745527, 1.0, -1.14298050, 0.41280160,
    ];
    let sections = from_scipy_dyn_slice(1, &coeffs).unwrap();
    let sos: Vec<Sos<f64>> = sections
        .iter()
        .map(|s| Sos::new([s.b0, s.b1, s.b2], [s.a0, s.a1, s.a2]))
        .collect();

    // A symmetric triangular bump, exactly zero long before either edge, so
    // the startup transients at both ends decay below rounding error.
    let n: usize = 201;
    let input: Vec<f64> = (0..n)
        .map(|i| {
            let d = (i as i64 - 100).abs();
            if d < 20 { (20 - d) as f64 / 20.0 } else { 0.0 }
        })
        .collect();
    for i in 0..n {
        assert_eq!(input[i], input[n - 1 - i]);
    }

    let output = sosfiltfilt_dyn(input.iter(), &sos);
    assert_eq!(output.len(), n);
    for i in 0..n {
        assert!(
            (output[i] - output[n - 1 - i]).abs() <= 1e-9,
            "asymmetry at {}: {} vs {}",
            i,
            output[i],
            output[n - 1 - i]
        );
    }
}

#[test]
fn vsync_selects_only_lengths_inside_band() {
    // Pulses of lengths 3, 12 and 25 against the band (10, 20): only the
    // pulse of length 12 is selected, and its mean is taken over the
    // guard-trimmed window.
    let demod: Vec<i64> = (0..30).map(|i| 40 + 3 * i).collect();
    let pulses: Vec<(i64, i64)> = vec![(0, 3), (2, 12), (5, 25)];
    let (locs, means) = fallback_vsync_loc_means_impl(&demod, &pulses, 1, 10, 20);
    assert_eq!(locs, vec![1]);
    assert_eq!(means.len(), 1);
    let (sum, count) = means[0];
    // Window is [2 + 1, 2 + 12 - 1) = [3, 13).
    let expected_sum: i64 = (3..13).map(|i| 40 + 3 * i).sum();
    assert_eq!(sum, expected_sum);
    assert_eq!(count, 10);
    let mean = sum as f64 / count as f64;
    let check: f64 = (3..13).map(|i| (40 + 3 * i) as f64).sum::<f64>() / 10.0;
    assert_eq!(mean, check);
}

#[test]
fn vsync_band_is_open() {
    let demod: Vec<i64> = vec![7; 40];
    let pulses: Vec<(i64, i64)> = vec![(0, 10), (10, 20), (20, 11)];
    let (locs, means) = fallback_vsync_loc_means_impl(&demod, &pulses, 2, 10, 20);
    // Lengths 10 and 20 sit on the open band edges and are rejected.
    assert_eq!(locs, vec![2]);
    assert_eq!(means, vec![(7 * 7, 7)]);
}

#[test]
fn vsync_selects_nothing_outside_band() {
    let demod: Vec<i64> = vec![0; 8];
    let pulses: Vec<(i64, i64)> = vec![(0, 2), (4, 30)];
    let (locs, means) = fallback_vsync_loc_means_impl(&demod, &pulses, 1, 10, 20);
    assert!(locs.is_empty());
    assert!(means.is_empty());
}

#[test]
fn ire_conversions_round_trip() {
    let ire0 = 7_600_000;
    let hz_ire = 1_700;
    let hz = _ire_to_hz(ire0, hz_ire, 100);
    assert_eq!(hz, 7_770_000);
    assert_eq!(_hz_to_ire(hz_ire, ire0, hz, None), 100);
    assert_eq!(_hz_to_ire(hz_ire, 0, hz, Some(ire0)), 100);
}

#[test]
fn hz_to_ire_truncates_toward_zero() {
    assert_eq!(_hz_to_ire(2, 0, -5, None), -2);
    assert_eq!(_hz_to_ire(2, 0, 5, None), 2);
}
