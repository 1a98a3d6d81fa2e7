use shijim_core::hawkes::{HawkesError, RustHawkesIntensity, FIXED_ONE};
use shijim_core::ofi::{OfiError, RustOfiCalculator};
use shijim_core::vpin::{RustVpinCalculator, VpinError};

// VPIN

#[test]
fn vpin_rejects_bad_parameters() {
    assert!(matches!(
        RustVpinCalculator::new(0, 5),
        Err(VpinError::NonPositiveBucketVolume)
    ));
    assert!(matches!(
        RustVpinCalculator::new(10, 0),
        Err(VpinError::ZeroWindow)
    ));
}

#[test]
fn vpin_none_until_window_full() {
    let mut c = RustVpinCalculator::new(10, 2).unwrap();
    assert_eq!(c.update_signed_volume(10), None); // one bucket done
    assert_eq!(c.buckets_ready(), 1);
    let r = c.update_signed_volume(-10); // second bucket done
    assert_eq!(c.buckets_ready(), 2);
    // Both buckets are one-sided: imbalance 10 each; denominator 10 * 2.
    assert_eq!(r, Some((20, 20)));
}

#[test]
fn vpin_splits_one_trade_across_buckets() {
    let mut c = RustVpinCalculator::new(10, 1);
    let c = c.as_mut().unwrap();
    // 25 buy units: two full buckets (imbalance 10 each) and 5 left over.
    let r = c.update_signed_volume(25);
    assert_eq!(c.buckets_ready(), 1); // window keeps only the last bucket
    assert_eq!(r, Some((10, 10)));
}

#[test]
fn vpin_alternating_trades_cancel() {
    // Bucket volume 1000, window 50, alternating +-10 trades.
    // Each bucket absorbs 50 buys and 50 sells of 10, so every completed
    // bucket has imbalance zero and the reported VPIN is 0 / 50000.
    let mut c = RustVpinCalculator::new(1000, 50).unwrap();
    let mut last = None;
    for i in 0..5000 {
        let v = if i % 2 == 0 { 10 } else { -10 };
        last = c.update_signed_volume(v);
        if i < 4999 {
            assert_eq!(last, None, "window must not fill before 50 buckets");
        }
    }
    assert_eq!(c.buckets_ready(), 50);
    assert_eq!(last, Some((0, 50_000)));
}

#[test]
fn vpin_reset_forgets_everything() {
    let mut c = RustVpinCalculator::new(10, 1).unwrap();
    c.update_signed_volume(25);
    c.reset();
    assert_eq!(c.buckets_ready(), 0);
    assert_eq!(c.bucket_volume(), 10);
    assert_eq!(c.update_signed_volume(0), None);
}

// Hawkes

fn fixed(x: f64) -> u64 {
    (x * FIXED_ONE as f64).round() as u64
}

#[test]
fn hawkes_rejects_zero_beta() {
    assert!(matches!(
        RustHawkesIntensity::new(1, 1, 0),
        Err(HawkesError::NonPositiveBeta)
    ));
}

#[test]
fn hawkes_event_sequence_matches_closed_form() {
    // Parameters (0.1, 0.5, 1.0); events at t = 0, 1, 2 seconds.
    let baseline = fixed(0.1);
    let alpha = fixed(0.5);
    let beta = fixed(1.0);
    let mut h = RustHawkesIntensity::new(baseline, alpha, beta).unwrap();

    // First event: baseline + alpha = 0.6.
    let i0 = h.update(0, FIXED_ONE).unwrap();
    assert_eq!(i0, fixed(0.6));

    // Second event at t = 1: 0.1 + (0.6 - 0.1) * e^-1 + 0.5.
    let decay = ((-1.0f64).exp() * FIXED_ONE as f64) as u64;
    let i1 = h.update(1, decay).unwrap();
    let expected1 = 0.1 + (0.6 - 0.1) * (-1.0f64).exp() + 0.5;
    assert!((i1 as f64 / FIXED_ONE as f64 - expected1).abs() < 1e-9);

    // Third event at t = 2: 0.1 + (prev - 0.1) * e^-1 + 0.5.
    let i2 = h.update(2, decay).unwrap();
    let expected2 = 0.1 + (i1 as f64 / FIXED_ONE as f64 - 0.1) * (-1.0f64).exp() + 0.5;
    assert!((i2 as f64 / FIXED_ONE as f64 - expected2).abs() < 1e-9);
}

#[test]
fn hawkes_same_timestamp_adds_exactly_alpha() {
    let mut h = RustHawkesIntensity::new(fixed(0.1), fixed(0.5), fixed(1.0)).unwrap();
    let i1 = h.update(5, FIXED_ONE).unwrap();
    let i2 = h.update(5, FIXED_ONE).unwrap();
    assert_eq!(i2, i1 + fixed(0.5));
}

#[test]
fn hawkes_intensity_decays_to_baseline() {
    let baseline = fixed(0.1);
    let mut h = RustHawkesIntensity::new(baseline, fixed(0.5), fixed(1.0)).unwrap();
    h.update(0, FIXED_ONE).unwrap();
    // A vanished decay factor (dt -> infinity) lands exactly on the
    // baseline; larger factors sit monotonically above it.
    assert_eq!(h.intensity_at(1_000_000, 0).unwrap(), baseline);
    let near = h.intensity_at(10, 1_000).unwrap();
    let far = h.intensity_at(5, 500_000).unwrap();
    assert!(baseline <= near && near <= far);
}

#[test]
fn hawkes_rejects_out_of_order_timestamps() {
    let mut h = RustHawkesIntensity::new(fixed(0.1), fixed(0.5), fixed(1.0)).unwrap();
    h.update(10, FIXED_ONE).unwrap();
    assert!(matches!(
        h.update(5, FIXED_ONE),
        Err(HawkesError::OutOfOrderTimestamp)
    ));
    // The failed update changed nothing.
    assert_eq!(h.current_intensity(), fixed(0.6));
}

#[test]
fn hawkes_update_many_collects_intensities() {
    let mut h = RustHawkesIntensity::new(fixed(0.1), fixed(0.5), fixed(1.0)).unwrap();
    let decay = ((-1.0f64).exp() * FIXED_ONE as f64) as u64;
    let out = h
        .update_many(&vec![(0, FIXED_ONE), (1, decay), (2, decay)])
        .unwrap();
    assert_eq!(out.len(), 3);
    assert_eq!(out[0], fixed(0.6));
    assert_eq!(out[2], h.current_intensity());
}

#[test]
fn hawkes_reset_returns_to_baseline() {
    let mut h = RustHawkesIntensity::new(fixed(0.1), fixed(0.5), fixed(1.0)).unwrap();
    h.update(3, FIXED_ONE).unwrap();
    h.reset();
    assert_eq!(h.current_intensity(), fixed(0.1));
    assert_eq!(h.intensity_at(0, 0).unwrap(), fixed(0.1));
}

// OFI

#[test]
fn ofi_first_full_observation_gives_no_result() {
    let mut c = RustOfiCalculator::new();
    let r = c
        .update_from_levels(&vec![100], &vec![5], &vec![200], &vec![7])
        .unwrap();
    assert_eq!(r, None);
}

#[test]
fn ofi_missing_depth_reports_zero_flow() {
    let mut c = RustOfiCalculator::new();
    let r = c
        .update_from_levels(&vec![], &vec![], &vec![200], &vec![7])
        .unwrap();
    assert_eq!(r, Some(0));
}

#[test]
fn ofi_mismatched_lengths_fail() {
    let mut c = RustOfiCalculator::new();
    let err = c
        .update_from_levels(&vec![100, 99], &vec![5], &vec![200], &vec![7])
        .unwrap_err();
    assert!(matches!(err, OfiError::MismatchedLengths));
}

#[test]
fn ofi_size_only_updates_give_size_deltas() {
    // Unchanged prices: bid side contributes size - prev_size, ask side
    // its negative.
    let mut c = RustOfiCalculator::new();
    c.update_from_levels(&vec![100], &vec![5], &vec![200], &vec![7])
        .unwrap();
    let r = c
        .update_from_levels(&vec![100], &vec![8], &vec![200], &vec![4])
        .unwrap();
    assert_eq!(r, Some((8 - 5) - (4 - 7)));
}

#[test]
fn ofi_price_moves_use_full_sizes() {
    let mut c = RustOfiCalculator::new();
    c.update_from_levels(&vec![100], &vec![5], &vec![200], &vec![7])
        .unwrap();
    // Bid price rises: +size. Ask price rises: -prev_size.
    let r = c
        .update_from_levels(&vec![101], &vec![9], &vec![201], &vec![3])
        .unwrap();
    assert_eq!(r, Some(9 - (-7)));
    // Bid price falls: -prev_size. Ask price falls: +size.
    let r = c
        .update_from_levels(&vec![100], &vec![2], &vec![200], &vec![6])
        .unwrap();
    assert_eq!(r, Some(-9 - 6));
}

#[test]
fn ofi_reset_forgets_state() {
    let mut c = RustOfiCalculator::new();
    c.update_from_levels(&vec![100], &vec![5], &vec![200], &vec![7])
        .unwrap();
    c.reset();
    let r = c
        .update_from_levels(&vec![100], &vec![5], &vec![200], &vec![7])
        .unwrap();
    assert_eq!(r, None);
}
