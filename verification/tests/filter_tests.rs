use signal_stream::errors::SignalError;
use signal_stream::filter::FilterKind;
use signal_stream::filter::FilterStage;
use signal_stream::fixed::quantize;
use signal_stream::noise::apply_noise;

#[test]
fn quantizer_anchor_points() {
    assert_eq!(quantize(-1_000_000), 0);
    assert_eq!(quantize(0), 500);
    assert_eq!(quantize(1_000_000), 1000);
}

#[test]
fn quantizer_does_not_clamp() {
    assert_eq!(quantize(2_000_000), 1500);
    assert_eq!(quantize(-2_000_000), -500);
}

#[test]
fn quantizer_rounds_to_nearest() {
    // 0.2505 of a unit maps to 625.25, rounded down; 0.2515 to 625.75, up.
    assert_eq!(quantize(250_500), 625);
    assert_eq!(quantize(251_500), 626);
    // An exact half rounds away from zero.
    assert_eq!(quantize(1_000), 501);
    assert_eq!(quantize(-1_000), 500);
}

#[test]
fn noise_level_zero_is_identity() {
    for draw in [0, 1, 499_999, 999_999] {
        assert_eq!(apply_noise(123_456, draw, 0), 123_456);
        assert_eq!(apply_noise(-1_000_000, draw, 0), -1_000_000);
    }
}

#[test]
fn noise_full_level_spans_unit_range() {
    // A draw of 0 maps to -1, a draw just below 1 to almost +1.
    assert_eq!(apply_noise(0, 0, 100), -1_000_000);
    assert_eq!(apply_noise(0, 999_999, 100), 999_998);
    // Half level scales the contribution.
    assert_eq!(apply_noise(0, 0, 50), -500_000);
}

#[test]
fn disabled_filter_passes_through() {
    let mut st = FilterStage::new_disabled();
    assert_eq!(st.step(123_456), Ok(123_456));
    assert_eq!(st.step(-1_000_000), Ok(-1_000_000));
    assert_eq!(st.band, 0);
    assert_eq!(st.low, 0);
}

#[test]
fn filter_rejects_nyquist_and_bad_configs() {
    let mut st = FilterStage::new_disabled();
    // Cutoff at half the sample rate or above is a Nyquist violation.
    assert_eq!(st.set(FilterKind::Lowpass, 200, 100, 1_000_000), Err(SignalError::FilterConfigError));
    assert_eq!(st.set(FilterKind::Lowpass, 200, 300, 1_000_000), Err(SignalError::FilterConfigError));
    assert_eq!(st.set(FilterKind::Lowpass, 0, 10, 1_000_000), Err(SignalError::FilterConfigError));
    assert_eq!(st.set(FilterKind::Lowpass, 200, -1, 1_000_000), Err(SignalError::FilterConfigError));
    // Just below Nyquist is accepted, and so is the disabling sentinel.
    assert_eq!(st.set(FilterKind::Lowpass, 200, 99, 1_000_000), Ok(()));
    assert_eq!(st.set(FilterKind::Lowpass, 200, 0, 0), Ok(()));
}

#[test]
fn filter_reconfiguration_preserves_memory() {
    let mut st = FilterStage::new_disabled();
    // tan(pi * 20 / 200) is about 0.324920 => 324_920 in fixed point.
    st.set(FilterKind::Lowpass, 200, 20, 324_920).unwrap();
    for _ in 0..10 {
        st.step(500_000).unwrap();
    }
    let band = st.band;
    let low = st.low;
    assert!(low != 0);
    st.set(FilterKind::Lowpass, 200, 40, 726_540).unwrap();
    assert_eq!(st.band, band);
    assert_eq!(st.low, low);
}

#[test]
fn lowpass_settles_to_constant_input() {
    let mut st = FilterStage::new_disabled();
    st.set(FilterKind::Lowpass, 200, 20, 324_920).unwrap();
    let mut out = 0;
    for _ in 0..300 {
        out = st.step(500_000).unwrap();
    }
    assert!((out - 500_000).abs() <= 2_000, "lowpass settled at {out}");
}

#[test]
fn highpass_settles_to_zero_on_constant_input() {
    let mut st = FilterStage::new_disabled();
    st.set(FilterKind::Highpass, 200, 20, 324_920).unwrap();
    let mut out = 0;
    for _ in 0..300 {
        out = st.step(500_000).unwrap();
    }
    assert!(out.abs() <= 2_000, "highpass settled at {out}");
}

#[test]
fn runaway_filter_reports_range_error() {
    let mut st = FilterStage::new_disabled();
    // An extreme coefficient drives the accumulators out of range in one step.
    st.set(FilterKind::Lowpass, 1000, 1, 1_000_000_000_000).unwrap();
    let before_band = st.band;
    assert_eq!(st.step(1_000_000), Err(SignalError::ValueOutOfRange));
    assert_eq!(st.band, before_band);
}
