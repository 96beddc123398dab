use signal_stream::cursor::advance;
use signal_stream::engine::Signal;
use signal_stream::engine::TickValue;
use signal_stream::errors::SignalError;
use signal_stream::normalize::normalize_samples;

#[test]
fn tick_period_from_sample_rate() {
    let mut s = Signal::new();
    assert_eq!(s.get_ms_delay(), 5);
    s.set_sample_f(200);
    assert_eq!(s.get_ms_delay(), 5);
    s.set_sample_f(3);
    assert_eq!(s.get_ms_delay(), 333);
    s.set_sample_f(1);
    assert_eq!(s.get_ms_delay(), 1000);
    s.set_sample_f(1001);
    assert_eq!(s.get_ms_delay(), 0);
}

#[test]
fn normalize_five_rows() {
    let raw = vec![1_000_000i64, 2_000_000, 3_000_000, 4_000_000, 5_000_000];
    let w = normalize_samples(&raw).unwrap();
    assert_eq!(w, vec![-1_000_000, -500_000, 0, 500_000, 1_000_000]);
}

#[test]
fn normalize_rejects_empty_and_constant() {
    assert_eq!(normalize_samples(&vec![]), Err(SignalError::EmptyInput));
    assert_eq!(normalize_samples(&vec![3_000_000, 3_000_000]), Err(SignalError::DegenerateRange));
    assert_eq!(normalize_samples(&vec![7]), Err(SignalError::DegenerateRange));
}

#[test]
fn normalize_twice_changes_nothing() {
    let raw = vec![10_000_000i64, -2_500_000, 0, 4_000_000];
    let once = normalize_samples(&raw).unwrap();
    let twice = normalize_samples(&once).unwrap();
    assert_eq!(once, twice);
}

#[test]
fn normalize_keeps_duplicate_maxima() {
    // Both copies of the raw maximum land exactly on 1.
    let w = normalize_samples(&vec![0i64, 10_000_000, 10_000_000]).unwrap();
    assert_eq!(w, vec![-1_000_000, 1_000_000, 1_000_000]);
}

fn quiet_engine(data: &[u8], sample_f: i32) -> Signal {
    let mut s = Signal::new();
    s.set_sample_f(sample_f);
    s.set_skip_n(0);
    s.set_int_mode(false);
    s.set_noise(0);
    s.set_lp_filter(sample_f, 0, 0).unwrap();
    s.set_hp_filter(sample_f, 0, 0).unwrap();
    s.load_csv_bytes(data).unwrap();
    s
}

#[test]
fn end_to_end_five_rows_loop_playback() {
    let data = b"value\n1\n2\n3\n4\n5\n";
    let mut s = quiet_engine(data, 5);
    assert_eq!(s.get_ms_delay(), 200);
    let expected = [-1_000_000i64, -500_000, 0, 500_000, 1_000_000];
    for &e in &expected {
        assert_eq!(s.get_next_data(), Ok(TickValue::Analog(e)));
    }
    // The cursor wraps: the sixth tick replays the first sample.
    assert_eq!(s.get_next_data(), Ok(TickValue::Analog(-1_000_000)));
}

#[test]
fn end_to_end_quantized() {
    let data = b"value\n1\n2\n3\n4\n5\n";
    let mut s = quiet_engine(data, 5);
    s.set_int_mode(true);
    for e in [0i64, 250, 500, 750, 1000] {
        assert_eq!(s.get_next_data(), Ok(TickValue::Quantized(e)));
    }
}

#[test]
fn decimation_skips_samples() {
    let data = b"value\n1\n2\n3\n4\n5\n";
    let mut s = quiet_engine(data, 5);
    s.set_skip_n(2);
    // Indices visited: 0, 3, 1, 4, 2, then 0 again.
    let expected = [-1_000_000i64, 500_000, -500_000, 1_000_000, 0, -1_000_000];
    for &e in &expected {
        assert_eq!(s.get_next_data(), Ok(TickValue::Analog(e)));
    }
}

#[test]
fn cursor_advance_wraps() {
    assert_eq!(advance(0, 0, 5), 1);
    assert_eq!(advance(4, 0, 5), 0);
    assert_eq!(advance(0, 2, 5), 3);
    assert_eq!(advance(3, 2, 5), 1);
    assert_eq!(advance(0, 7, 5), 3);
}

#[test]
fn loader_error_taxonomy() {
    let mut s = Signal::new();
    assert_eq!(s.load_csv_bytes(b"header\n1\nnot-a-number\n"), Err(SignalError::ParseError));
    assert_eq!(s.load_csv_bytes(b"header\n"), Err(SignalError::EmptyInput));
    assert_eq!(s.load_csv_bytes(b"header\n2\n2\n"), Err(SignalError::DegenerateRange));
}

#[test]
fn loader_reads_first_field_only() {
    // Extra columns are ignored; only the first field of each record counts.
    let data = b"a,b\n1,9\n3,9\n";
    let mut s = quiet_engine(data, 200);
    assert_eq!(s.get_next_data(), Ok(TickValue::Analog(-1_000_000)));
    assert_eq!(s.get_next_data(), Ok(TickValue::Analog(1_000_000)));
}

#[test]
fn noisy_engine_stays_in_band() {
    // With full noise on a constant-free buffer and no filters, every value
    // stays within one unit of noise around the normalized samples.
    let data = b"v\n0\n1\n";
    let mut s = quiet_engine(data, 200);
    s.set_noise(100);
    for _ in 0..50 {
        match s.get_next_data().unwrap() {
            TickValue::Analog(v) => assert!(v.abs() <= 2_000_000),
            TickValue::Quantized(_) => panic!("quantization is off"),
        }
    }
}

#[test]
fn engine_filter_configuration_guards() {
    let mut s = Signal::new();
    assert_eq!(s.set_lp_filter(200, 100, 0), Err(SignalError::FilterConfigError));
    assert_eq!(s.set_hp_filter(200, 100, 0), Err(SignalError::FilterConfigError));
    assert_eq!(s.set_lp_filter(200, 99, 1_000_000), Ok(()));
    assert_eq!(s.set_hp_filter(200, 10, 158_384), Ok(()));
}

#[test]
fn filtered_playback_tracks_slow_signal() {
    // A gentle lowpass over a slowly repeating ramp keeps values in range
    // and eventually follows the signal's band.
    let data = b"v\n1\n2\n3\n4\n5\n";
    let mut s = quiet_engine(data, 200);
    // tan(pi * 5 / 200) is about 0.078702 => 78_702 in fixed point.
    s.set_lp_filter(200, 5, 78_702).unwrap();
    for _ in 0..200 {
        match s.get_next_data().unwrap() {
            TickValue::Analog(v) => assert!(v.abs() <= 3_000_000),
            TickValue::Quantized(_) => panic!("quantization is off"),
        }
    }
}
