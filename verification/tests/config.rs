use adc_oversampling_enob::config::{
    normalized_osr, power_of_two, NoiseKind, Settings, SettingsError, SignalShape,
};

#[test]
fn validation() {
    let mut c = Settings::defaults();
    c.oversampling = vec![16, 4, 16];
    assert_eq!(c.validated(true, true, true).unwrap().oversampling, [1, 4, 16]);
    c.bits = 1;
    assert_eq!(c.validated(true, true, true).unwrap_err(), SettingsError::Bits(1));
    c.bits = 12;
    assert_eq!(c.validated(false, true, true).unwrap_err(), SettingsError::VRef);
    c.sample_count = 3;
    assert_eq!(c.validated(true, true, true).unwrap_err(), SettingsError::Osr(16));
}

#[test]
fn checks_come_in_order() {
    let mut c = Settings::defaults();
    c.bits = 25;
    c.sample_count = 0;
    c.histogram_bins = 1;
    c.oversampling.clear();
    assert_eq!(c.validated(false, false, false).unwrap_err(), SettingsError::Bits(25));
    c.bits = 24;
    assert_eq!(c.validated(false, false, false).unwrap_err(), SettingsError::VRef);
    assert_eq!(c.validated(true, false, false).unwrap_err(), SettingsError::Samples(0));
    c.sample_count = 256;
    assert_eq!(c.validated(true, false, false).unwrap_err(), SettingsError::NoiseLsb);
    assert_eq!(c.validated(true, true, false).unwrap_err(), SettingsError::Signal);
    assert_eq!(c.validated(true, true, true).unwrap_err(), SettingsError::HistogramBins(1));
    c.histogram_bins = 2;
    assert_eq!(c.validated(true, true, true).unwrap_err(), SettingsError::OsrEmpty);
    c.oversampling = vec![512];
    assert_eq!(c.validated(true, true, true).unwrap_err(), SettingsError::Osr(512));
    c.oversampling = vec![4, 0, 3];
    assert_eq!(c.validated(true, true, true).unwrap_err(), SettingsError::Osr(0));
    c.oversampling = vec![1];
    let ok = c.validated(true, true, true).unwrap();
    assert_eq!(ok.oversampling, [1]);
    assert_eq!(ok.bits, 24);
    assert_eq!(ok.sample_count, 256);
}

#[test]
fn validation_keeps_other_settings_and_is_idempotent() {
    let mut c = Settings::defaults();
    c.sample_count = 1024;
    c.oversampling = vec![256, 2, 1024, 2, 64];
    c.noise = NoiseKind::Uniform;
    c.signal = SignalShape::Ramp;
    let once = c.validated(true, true, true).unwrap();
    assert_eq!(once.oversampling, [1, 2, 64, 256, 1024]);
    assert_eq!(once.noise, NoiseKind::Uniform);
    assert_eq!(once.signal, SignalShape::Ramp);
    assert_eq!(once.output_dir, "results");
    let twice = once.validated(true, true, true).unwrap();
    assert_eq!(twice.oversampling, once.oversampling);
}

#[test]
fn normalization_sorts_dedups_and_adds_one() {
    assert_eq!(normalized_osr(&vec![]), [1]);
    assert_eq!(normalized_osr(&vec![8, 8, 8]), [1, 8]);
    assert_eq!(normalized_osr(&vec![64, 1, 4, 1, 16]), [1, 4, 16, 64]);
}

#[test]
fn powers_of_two() {
    let expected: Vec<usize> = (0..usize::BITS).map(|k| 1usize << k).collect();
    for n in 0..5000usize {
        assert_eq!(power_of_two(n), expected.contains(&n), "{n}");
    }
    assert!(power_of_two(1usize << (usize::BITS - 1)));
    assert!(!power_of_two(usize::MAX));
}

#[test]
fn rejection_messages() {
    let cases = [
        (SettingsError::Bits(25), "--bits must be in 2..=24, got 25"),
        (SettingsError::Bits(0), "--bits must be in 2..=24, got 0"),
        (SettingsError::VRef, "--vref must be finite and positive, got NaN"),
        (SettingsError::Samples(0), "--samples must be positive, got 0"),
        (SettingsError::NoiseLsb, "--noise-lsb must be finite and non-negative, got -1"),
        (SettingsError::Signal, "signal voltages and ramp span must be finite"),
        (SettingsError::HistogramBins(1), "--histogram-bins must be at least 2, got 1"),
        (SettingsError::OsrEmpty, "--osr must not be empty"),
        (SettingsError::Osr(512), "--osr 512 must be a power of two dividing --samples"),
        (
            SettingsError::Osr(usize::MAX),
            "--osr 18446744073709551615 must be a power of two dividing --samples",
        ),
        (SettingsError::Samples(1_048_576), "--samples must be positive, got 1048576"),
    ];
    for (e, message) in cases {
        if usize::BITS < 64 && e == SettingsError::Osr(usize::MAX) {
            continue;
        }
        assert_eq!(e.message("NaN", "-1"), message);
    }
}
