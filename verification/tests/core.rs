use adc_oversampling_enob::adc::max_code_for;
use adc_oversampling_enob::config::NoiseKind;
use adc_oversampling_enob::experiment::{code_range, CodeRange};
use adc_oversampling_enob::histogram::count_bins;
use adc_oversampling_enob::oversample::block_count;
use adc_oversampling_enob::report::{histogram_osrs, noise_name};
use adc_oversampling_enob::signal::{ramp_point, RampPoint};
use adc_oversampling_enob::svg::escape;

#[test]
fn escaped_and_finite() {
    assert_eq!(escape("<a&\"'>"), "&lt;a&amp;&quot;&apos;&gt;");
    assert_eq!(escape("plain text"), "plain text");
    assert_eq!(escape(""), "");
    assert_eq!(escape("&amp;"), "&amp;amp;");
    let e = escape("OSR <16> \"x\" 'y' µV");
    assert!(!e.contains('<') && !e.contains('>') && !e.contains('"') && !e.contains('\''));
    assert!(e.ends_with("µV"));
    assert_eq!(escape("a & b"), "a &amp; b");
    assert_eq!(escape("no markup here"), "no markup here");
}

#[test]
fn noise_names() {
    assert_eq!(noise_name(NoiseKind::Off), "none");
    assert_eq!(noise_name(NoiseKind::Uniform), "uniform");
    assert_eq!(noise_name(NoiseKind::Gaussian), "gaussian");
}

#[test]
fn block_counts() {
    assert_eq!(block_count(4, 4, 4), Some(1));
    assert_eq!(block_count(4, 4, 1), Some(4));
    assert_eq!(block_count(4, 4, 0), None);
    assert_eq!(block_count(4, 4, 3), None);
    assert_eq!(block_count(4, 2, 2), None);
    assert_eq!(block_count(256, 256, 256), Some(1));
    assert_eq!(block_count(0, 0, 8), Some(0));
}

#[test]
fn ramp_positions() {
    assert_eq!(ramp_point(0, 3), RampPoint::Start);
    assert_eq!(ramp_point(2, 3), RampPoint::End);
    assert_eq!(ramp_point(1, 3), RampPoint::Between { index: 1, last: 2 });
    assert_eq!(ramp_point(0, 1), RampPoint::Start);
    assert_eq!(ramp_point(5, 0), RampPoint::Start);
    assert_eq!(ramp_point(255, 256), RampPoint::End);
}

#[test]
fn max_codes() {
    for bits in [2u8, 10, 12, 24] {
        assert_eq!(max_code_for(bits), Some((1u32 << bits) - 1));
    }
    assert_eq!(max_code_for(12), Some(4095));
    assert_eq!(max_code_for(1), None);
    assert_eq!(max_code_for(25), None);
    assert_eq!(max_code_for(0), None);
}

#[test]
fn code_ranges() {
    assert_eq!(code_range(vec![7; 100]), CodeRange { min: 7, max: 7, unique: 1 });
    assert_eq!(code_range(vec![5, 3, 9, 3, 5, 4]), CodeRange { min: 3, max: 9, unique: 4 });
    assert_eq!(code_range(vec![0]), CodeRange { min: 0, max: 0, unique: 1 });
    let ramp: Vec<u32> = (0..4096).rev().collect();
    assert_eq!(code_range(ramp), CodeRange { min: 0, max: 4095, unique: 4096 });
}

#[test]
fn counts_into_bins() {
    // Positions of the values 0, 1, 2, 3, 4 in four unit-wide bins from 0 to 4.
    let counts = count_bins(&vec![0, 1, 2, 3, 4], 4);
    assert_eq!(counts, [1, 1, 1, 2]);
    let counts = count_bins(&vec![39; 10], 80);
    assert_eq!(counts.iter().sum::<usize>(), 10);
    assert_eq!(counts[39], 10);
    let counts = count_bins(&vec![usize::MAX, 0, 1], 2);
    assert_eq!(counts, [1, 2]);
    assert_eq!(count_bins(&vec![], 3), [0, 0, 0]);
}

#[test]
fn charted_histograms() {
    assert_eq!(histogram_osrs(&vec![1, 4, 16, 64, 256]), [1, 16, 256]);
    assert_eq!(histogram_osrs(&vec![1, 4]), [1]);
    assert_eq!(histogram_osrs(&vec![256, 1]), [1, 256]);
    assert!(histogram_osrs(&vec![2, 8]).is_empty());
}
