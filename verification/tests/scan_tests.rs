use pitch_histogram::histogram::Histogram;
use pitch_histogram::peak::find_peak;
use pitch_histogram::scan::{
    bin_to_freq_mhz, classify_peak, frame_starts, SampleBuffer, ScanConfig,
};
use pitch_histogram::window::{apply_window, make_window, weight, WINDOW_SCALE};

#[test]
fn window_weight_is_zero_at_edges_and_peaks_in_middle() {
    let n = 4096;
    assert_eq!(weight(0, n), 0);
    assert_eq!(weight(n, n), 0);
    assert_eq!(weight(n / 2, n), WINDOW_SCALE);
    for i in 0..=n {
        let w = weight(i, n);
        assert!(w <= WINDOW_SCALE);
        assert_eq!(w, weight(n - i, n));
    }
}

#[test]
fn make_window_matches_pointwise_weights() {
    let n = 64;
    let w = make_window(n);
    assert_eq!(w.len(), n);
    for i in 0..n {
        assert_eq!(w[i], weight(i, n));
    }
}

#[test]
fn apply_window_scales_each_sample() {
    let samples: Vec<i16> = vec![100, -200, 300, -400, 500, 600];
    let window = make_window(4);
    let frame = apply_window(&samples, 1, &window);
    assert_eq!(frame.len(), 4);
    for j in 0..4 {
        assert_eq!(frame[j], samples[1 + j] as i64 * window[j] as i64);
    }
    assert_eq!(frame[0], 0);
}

#[test]
fn find_peak_picks_largest_magnitude_ignoring_dc() {
    let mags: Vec<u64> = vec![900, 5, 40, 12, 40, 7];
    // Bin 0 is DC and never a candidate; first of the tied bins 2 and 4 wins.
    assert_eq!(find_peak(&mags), (2, 40));
}

#[test]
fn find_peak_of_silence_is_the_sentinel() {
    let mags: Vec<u64> = vec![0, 0, 0, 0];
    assert_eq!(find_peak(&mags), (0, 0));
    let empty: Vec<u64> = Vec::new();
    assert_eq!(find_peak(&empty), (0, 0));
}

#[test]
fn frame_starts_counts_frames_exactly() {
    // floor((10 - 4) / 2) + 1 = 4 frames.
    assert_eq!(frame_starts(10, 4, 2), vec![0, 2, 4, 6]);
    // A buffer shorter than one frame has no frames.
    assert_eq!(frame_starts(3, 4, 2), Vec::<usize>::new());
    assert_eq!(frame_starts(0, 4, 2), Vec::<usize>::new());
    // An exact fit is one frame.
    assert_eq!(frame_starts(4, 4, 2), vec![0]);
    // floor((11 - 4) / 3) + 1 = 3 frames.
    assert_eq!(frame_starts(11, 4, 3), vec![0, 3, 6]);
}

#[test]
fn bin_frequency_divides_rate_across_frame() {
    // Bin width at 44100 Hz / 4096 samples is 10766 millihertz.
    assert_eq!(bin_to_freq_mhz(1, 44100, 4096), 10766);
    assert_eq!(bin_to_freq_mhz(41, 44100, 4096), 441430);
    assert_eq!(bin_to_freq_mhz(0, 44100, 4096), 0);
}

#[test]
fn classify_rejects_low_frequency_and_noise() {
    let cfg = ScanConfig::default();
    // Bin 1 of a 4096 frame at 44100 Hz is about 10.8 Hz: below 20 Hz.
    assert_eq!(classify_peak(1, 1_000_000, &cfg), None);
    // Bin 41 is about 441.4 Hz, but the magnitude is under the noise floor.
    assert_eq!(classify_peak(41, 9_999, &cfg), None);
    // The same bin with enough magnitude lands on A4.
    assert_eq!(classify_peak(41, 10_000, &cfg), Some(69));
}

#[test]
fn histogram_counts_and_ranks_by_count_descending() {
    let mut h = Histogram::new();
    for _ in 0..3 {
        h.increment(69);
    }
    for _ in 0..5 {
        h.increment(60);
    }
    h.increment(72);
    let ranked = h.rank();
    assert_eq!(ranked, vec![(60, 5), (69, 3), (72, 1)]);
}

#[test]
fn histogram_rank_is_deterministic_for_equal_counts() {
    let mut h = Histogram::new();
    h.increment(72);
    h.increment(60);
    h.increment(60);
    h.increment(72);
    let first = h.rank();
    let second = h.rank();
    assert_eq!(first, second);
    assert_eq!(first.len(), 2);
    assert_eq!(first[0].1, 2);
    assert_eq!(first[1].1, 2);
}

#[test]
fn empty_histogram_ranks_empty() {
    let h = Histogram::new();
    assert_eq!(h.rank(), Vec::<(u8, u64)>::new());
}

#[test]
fn top_k_truncates_the_ranking() {
    let mut h = Histogram::new();
    for p in 0..20u8 {
        for _ in 0..(p + 1) {
            h.increment(p);
        }
    }
    let top = h.top_k(10);
    assert_eq!(top.len(), 10);
    assert_eq!(top[0], (19, 20));
    assert_eq!(top[9], (10, 11));
    let all = h.top_k(100);
    assert_eq!(all.len(), 20);
}

#[test]
fn duration_reports_milliseconds() {
    let buf = SampleBuffer { samples: vec![0i16; 88200], sample_rate: 44100 };
    assert_eq!(buf.duration_millis(), 2000);
    let buf = SampleBuffer { samples: vec![0i16; 22050], sample_rate: 44100 };
    assert_eq!(buf.duration_millis(), 500);
}
