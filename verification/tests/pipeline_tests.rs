use pitch_histogram::peak::find_peak;
use pitch_histogram::pitch::midi_note_to_name;
use pitch_histogram::scan::{analyze_spectra, bin_to_freq_mhz, frame_starts, ScanConfig, MAG_SCALE};
use pitch_histogram::window::{apply_window, make_window, WINDOW_SCALE};
use rustfft::num_complex::Complex;
use rustfft::FftPlanner;

// One magnitude spectrum per frame, the way a caller of the library feeds
// the scan: window each frame, transform it, and keep the lower half of the
// bin magnitudes in fixed point.
fn magnitude_spectra(samples: &Vec<i16>, cfg: &ScanConfig) -> Vec<Vec<u64>> {
    let starts = frame_starts(samples.len(), cfg.frame_len, cfg.hop_len);
    let window = make_window(cfg.frame_len);
    let mut planner = FftPlanner::new();
    let fft = planner.plan_fft_forward(cfg.frame_len);
    let norm = i16::MAX as f32 * WINDOW_SCALE as f32;
    let mut spectra = Vec::new();
    for &start in &starts {
        let frame = apply_window(samples, start, &window);
        let mut buffer: Vec<Complex<f32>> =
            frame.iter().map(|&v| Complex::new(v as f32 / norm, 0.0)).collect();
        fft.process(&mut buffer);
        let mags: Vec<u64> = buffer[..cfg.frame_len / 2]
            .iter()
            .map(|c| (c.norm() * MAG_SCALE as f32) as u64)
            .collect();
        spectra.push(mags);
    }
    spectra
}

fn sine_samples(freq_hz: f32, sample_rate: u32, seconds: u32) -> Vec<i16> {
    let total = (sample_rate * seconds) as usize;
    (0..total)
        .map(|i| {
            let t = i as f32 / sample_rate as f32;
            let v = 0.5 * (2.0 * std::f32::consts::PI * freq_hz * t).sin();
            (v * i16::MAX as f32) as i16
        })
        .collect()
}

#[test]
fn pure_a440_peaks_within_one_bin_width() {
    let cfg = ScanConfig::default();
    let samples = sine_samples(440.0, 44100, 2);
    let spectra = magnitude_spectra(&samples, &cfg);
    assert_eq!(spectra.len(), 42); // floor((88200 - 4096) / 2048) + 1
    let bin_width_mhz = 44100 * 1000 / 4096;
    for mags in &spectra {
        let (bin, _) = find_peak(mags);
        let freq_mhz = bin_to_freq_mhz(bin, cfg.sample_rate, cfg.frame_len) as i64;
        assert!((freq_mhz - 440_000).abs() <= bin_width_mhz as i64);
    }
}

#[test]
fn pure_a440_yields_a4_in_every_frame() {
    let cfg = ScanConfig::default();
    let samples = sine_samples(440.0, 44100, 2);
    let spectra = magnitude_spectra(&samples, &cfg);
    let frames = spectra.len() as u64;
    let h = analyze_spectra(&spectra, &cfg);
    let ranked = h.rank();
    assert!(!ranked.is_empty());
    let (top_pitch, top_count) = ranked[0];
    assert_eq!(midi_note_to_name(top_pitch), "A4");
    assert_eq!(top_count, frames);
}

#[test]
fn silence_yields_an_empty_histogram() {
    let cfg = ScanConfig::default();
    let samples = vec![0i16; 88200];
    let spectra = magnitude_spectra(&samples, &cfg);
    assert_eq!(spectra.len(), 42);
    let h = analyze_spectra(&spectra, &cfg);
    assert_eq!(h.rank(), Vec::<(u8, u64)>::new());
}

#[test]
fn handcrafted_spectra_count_accepted_frames_per_pitch() {
    let cfg = ScanConfig {
        frame_len: 4096,
        hop_len: 2048,
        sample_rate: 44100,
        low_freq_floor_mhz: 20_000,
        noise_floor_mag: 10_000,
    };
    let mut a4 = vec![0u64; 2048];
    a4[41] = 500_000; // about 441 Hz, strong: accepted as A4
    let mut weak = vec![0u64; 2048];
    weak[41] = 9_999; // under the noise floor: rejected
    let mut low = vec![0u64; 2048];
    low[1] = 500_000; // about 10.8 Hz: under the frequency floor
    let spectra = vec![a4.clone(), weak, a4, low];
    let h = analyze_spectra(&spectra, &cfg);
    assert_eq!(h.rank(), vec![(69, 2)]);
}
