//! Frame iteration and per-frame accept/reject decisions.
//!
//! A scan slides fixed-length analysis frames across a sample buffer at a
//! fixed hop, one magnitude spectrum is produced per frame by the caller's
//! frequency transform, and each spectrum's peak either is rejected — too
//! low a frequency, or too weak to stand out of the noise — or lands as one
//! occurrence of its quantized pitch in a histogram.

use vstd::prelude::*;
use crate::histogram::Histogram;
use crate::peak::{find_peak, lemma_peak_of_is_peak, lemma_peak_unique, peak_of};
use crate::pitch::{freq_to_midi_note, pitch_of_freq};

verus! {

/// Fixed-point scale of spectrum magnitudes: `MAG_SCALE` stands for a
/// magnitude of 1.
pub const MAG_SCALE: u64 = 1000000;

/// A decoded mono signal: raw integer samples and their rate in Hz.
pub struct SampleBuffer {
    /// Amplitudes as signed 16-bit raw values.
    pub samples: Vec<i16>,
    /// Samples per second; always positive.
    pub sample_rate: u32,
}

impl SampleBuffer {
    /// Signal duration in milliseconds, rounded down.
    pub fn duration_millis(&self) -> (r: u64)
        requires
            self.sample_rate >= 1,
            self.samples@.len() * 1000 <= u64::MAX,
        ensures
            r == (self.samples@.len() * 1000) as int / (self.sample_rate as int),
    {
        (self.samples.len() as u64) * 1000 / (self.sample_rate as u64)
    }
}

/// Parameters of one scan.
pub struct ScanConfig {
    /// Samples per analysis frame.
    pub frame_len: usize,
    /// Samples between the starts of consecutive frames.
    pub hop_len: usize,
    /// Sample rate of the buffer under analysis, in Hz.
    pub sample_rate: u32,
    /// Frequencies below this floor, in millihertz, are rejected.
    pub low_freq_floor_mhz: u64,
    /// Peak magnitudes below this threshold, in `MAG_SCALE` units, are
    /// rejected as noise.
    pub noise_floor_mag: u64,
}

impl ScanConfig {
    /// Bounds every scan relies on: a frame holds at least one sample and
    /// is short enough for exact fixed-point arithmetic, the hop advances,
    /// and the rate is positive.
    pub open spec fn well_formed(self) -> bool {
        &&& 1 <= self.frame_len <= 1048576
        &&& 1 <= self.hop_len
        &&& 1 <= self.sample_rate
    }
}

impl Default for ScanConfig {
    /// The recommended configuration: 4096-sample frames, half-frame hop,
    /// CD-rate input, a 20 Hz frequency floor, and a noise floor of one
    /// hundredth of full magnitude.
    fn default() -> (c: ScanConfig)
        ensures
            c == (ScanConfig {
                frame_len: 4096,
                hop_len: 2048,
                sample_rate: 44100,
                low_freq_floor_mhz: 20000,
                noise_floor_mag: 10000,
            }),
            c.well_formed(),
    {
        ScanConfig {
            frame_len: 4096,
            hop_len: 2048,
            sample_rate: 44100,
            low_freq_floor_mhz: 20000,
            noise_floor_mag: 10000,
        }
    }
}

/// How many frames a scan of `total` samples processes: none when the
/// buffer is shorter than one frame, else one per hop until the frame no
/// longer fits.
pub open spec fn frame_count(total: int, frame_len: int, hop_len: int) -> int {
    if total < frame_len {
        0
    } else {
        (total - frame_len) / hop_len + 1
    }
}

/// Start offsets of the frames of a scan: `0, hop, 2 * hop, ...` for as
/// long as a whole frame fits; the partial tail is dropped.
pub fn frame_starts(total: usize, frame_len: usize, hop_len: usize) -> (r: Vec<usize>)
    requires
        1 <= frame_len,
        1 <= hop_len,
    ensures
        r@.len() == frame_count(total as int, frame_len as int, hop_len as int),
        forall|k: int| 0 <= k < r@.len() ==> r@[k] == k * hop_len,
        forall|k: int| 0 <= k < r@.len() ==> r@[k] + frame_len <= total,
{
    let mut starts: Vec<usize> = Vec::new();
    if total < frame_len {
        return starts;
    }
    let last = total - frame_len;
    let mut s: usize = 0;
    proof {
        assert(starts@.len() * hop_len == 0) by (nonlinear_arith)
            requires
                starts@.len() == 0,
        ;
    }
    loop
        invariant
            1 <= frame_len,
            1 <= hop_len,
            frame_len <= total,
            last == total - frame_len,
            s <= last,
            s == starts@.len() * hop_len,
            forall|k: int| 0 <= k < starts@.len() ==> starts@[k] == k * hop_len,
            forall|k: int| 0 <= k < starts@.len() ==> starts@[k] <= last,
        decreases last - s,
    {
        starts.push(s);
        if last - s >= hop_len {
            proof {
                assert((starts@.len()) * hop_len == (starts@.len() - 1) * hop_len + hop_len)
                    by (nonlinear_arith);
            }
            s = s + hop_len;
        } else {
            proof {
                let n = starts@.len() as int;
                assert((n - 1) * hop_len <= last < n * hop_len) by (nonlinear_arith)
                    requires
                        s == (n - 1) * hop_len,
                        s <= last,
                        last - s < hop_len,
                        1 <= hop_len,
                ;
                assert(last / hop_len == n - 1) by (nonlinear_arith)
                    requires
                        (n - 1) * hop_len <= last < n * hop_len,
                        1 <= hop_len,
                        0 <= last,
                ;
            }
            return starts;
        }
    }
}

/// Frequency of transform bin `bin`, in millihertz, for a frame of
/// `frame_len` samples taken at `sample_rate` Hz: bin frequencies divide
/// the rate evenly across the frame's bins.
pub open spec fn bin_freq_mhz(bin: int, sample_rate: int, frame_len: int) -> int {
    bin * sample_rate * 1000 / frame_len
}

/// Frequency of a transform bin in millihertz.
pub fn bin_to_freq_mhz(bin: usize, sample_rate: u32, frame_len: usize) -> (r: u64)
    requires
        1 <= frame_len <= 1048576,
        bin <= 1048576,
    ensures
        r == bin_freq_mhz(bin as int, sample_rate as int, frame_len as int),
{
    proof {
        assert(bin * sample_rate <= 1048576 * 4294967295int) by (nonlinear_arith)
            requires
                0 <= bin <= 1048576,
                0 <= sample_rate <= 4294967295int,
        ;
    }
    (bin as u64) * (sample_rate as u64) * 1000 / (frame_len as u64)
}

/// The pitch one frame contributes, if any: the peak's bin frequency must
/// reach the low-frequency floor, the peak's magnitude must reach the
/// noise floor, and the frequency must quantize to a pitch.
pub open spec fn classify_spec(bin: int, mag: int, cfg: ScanConfig) -> Option<u8> {
    let f = bin_freq_mhz(bin, cfg.sample_rate as int, cfg.frame_len as int);
    if f < cfg.low_freq_floor_mhz {
        None
    } else if mag < cfg.noise_floor_mag {
        None
    } else {
        pitch_of_freq(f)
    }
}

/// Accept or reject one frame's peak, and quantize it to a pitch.
pub fn classify_peak(bin: usize, mag: u64, cfg: &ScanConfig) -> (r: Option<u8>)
    requires
        cfg.well_formed(),
        bin < cfg.frame_len,
    ensures
        r == classify_spec(bin as int, mag as int, *cfg),
        r matches Some(p) ==> p < 128,
{
    let f = bin_to_freq_mhz(bin, cfg.sample_rate, cfg.frame_len);
    if f < cfg.low_freq_floor_mhz {
        return None;
    }
    if mag < cfg.noise_floor_mag {
        return None;
    }
    proof {
        assert(bin * cfg.sample_rate * 1000 <= 1048576 * 4294967295int * 1000) by (nonlinear_arith)
            requires
                0 <= bin <= 1048576,
                0 <= cfg.sample_rate <= 4294967295int,
        ;
    }
    freq_to_midi_note(f as i64)
}

/// The pitch the peak of one spectrum contributes, if any.
pub open spec fn frame_pitch(mags: Seq<u64>, cfg: ScanConfig) -> Option<u8> {
    let pk = peak_of(mags);
    classify_spec(pk.0, pk.1, cfg)
}

/// How many of the first `n` spectra contribute pitch `p`.
pub open spec fn accepted_upto(spectra: Seq<Vec<u64>>, cfg: ScanConfig, p: u8, n: int) -> int
    decreases n,
{
    if n <= 0 {
        0
    } else {
        accepted_upto(spectra, cfg, p, n - 1) + if frame_pitch(spectra[n - 1]@, cfg) == Some(p) {
            1int
        } else {
            0int
        }
    }
}

/// How many of a scan's spectra contribute pitch `p`.
pub open spec fn accepted_count(spectra: Seq<Vec<u64>>, cfg: ScanConfig, p: u8) -> int {
    accepted_upto(spectra, cfg, p, spectra.len() as int)
}

/// A prefix never contributes more often than its length.
pub proof fn lemma_accepted_upto_le(spectra: Seq<Vec<u64>>, cfg: ScanConfig, p: u8, n: int)
    requires
        0 <= n,
    ensures
        0 <= accepted_upto(spectra, cfg, p, n) <= n,
    decreases n,
{
    if n > 0 {
        lemma_accepted_upto_le(spectra, cfg, p, n - 1);
    }
}

/// Tally of the pitches of a whole scan: one magnitude spectrum per frame
/// goes in, and each pitch's count in the histogram is exactly the number
/// of frames whose peak was accepted and quantized to that pitch.
pub fn analyze_spectra(spectra: &Vec<Vec<u64>>, cfg: &ScanConfig) -> (h: Histogram)
    requires
        cfg.well_formed(),
        forall|i: int| 0 <= i < spectra@.len() ==> (#[trigger] spectra@[i])@.len()
            <= cfg.frame_len,
    ensures
        h.well_formed(),
        forall|p: u8| p < 128 ==> h.count_of(p as int) == accepted_count(spectra@, *cfg, p),
{
    let n = spectra.len();
    let mut h = Histogram::new();
    for i in 0..n
        invariant
            n == spectra@.len(),
            cfg.well_formed(),
            forall|j: int| 0 <= j < spectra@.len() ==> (#[trigger] spectra@[j])@.len()
                <= cfg.frame_len,
            h.well_formed(),
            forall|p: u8| p < 128 ==> h.count_of(p as int) == accepted_upto(
                spectra@,
                *cfg,
                p,
                i as int,
            ),
    {
        let mags = &spectra[i];
        let pk = find_peak(mags);
        proof {
            lemma_peak_of_is_peak(mags@);
            lemma_peak_unique(
                mags@,
                pk.0 as int,
                pk.1 as int,
                peak_of(mags@).0,
                peak_of(mags@).1,
            );
        }
        let res = classify_peak(pk.0, pk.1, cfg);
        proof {
            assert(res == frame_pitch(spectra@[i as int]@, *cfg));
        }
        match res {
            Some(p) => {
                proof {
                    lemma_accepted_upto_le(spectra@, *cfg, p, i as int);
                }
                h.increment(p);
            },
            None => {},
        }
    }
    h
}

} // verus!
