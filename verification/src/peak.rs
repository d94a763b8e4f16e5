//! Dominant-bin search over a magnitude spectrum.
//!
//! A frame's spectrum is handed in as fixed-point bin magnitudes for the
//! lower half of the transform, bin 0 (DC) first. The search covers bins
//! `1 ..= len - 1` — DC is never a candidate pitch — and keeps the lowest
//! bin on ties. When every candidate magnitude is zero the result stays at
//! the sentinel `(0, 0)`, which the downstream frequency filter rejects.

use vstd::prelude::*;

verus! {

/// The returned pair is the peak of the candidate bins `1 ..= mags.len() - 1`:
/// no candidate magnitude exceeds `mag`, and `bin` is the lowest bin that
/// attains it; `(0, 0)` reports that every candidate magnitude is zero.
pub open spec fn is_peak(mags: Seq<u64>, bin: int, mag: int) -> bool {
    &&& forall|i: int| 1 <= i < mags.len() ==> mags[i] <= mag
    &&& (bin == 0 ==> mag == 0)
    &&& (bin != 0 ==> {
        &&& 1 <= bin < mags.len()
        &&& mags[bin] == mag
        &&& mag > 0
        &&& forall|i: int| 1 <= i < bin ==> mags[i] < mag
    })
}

/// Lowest bin of largest magnitude among bins `1 ..= mags.len() - 1`,
/// together with that magnitude.
pub fn find_peak(mags: &Vec<u64>) -> (r: (usize, u64))
    ensures
        is_peak(mags@, r.0 as int, r.1 as int),
{
    let n = mags.len();
    if n == 0 {
        return (0, 0);
    }
    let mut max_bin: usize = 0;
    let mut max_mag: u64 = 0;
    for i in 1..n
        invariant
            n == mags@.len(),
            forall|k: int| 1 <= k < i ==> mags@[k] <= max_mag,
            max_bin == 0 ==> max_mag == 0,
            max_bin != 0 ==> {
                &&& 1 <= max_bin < n
                &&& mags@[max_bin as int] == max_mag
                &&& max_mag > 0
                &&& forall|k: int| 1 <= k < max_bin ==> mags@[k] < max_mag
            },
    {
        if mags[i] > max_mag {
            max_mag = mags[i];
            max_bin = i;
        }
    }
    (max_bin, max_mag)
}

/// Peak of the candidate bins below `n`, folded left to right: the pair
/// starts at the sentinel `(0, 0)` and moves to a bin only when its
/// magnitude strictly exceeds the running maximum.
pub open spec fn peak_upto(mags: Seq<u64>, n: int) -> (int, int)
    decreases n,
{
    if n <= 1 {
        (0, 0)
    } else {
        let prev = peak_upto(mags, n - 1);
        if mags[n - 1] > prev.1 {
            (n - 1, mags[n - 1] as int)
        } else {
            prev
        }
    }
}

/// Peak of the whole candidate range of a spectrum.
pub open spec fn peak_of(mags: Seq<u64>) -> (int, int) {
    peak_upto(mags, mags.len() as int)
}

/// The folded peak over the first `n` bins satisfies the peak
/// characterization restricted to those bins.
pub proof fn lemma_peak_upto_sound(mags: Seq<u64>, n: int)
    requires
        0 <= n <= mags.len(),
    ensures
        ({
            let pk = peak_upto(mags, n);
            &&& forall|i: int| 1 <= i < n ==> mags[i] <= pk.1
            &&& (pk.0 == 0 ==> pk.1 == 0)
            &&& (pk.0 != 0 ==> {
                &&& 1 <= pk.0 < n
                &&& mags[pk.0] == pk.1
                &&& pk.1 > 0
                &&& forall|i: int| 1 <= i < pk.0 ==> mags[i] < pk.1
            })
        }),
    decreases n,
{
    if n > 1 {
        lemma_peak_upto_sound(mags, n - 1);
    }
}

/// The folded peak is the peak: `peak_of` meets `is_peak`, so by
/// uniqueness it is the one pair `find_peak` returns.
pub proof fn lemma_peak_of_is_peak(mags: Seq<u64>)
    ensures
        is_peak(mags, peak_of(mags).0, peak_of(mags).1),
{
    lemma_peak_upto_sound(mags, mags.len() as int);
}

/// The peak of a spectrum is unique: any two pairs that both satisfy
/// `is_peak` for the same magnitudes are the same pair.
pub proof fn lemma_peak_unique(mags: Seq<u64>, b1: int, m1: int, b2: int, m2: int)
    requires
        is_peak(mags, b1, m1),
        is_peak(mags, b2, m2),
    ensures
        b1 == b2,
        m1 == m2,
{
    if b1 != 0 && b2 != 0 {
        assert(mags[b1] <= m2);
        assert(mags[b2] <= m1);
        if b1 < b2 {
            assert(mags[b1] < m2);
        }
        if b2 < b1 {
            assert(mags[b2] < m1);
        }
    } else if b1 == 0 && b2 != 0 {
        assert(mags[b2] <= m1);
    } else if b2 == 0 && b1 != 0 {
        assert(mags[b1] <= m2);
    }
}

} // verus!
