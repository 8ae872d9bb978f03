use crate::fft::{lemma_next_pow2, next_pow2, padded_len};
use vstd::prelude::*;

verus! {

/// Why a spectrum cannot be analysed.
#[derive(Clone, Copy, Debug, PartialEq, Eq)]
pub enum AnalysisError {
    /// An empty sequence to transform, or a sample rate of zero: the
    /// transform length or the bin width is undefined.
    InvalidInput,
}

/// The ordering that peak selection needs from a magnitude type.
pub trait Magnitude: Sized + Copy {
    /// `a` is strictly greater than `b`. The default body lets a type
    /// implement the trait in ordinary Rust, outside the verifier; it is one
    /// unspecified value, so such an impl is not held to `exceeds`'s
    /// contract, and nothing proved here rests on it.
    open spec fn greater(a: Self, b: Self) -> bool {
        arbitrary()
    }

    fn exceeds(&self, other: &Self) -> (r: bool)
        ensures
            r == Self::greater(*self, *other),
    ;
}

impl Magnitude for u64 {
    open spec fn greater(a: Self, b: Self) -> bool {
        a > b
    }

    fn exceeds(&self, other: &Self) -> (r: bool) {
        *self > *other
    }
}

/// Bin `k` of the magnitude spectrum `m` is a peak: it lies strictly inside
/// the first half of the spectrum (so it has a neighbour on each side there),
/// exceeds `threshold`, and is strictly greater than both neighbours.
pub open spec fn is_peak<M: Magnitude>(m: Seq<M>, k: int, threshold: M) -> bool {
    &&& 1 <= k
    &&& k + 1 < m.len() / 2
    &&& M::greater(m[k], threshold)
    &&& M::greater(m[k], m[k - 1])
    &&& M::greater(m[k], m[k + 1])
}

/// The peak bins of the magnitude spectrum `mags`, in increasing order.
///
/// Only the first half of the spectrum is examined, as for the transform of
/// real samples; its first and last bins are never peaks.
pub fn spectral_peaks<M: Magnitude>(mags: &Vec<M>, threshold: M) -> (r: Vec<usize>)
    ensures
        forall|i: int| 0 <= i < r@.len() ==> is_peak(mags@, r@[i] as int, threshold),
        forall|i: int, j: int| 0 <= i < j < r@.len() ==> r@[i] < r@[j],
        forall|k: int| is_peak(mags@, k, threshold) ==> r@.contains(k as usize),
{
    let half = mags.len() / 2;
    let mut r: Vec<usize> = Vec::new();
    if half < 3 {
        return r;
    }
    let mut k: usize = 1;
    while k + 1 < half
        invariant
            half == mags@.len() / 2,
            1 <= k < half,
            forall|i: int| 0 <= i < r@.len() ==> is_peak(mags@, r@[i] as int, threshold),
            forall|i: int| 0 <= i < r@.len() ==> r@[i] < k,
            forall|i: int, j: int| 0 <= i < j < r@.len() ==> r@[i] < r@[j],
            forall|j: int| 1 <= j < k && is_peak(mags@, j, threshold) ==> r@.contains(j as usize),
        decreases half - k,
    {
        let curr = mags[k];
        let ghost prev = r@;
        if curr.exceeds(&threshold) && curr.exceeds(&mags[k - 1]) && curr.exceeds(&mags[k + 1]) {
            r.push(k);
            assert(r@[r@.len() - 1] == k);
        }
        assert forall|j: int| 1 <= j < k + 1 && is_peak(mags@, j, threshold) implies r@.contains(
            j as usize,
        ) by {
            if j < k {
                let w = choose|w: int| 0 <= w < prev.len() && prev[w] == j as usize;
                assert(r@[w] == prev[w]);
            } else {
                assert(r@[r@.len() - 1] == k);
            }
        }
        k = k + 1;
    }
    r
}

/// Checks the inputs of a peak analysis and gives the padded transform
/// length that sets the bin width (`sample_rate / n`) and the bins examined.
pub fn check_input(n_samples: usize, sample_rate: u32) -> (r: Result<usize, AnalysisError>)
    requires
        n_samples <= usize::MAX / 2,
    ensures
        r is Ok <==> n_samples > 0 && sample_rate > 0,
        r matches Ok(n) ==> n == next_pow2(n_samples as nat) && n >= n_samples,
{
    if n_samples == 0 || sample_rate == 0 {
        Err(AnalysisError::InvalidInput)
    } else {
        proof {
            lemma_next_pow2(n_samples as nat);
        }
        Ok(padded_len(n_samples))
    }
}

} // verus!
