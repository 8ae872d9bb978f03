use crate::analysis::AnalysisError;
use crate::scalar::{is_pow2, FftScalar};
use vstd::prelude::*;

verus! {

/// The power of two reached by doubling `p` until it is at least `n`.
pub open spec fn pow2_from(p: nat, n: nat) -> nat
    decreases 2 * n - p,
{
    if p == 0 || p >= n {
        p
    } else {
        pow2_from(2 * p, n)
    }
}

/// The smallest power of two that is at least `n`.
pub open spec fn next_pow2(n: nat) -> nat {
    pow2_from(1, n)
}

/// `s` extended with zeros up to the next power of two.
pub open spec fn padded<T: FftScalar>(s: Seq<T>) -> Seq<T> {
    s + Seq::new((next_pow2(s.len()) - s.len()) as nat, |i: int| T::zero_spec())
}

/// The elements at even positions, in order.
pub open spec fn evens<T>(s: Seq<T>) -> Seq<T> {
    Seq::new(((s.len() + 1) / 2) as nat, |i: int| s[2 * i])
}

/// The elements at odd positions, in order.
pub open spec fn odds<T>(s: Seq<T>) -> Seq<T> {
    Seq::new((s.len() / 2) as nat, |i: int| s[2 * i + 1])
}

/// One butterfly stage: merges the transforms `e` of the even-indexed and `o`
/// of the odd-indexed samples into the transform of length `2 * e.len()`.
pub open spec fn combine<T: FftScalar>(e: Seq<T>, o: Seq<T>, inverse: bool) -> Seq<T> {
    let h = e.len();
    Seq::new(
        2 * h,
        |i: int|
            if i < h {
                T::plus_spec(e[i], T::times_spec(T::twiddle_spec(i as nat, 2 * h, inverse), o[i]))
            } else {
                T::minus_spec(
                    e[i - h],
                    T::times_spec(T::twiddle_spec((i - h) as nat, 2 * h, inverse), o[i - h]),
                )
            },
    )
}

/// The decimation-in-time transform of `s` (unscaled; `inverse` flips the
/// sign of the twiddle angle). A length-1 sequence is its own transform.
pub open spec fn fft_spec<T: FftScalar>(s: Seq<T>, inverse: bool) -> Seq<T>
    decreases s.len(),
{
    if s.len() <= 1 {
        s
    } else {
        combine(fft_spec(evens(s), inverse), fft_spec(odds(s), inverse), inverse)
    }
}

/// The inverse transform: the unscaled inverse pass, each value divided by
/// the length.
pub open spec fn ifft_spec<T: FftScalar>(s: Seq<T>) -> Seq<T> {
    let r = fft_spec(s, true);
    Seq::new(r.len(), |i: int| T::shrink_spec(r[i], s.len()))
}

proof fn lemma_pow2_from(p: nat, n: nat)
    requires
        is_pow2(p),
        p <= 2 * n,
    ensures
        is_pow2(pow2_from(p, n)),
        pow2_from(p, n) >= n,
        pow2_from(p, n) < 2 * n || pow2_from(p, n) == p,
    decreases 2 * n - p,
{
    if p < n {
        assert(is_pow2(2 * p)) by {
            assert((2 * p) / 2 == p);
        }
        lemma_pow2_from(2 * p, n);
    }
}

proof fn lemma_pow2_gap(p: nat, n: nat)
    requires
        is_pow2(p),
        is_pow2(n),
        p < n,
    ensures
        2 * p <= n,
    decreases n,
{
    if p > 1 {
        lemma_pow2_gap((p / 2) as nat, (n / 2) as nat);
    }
}

proof fn lemma_pow2_from_exact(p: nat, n: nat)
    requires
        is_pow2(p),
        is_pow2(n),
        p <= n,
    ensures
        pow2_from(p, n) == n,
    decreases 2 * n - p,
{
    if p < n {
        lemma_pow2_gap(p, n);
        assert(is_pow2(2 * p)) by {
            assert((2 * p) / 2 == p);
        }
        lemma_pow2_from_exact(2 * p, n);
    }
}

/// The padded length is the smallest power of two that is at least `n`, and
/// is `n` itself when `n` is already a power of two.
pub proof fn lemma_next_pow2(n: nat)
    requires
        n >= 1,
    ensures
        is_pow2(next_pow2(n)),
        n <= next_pow2(n) < 2 * n,
        is_pow2(n) ==> next_pow2(n) == n,
{
    lemma_pow2_from(1, n);
    if is_pow2(n) {
        lemma_pow2_from_exact(1, n);
    }
}

/// The smallest power of two that is at least `len`.
pub fn padded_len(len: usize) -> (r: usize)
    requires
        1 <= len <= usize::MAX / 2,
    ensures
        r == next_pow2(len as nat),
{
    let mut target: usize = 1;
    proof {
        lemma_next_pow2(len as nat);
    }
    while target < len
        invariant
            1 <= target <= 2 * len,
            len <= usize::MAX / 2,
            is_pow2(target as nat),
            pow2_from(target as nat, len as nat) == next_pow2(len as nat),
        decreases 2 * len - target,
    {
        assert(is_pow2(2 * target as nat)) by {
            assert((2 * target as nat) / 2 == target as nat);
        }
        target = target * 2;
    }
    target
}

/// Pads `v` with zeros at the end up to the smallest power of two that is at
/// least its length; a power-of-two length is left as it is.
pub fn pad_if_necessary<T: FftScalar>(v: Vec<T>) -> (r: Vec<T>)
    requires
        v@.len() >= 1,
        v@.len() <= usize::MAX / 2,
    ensures
        r@ == padded(v@),
        is_pow2(r@.len()),
        v@.len() <= r@.len() < 2 * v@.len(),
        is_pow2(v@.len()) ==> r@ == v@,
{
    let len = v.len();
    let target = padded_len(len);
    let mut r = v;
    let ghost orig = r@;
    let zero = T::zero();
    proof {
        lemma_next_pow2(len as nat);
    }
    while r.len() < target
        invariant
            target == next_pow2(len as nat),
            len == orig.len(),
            len <= r@.len() <= target,
            r@.subrange(0, len as int) == orig,
            forall|i: int| len <= i < r@.len() ==> r@[i] == T::zero_spec(),
            zero == T::zero_spec(),
        decreases target - r.len(),
    {
        r.push(zero);
    }
    assert(r@ =~= padded(orig));
    r
}


/// A buffer of transform coefficients.
#[derive(Debug, PartialEq)]
pub struct FFTVec<T> {
    pub data: Vec<T>,
}

impl<T: FftScalar> FFTVec<T> {
    /// A buffer holding `v` padded with zeros to the next power of two.
    pub fn normalize(v: Vec<T>) -> (r: FFTVec<T>)
        requires
            v@.len() >= 1,
            v@.len() <= usize::MAX / 2,
        ensures
            r.data@ == padded(v@),
            is_pow2(r.data@.len()),
            v@.len() <= r.data@.len() < 2 * v@.len(),
            is_pow2(v@.len()) ==> r.data@ == v@,
    {
        FFTVec { data: pad_if_necessary(v) }
    }

    /// Consumes the buffer and returns its even-indexed and its odd-indexed
    /// elements, each in their original order.
    pub fn split(self) -> (r: (FFTVec<T>, FFTVec<T>))
        ensures
            r.0.data@ == evens(self.data@),
            r.1.data@ == odds(self.data@),
    {
        let mut even: Vec<T> = Vec::new();
        let mut odd: Vec<T> = Vec::new();
        let n = self.data.len();
        let mut i: usize = 0;
        while i < n
            invariant
                n == self.data@.len(),
                i <= n,
                even@ =~= evens(self.data@.subrange(0, i as int)),
                odd@ =~= odds(self.data@.subrange(0, i as int)),
            decreases n - i,
        {
            let x = self.data[i];
            if i % 2 == 0 {
                even.push(x);
            } else {
                odd.push(x);
            }
            i = i + 1;
            assert(even@ =~= evens(self.data@.subrange(0, i as int)));
            assert(odd@ =~= odds(self.data@.subrange(0, i as int)));
        }
        assert(self.data@.subrange(0, n as int) =~= self.data@);
        (FFTVec { data: even }, FFTVec { data: odd })
    }
}

proof fn lemma_halves_pow2<T>(s: Seq<T>)
    requires
        is_pow2(s.len()),
        s.len() >= 2,
    ensures
        evens(s).len() == s.len() / 2,
        odds(s).len() == s.len() / 2,
        is_pow2(s.len() / 2),
{
}

/// A transform of a power-of-two length has that length.
pub proof fn lemma_fft_len<T: FftScalar>(s: Seq<T>, inverse: bool)
    requires
        is_pow2(s.len()),
    ensures
        fft_spec(s, inverse).len() == s.len(),
    decreases s.len(),
{
    if s.len() > 1 {
        lemma_halves_pow2(s);
        lemma_fft_len(evens(s), inverse);
        lemma_fft_len(odds(s), inverse);
    }
}

/// The recursive Cooley–Tukey transform of a power-of-two buffer; `inverse`
/// flips the sign of the twiddle angle and leaves the result unscaled.
pub fn fft_general<T: FftScalar>(vec: FFTVec<T>, inverse: bool) -> (r: FFTVec<T>)
    requires
        is_pow2(vec.data@.len()),
    ensures
        r.data@ == fft_spec(vec.data@, inverse),
    decreases vec.data@.len(),
{
    let n = vec.data.len();
    if n == 1 {
        vec
    } else {
        let ghost s = vec.data@;
        proof {
            lemma_halves_pow2(s);
            lemma_fft_len(evens(s), inverse);
            lemma_fft_len(odds(s), inverse);
        }
        let (even, odd) = vec.split();
        let even_fft = fft_general(even, inverse);
        let mut odd_fft = fft_general(odd, inverse);
        let ghost e = even_fft.data@;
        let ghost o = odd_fft.data@;
        let mut result = even_fft.data;
        result.append(&mut odd_fft.data);
        assert(result@ =~= e + o);
        let h = n / 2;
        let mut k: usize = 0;
        while k < h
            invariant
                h == e.len(),
                h == o.len(),
                n == 2 * h,
                result@.len() == n,
                forall|i: int|
                    (0 <= i < k || h <= i < h + k) ==> result@[i] == combine(e, o, inverse)[i],
                forall|i: int| k <= i < h ==> result@[i] == e[i],
                forall|i: int| h + k <= i < n ==> result@[i] == o[i - h],
            decreases h - k,
        {
            let x = result[k];
            let y = result[k + h];
            let w = T::twiddle(k, n, inverse);
            let wy = w.times(y);
            result.set(k, x.plus(wy));
            result.set(k + h, x.minus(wy));
            k = k + 1;
        }
        assert(result@ =~= combine(e, o, inverse));
        FFTVec { data: result }
    }
}

/// The forward transform of `v`, zero-padded to the next power of two.
/// An empty `v` is rejected with `InvalidInput`.
pub fn fft<T: FftScalar>(v: Vec<T>) -> (r: Result<FFTVec<T>, AnalysisError>)
    requires
        v@.len() <= usize::MAX / 2,
    ensures
        r is Err <==> v@.len() == 0,
        r matches Err(e) ==> e == AnalysisError::InvalidInput,
        r matches Ok(b) ==> b.data@ == fft_spec(padded(v@), false) && b.data@.len() == next_pow2(
            v@.len(),
        ),
{
    if v.len() == 0 {
        return Err(AnalysisError::InvalidInput);
    }
    let buf = FFTVec::normalize(v);
    proof {
        lemma_next_pow2(v@.len());
        lemma_fft_len(buf.data@, false);
    }
    Ok(fft_general(buf, false))
}

/// The inverse transform of `v`, zero-padded to the next power of two: the
/// transform with the twiddle angle negated, each value divided by the
/// padded length. An empty `v` is rejected with `InvalidInput`.
pub fn ifft<T: FftScalar>(v: Vec<T>) -> (r: Result<FFTVec<T>, AnalysisError>)
    requires
        v@.len() <= usize::MAX / 2,
    ensures
        r is Err <==> v@.len() == 0,
        r matches Err(e) ==> e == AnalysisError::InvalidInput,
        r matches Ok(b) ==> b.data@ == ifft_spec(padded(v@)) && b.data@.len() == next_pow2(
            v@.len(),
        ),
{
    if v.len() == 0 {
        return Err(AnalysisError::InvalidInput);
    }
    let buf = FFTVec::normalize(v);
    let n = buf.data.len();
    proof {
        lemma_next_pow2(v@.len());
        lemma_fft_len(buf.data@, true);
    }
    let ghost s = buf.data@;
    let mut result = fft_general(buf, true);
    let ghost t = result.data@;
    let mut i: usize = 0;
    while i < n
        invariant
            n == s.len(),
            n >= 1,
            t == fft_spec(s, true),
            t.len() == n,
            result.data@.len() == n,
            forall|j: int| 0 <= j < i ==> result.data@[j] == T::shrink_spec(t[j], n as nat),
            forall|j: int| i <= j < n ==> result.data@[j] == t[j],
        decreases n - i,
    {
        let c = result.data[i];
        result.data.set(i, c.shrink(n));
        i = i + 1;
    }
    assert(result.data@ =~= ifft_spec(s));
    Ok(result)
}

/// Transforming the same input twice gives the same output: the result
/// depends on the input values alone.
pub proof fn lemma_transform_deterministic<T: FftScalar>(a: Seq<T>, b: Seq<T>, inverse: bool)
    requires
        a == b,
    ensures
        fft_spec(padded(a), inverse) == fft_spec(padded(b), inverse),
        ifft_spec(padded(a)) == ifft_spec(padded(b)),
{
}

/// A single sample needs no padding and is its own transform.
pub proof fn lemma_single_sample_unchanged<T: FftScalar>(s: Seq<T>, inverse: bool)
    requires
        s.len() == 1,
    ensures
        padded(s) == s,
        fft_spec(padded(s), inverse) == s,
{
    lemma_next_pow2(1);
    assert(padded(s) =~= s);
}

} // verus!
