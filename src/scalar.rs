use vstd::prelude::*;

verus! {

/// True exactly when `n` is `2^k` for some `k >= 0`.
pub open spec fn is_pow2(n: nat) -> bool
    decreases n,
{
    if n == 1 {
        true
    } else if n == 0 || n % 2 == 1 {
        false
    } else {
        is_pow2(n / 2)
    }
}

/// The arithmetic the transform needs from its coefficient type.
///
/// Each operation is tied to a spec function, so the transform's results can
/// be stated exactly in terms of the operations of the scalar it runs on.
///
/// The spec functions have default bodies only so that a type can implement
/// the trait in ordinary Rust, outside the verifier (a floating-point complex
/// number, say): such an impl cannot define spec functions. Each default is
/// one unspecified value that ignores its arguments, so the `ensures` of the
/// operations are false of such an impl, and it is not checked against them.
/// Nothing proved in this crate rests on the defaults: for a generic scalar
/// the spec functions stay uninterpreted, and the one impl here, `Residue`,
/// overrides every one of them and is verified.
pub trait FftScalar: Sized + Copy {
    /// The additive identity, used for padding.
    open spec fn zero_spec() -> Self {
        arbitrary()
    }

    open spec fn plus_spec(a: Self, b: Self) -> Self {
        arbitrary()
    }

    open spec fn minus_spec(a: Self, b: Self) -> Self {
        arbitrary()
    }

    open spec fn times_spec(a: Self, b: Self) -> Self {
        arbitrary()
    }

    /// The twiddle factor for bin `k` of a length-`n` stage: `e^{-2πik/n}`
    /// for the forward transform, `e^{+2πik/n}` for the inverse.
    open spec fn twiddle_spec(k: nat, n: nat, inverse: bool) -> Self {
        arbitrary()
    }

    /// The value divided by the transform length `n`.
    open spec fn shrink_spec(a: Self, n: nat) -> Self {
        arbitrary()
    }

    fn zero() -> (r: Self)
        ensures
            r == Self::zero_spec(),
    ;

    fn plus(self, b: Self) -> (r: Self)
        ensures
            r == Self::plus_spec(self, b),
    ;

    fn minus(self, b: Self) -> (r: Self)
        ensures
            r == Self::minus_spec(self, b),
    ;

    fn times(self, b: Self) -> (r: Self)
        ensures
            r == Self::times_spec(self, b),
    ;

    fn twiddle(k: usize, n: usize, inverse: bool) -> (r: Self)
        requires
            k < n,
        ensures
            r == Self::twiddle_spec(k as nat, n as nat, inverse),
    ;

    fn shrink(self, n: usize) -> (r: Self)
        requires
            n > 0,
        ensures
            r == Self::shrink_spec(self, n as nat),
    ;
}

} // verus!
