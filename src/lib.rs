//! A recursive radix-2 Cooley–Tukey transform over any scalar type that
//! supplies exact ring operations and twiddle factors, together with the
//! spectral peak selection that consumes its output.
mod analysis;
mod fft;
mod modular;
mod scalar;

pub use fft::{
    combine, evens, fft, fft_general, fft_spec, ifft, ifft_spec, lemma_fft_len,
    lemma_next_pow2, lemma_single_sample_unchanged, lemma_transform_deterministic, next_pow2,
    odds, pad_if_necessary, padded_len, padded, pow2_from, FFTVec,
};
pub use scalar::{is_pow2, FftScalar};
pub use analysis::{check_input, is_peak, spectral_peaks, AnalysisError, Magnitude};
pub use modular::{pow_mod, residue, twiddle_exponent, Residue, GENERATOR, MODULUS};
