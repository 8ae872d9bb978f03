use cooley_tukey::{
    check_input, fft, fft_general, ifft, pad_if_necessary, spectral_peaks, AnalysisError,
    FFTVec, FftScalar, Magnitude, Residue, MODULUS,
};
use std::f64::consts::PI;

#[derive(Clone, Copy, Debug, PartialEq)]
struct Complex {
    re: f64,
    im: f64,
}

const ZERO: Complex = Complex { re: 0.0, im: 0.0 };

impl Complex {
    fn new(re: f64, im: f64) -> Complex {
        Complex { re, im }
    }

    fn mag(&self) -> f64 {
        (self.re * self.re + self.im * self.im).sqrt()
    }
}

fn exp_i(theta: f64) -> Complex {
    Complex::new(theta.cos(), theta.sin())
}

impl FftScalar for Complex {
    fn zero() -> Complex {
        ZERO
    }

    fn plus(self, b: Complex) -> Complex {
        Complex::new(self.re + b.re, self.im + b.im)
    }

    fn minus(self, b: Complex) -> Complex {
        Complex::new(self.re - b.re, self.im - b.im)
    }

    fn times(self, b: Complex) -> Complex {
        Complex::new(self.re * b.re - self.im * b.im, self.re * b.im + self.im * b.re)
    }

    fn twiddle(k: usize, n: usize, inverse: bool) -> Complex {
        let sign = if inverse { 2.0 } else { -2.0 };
        exp_i(sign * PI * (k as f64 / n as f64))
    }

    fn shrink(self, n: usize) -> Complex {
        Complex::new(self.re / n as f64, self.im / n as f64)
    }
}

#[derive(Clone, Copy, Debug, PartialEq)]
struct Mag(f64);

impl Magnitude for Mag {
    fn exceeds(&self, other: &Mag) -> bool {
        self.0 > other.0
    }
}

fn reals(v: Vec<f64>) -> Vec<Complex> {
    v.into_iter().map(|x| Complex::new(x, 0.0)).collect()
}

fn res(v: &[u64]) -> Vec<Residue> {
    v.iter().map(|&value| Residue { value }).collect()
}

fn known_input() -> Vec<Complex> {
    vec![
        Complex::new(1.0, 0.0),
        Complex::new(2.0, -1.0),
        Complex::new(0.0, -1.0),
        Complex::new(-1.0, 2.0),
    ]
}

fn known_output() -> Vec<Complex> {
    vec![
        Complex::new(2.0, 0.0),
        Complex::new(-2.0, -2.0),
        Complex::new(0.0, -2.0),
        Complex::new(4.0, 4.0),
    ]
}

#[test]
fn fft_padding() {
    let no_padding: FFTVec<Complex> = FFTVec::normalize(vec![ZERO; 4]);
    assert_eq!(no_padding, FFTVec { data: vec![ZERO; 4] });

    let needs_padding: FFTVec<Complex> = FFTVec::normalize(vec![ZERO; 5]);
    assert_eq!(needs_padding, FFTVec { data: vec![ZERO; 8] });
}

#[test]
fn fft_real_values() {
    let complexified: FFTVec<Complex> = FFTVec::normalize(reals(vec![0.0; 4]));
    assert_eq!(complexified, FFTVec { data: vec![ZERO; 4] });
}

#[test]
fn fft_split() {
    let incr: Vec<f64> = (0..4).map(|x| x as f64).collect();
    let v: FFTVec<Complex> = FFTVec::normalize(reals(incr));
    let (even, odd) = v.split();
    assert_eq!(
        even,
        FFTVec { data: vec![Complex::new(0.0, 0.0), Complex::new(2.0, 0.0)] }
    );
    assert_eq!(
        odd,
        FFTVec { data: vec![Complex::new(1.0, 0.0), Complex::new(3.0, 0.0)] }
    );
}

#[test]
fn fft_fft_simple() {
    assert_eq!(fft(known_input()), Ok(FFTVec { data: known_output() }));
    assert_eq!(ifft(known_output()), Ok(FFTVec { data: known_input() }));
}

#[test]
fn lib_padding() {
    let no_padding: FFTVec<Complex> = FFTVec::normalize(vec![ZERO; 4]);
    assert_eq!(no_padding, FFTVec { data: vec![ZERO; 4] });

    let needs_padding: FFTVec<Complex> = FFTVec::normalize(vec![ZERO; 5]);
    assert_eq!(needs_padding, FFTVec { data: vec![ZERO; 8] });
}

#[test]
fn lib_real_values() {
    let complexified: FFTVec<Complex> = FFTVec::normalize(reals(vec![0.0; 4]));
    assert_eq!(complexified, FFTVec { data: vec![ZERO; 4] });
}

#[test]
fn lib_split() {
    let incr: Vec<f64> = (0..4).map(|x| x as f64).collect();
    let v: FFTVec<Complex> = FFTVec::normalize(reals(incr));
    let (even, odd) = v.split();
    assert_eq!(
        even,
        FFTVec { data: vec![Complex::new(0.0, 0.0), Complex::new(2.0, 0.0)] }
    );
    assert_eq!(
        odd,
        FFTVec { data: vec![Complex::new(1.0, 0.0), Complex::new(3.0, 0.0)] }
    );
}

#[test]
fn lib_fft_simple() {
    assert_eq!(fft(known_input()), Ok(FFTVec { data: known_output() }));
    assert_eq!(ifft(known_output()), Ok(FFTVec { data: known_input() }));
}

#[test]
fn padding_appends_zeros_after_the_input() {
    let v = pad_if_necessary(res(&[1, 2, 3, 4, 5]));
    assert_eq!(v, res(&[1, 2, 3, 4, 5, 0, 0, 0]));
    let w = pad_if_necessary(res(&[7, 8, 9]));
    assert_eq!(w, res(&[7, 8, 9, 0]));
    let one = pad_if_necessary(res(&[6]));
    assert_eq!(one, res(&[6]));
    let sixteen = pad_if_necessary(vec![ZERO; 9]);
    assert_eq!(sixteen.len(), 16);
}

#[test]
fn split_of_odd_length_puts_extra_element_in_even_half() {
    let (even, odd) = FFTVec { data: res(&[0, 1, 2, 3, 4]) }.split();
    assert_eq!(even.data, res(&[0, 2, 4]));
    assert_eq!(odd.data, res(&[1, 3]));
}

#[test]
fn round_trip_restores_padded_input() {
    let x = vec![
        Complex::new(0.5, -1.25),
        Complex::new(3.0, 2.0),
        Complex::new(-7.5, 0.125),
        Complex::new(1.0, 1.0),
        Complex::new(0.0, -4.0),
        Complex::new(2.25, 0.0),
    ];
    let back = ifft(fft(x.clone()).unwrap().data).unwrap();
    assert_eq!(back.data.len(), 8);
    for (i, c) in back.data.iter().enumerate() {
        let want = if i < x.len() { x[i] } else { ZERO };
        assert!((c.re - want.re).abs() < 1e-9);
        assert!((c.im - want.im).abs() < 1e-9);
    }
}

#[test]
fn transform_twice_is_bit_identical() {
    let x = reals(vec![0.1, -0.7, 3.3, 2.9, -1.5]);
    let a = fft(x.clone()).unwrap();
    let b = fft(x).unwrap();
    assert_eq!(a.data.len(), b.data.len());
    for (p, q) in a.data.iter().zip(b.data.iter()) {
        assert_eq!(p.re.to_bits(), q.re.to_bits());
        assert_eq!(p.im.to_bits(), q.im.to_bits());
    }
}

#[test]
fn single_sample_is_its_own_transform() {
    let c = Complex::new(-3.5, 8.25);
    assert_eq!(fft(vec![c]), Ok(FFTVec { data: vec![c] }));
    assert_eq!(fft(res(&[42])).unwrap().data, res(&[42]));
}

#[test]
fn modular_transform_of_known_vector() {
    let r = fft(res(&[1, 2, 3, 4])).unwrap();
    assert_eq!(r.data, res(&[10, 173167434, 998244351, 825076915]));
}

#[test]
fn modular_transform_of_impulse_lists_the_powers_of_the_root() {
    let r = fft(res(&[0, 1, 0, 0])).unwrap();
    assert_eq!(r.data, res(&[1, 911660635, 998244352, 86583718]));
    let two = fft(res(&[0, 1])).unwrap();
    assert_eq!(two.data, res(&[1, MODULUS - 1]));
}

#[test]
fn modular_inverse_divides_by_length() {
    let r = ifft(res(&[4, 0, 0, 0])).unwrap();
    assert_eq!(r.data, res(&[1, 1, 1, 1]));
}

#[test]
fn modular_round_trip_is_exact() {
    let x = res(&[5, 0, 998244352, 17, 123456789, 3]);
    let back = ifft(fft(x.clone()).unwrap().data).unwrap();
    let mut want = x;
    want.extend(res(&[0, 0]));
    assert_eq!(back.data, want);
}

#[test]
fn unnormalized_general_transform_of_length_one() {
    let r = fft_general(FFTVec { data: res(&[9]) }, true);
    assert_eq!(r.data, res(&[9]));
}

#[test]
fn peaks_are_strict_local_maxima_above_threshold() {
    // first half: [1, 5, 1, 7, 7, 3, 8, 2]; the DC bin and the last bin are never centres
    let mags: Vec<u64> = vec![1, 5, 1, 7, 7, 3, 8, 2, 0, 0, 0, 0, 0, 0, 0, 50];
    assert_eq!(spectral_peaks(&mags, 0), vec![1, 6]);
    assert_eq!(spectral_peaks(&mags, 5), vec![6]);
    assert_eq!(spectral_peaks(&mags, 8), Vec::<usize>::new());
}

#[test]
fn peaks_of_short_spectra_are_empty() {
    assert_eq!(spectral_peaks(&Vec::<u64>::new(), 0), Vec::<usize>::new());
    assert_eq!(spectral_peaks(&vec![0u64, 9, 0, 0], 0), Vec::<usize>::new());
    assert_eq!(spectral_peaks(&vec![0u64, 9, 0, 0, 0, 0], 0), vec![1]);
}

#[test]
fn invalid_inputs_are_rejected() {
    assert_eq!(check_input(0, 44100), Err(AnalysisError::InvalidInput));
    assert_eq!(check_input(10, 0), Err(AnalysisError::InvalidInput));
    assert_eq!(check_input(5, 8000), Ok(8));
    assert_eq!(check_input(8192, 44100), Ok(8192));
}

#[test]
fn sine_wave_gives_one_peak_at_its_frequency() {
    let rate: u32 = 8000;
    let n: usize = 1024;
    let amplitude = 3.0;
    let bin = rate as f64 / n as f64;
    let f0 = 55.0 * bin;
    let samples: Vec<f64> = (0..n)
        .map(|i| amplitude * (2.0 * PI * f0 * i as f64 / rate as f64).sin())
        .collect();
    let padded = check_input(samples.len(), rate).unwrap();
    let spectrum = fft(reals(samples)).unwrap();
    let mags: Vec<Mag> = spectrum.data.iter().map(|c| Mag(c.mag() / padded as f64)).collect();
    let peaks = spectral_peaks(&mags, Mag(0.5));
    assert_eq!(peaks.len(), 1);
    let f = peaks[0] as f64 * rate as f64 / padded as f64;
    assert!((f - f0).abs() < bin);
    assert!((mags[peaks[0]].0 - amplitude / 2.0).abs() < 1e-6);
}

#[test]
fn empty_transform_is_rejected() {
    assert_eq!(fft(Vec::<Complex>::new()), Err(AnalysisError::InvalidInput));
    assert_eq!(ifft(Vec::<Complex>::new()), Err(AnalysisError::InvalidInput));
    assert_eq!(fft(Vec::<Residue>::new()), Err(AnalysisError::InvalidInput));
    assert_eq!(ifft(Vec::<Residue>::new()), Err(AnalysisError::InvalidInput));
}
