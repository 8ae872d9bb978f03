use crate::scalar::FftScalar;
use vstd::arithmetic::div_mod::{lemma_fundamental_div_mod, lemma_mul_mod_noop_left, lemma_mul_mod_noop_right};
use vstd::arithmetic::power::{lemma_pow_adds, lemma_pow_mod_noop, lemma_pow_multiplies, pow};
use vstd::prelude::*;

verus! {

/// The prime `119 * 2^23 + 1`, whose multiplicative group has elements of
/// every power-of-two order up to `2^23`.
pub const MODULUS: u64 = 998244353;

/// A generator of the multiplicative group modulo `MODULUS`.
pub const GENERATOR: u64 = 3;

/// An integer modulo `MODULUS`. With it the transform is the exact
/// number-theoretic transform, for lengths that divide `MODULUS - 1`.
/// Any `u64` is accepted as a representative of its class.
#[derive(Clone, Copy, Debug, PartialEq, Eq)]
pub struct Residue {
    pub value: u64,
}

/// `b^e` reduced modulo `MODULUS`.
pub open spec fn pow_mod(b: nat, e: nat) -> nat {
    (pow(b as int, e) % (MODULUS as int)) as nat
}

/// The exponent of `GENERATOR` that gives the twiddle factor for bin `k` of
/// a length-`n` stage: a primitive `n`-th root of unity raised to `k`, or to
/// `n - k` for the inverse.
pub open spec fn twiddle_exponent(k: nat, n: nat, inverse: bool) -> nat {
    (((MODULUS - 1) as nat / n) * (if inverse {
        (n - k) as nat
    } else {
        k
    })) as nat
}

pub open spec fn residue(v: nat) -> Residue {
    Residue { value: v as u64 }
}

proof fn lemma_square_step(acc: nat, base: nat, r: nat)
    requires
        r > 0,
    ensures
        (((if r % 2 == 1 {
            (acc * base) % (MODULUS as nat)
        } else {
            acc
        }) * pow(((base * base) % (MODULUS as nat)) as int, r / 2)) % (MODULUS as int)) == (acc
            * pow(base as int, r)) % (MODULUS as int),
{
    let m = MODULUS as int;
    let t: nat = r % 2;
    let q: nat = r / 2;
    let bb = (base * base) as int;
    assert(pow(base as int, 2) == bb) by {
        reveal(pow);
        assert(pow(base as int, 0) == 1);
        assert(pow(base as int, 1) == base);
    }
    lemma_pow_multiplies(base as int, 2, q);
    lemma_pow_adds(base as int, t, 2 * q);
    assert(r == t + 2 * q);
    assert(pow(base as int, r) == pow(base as int, t) * pow(bb, q));
    assert(pow(base as int, t) == if t == 1 {
        base as int
    } else {
        1int
    }) by {
        reveal(pow);
        assert(pow(base as int, 0) == 1);
        assert(pow(base as int, 1) == base);
    }
    let a1 = acc * pow(base as int, t);
    lemma_pow_mod_noop(bb, q, m);
    let pq = pow(bb % m, q);
    // (a1 % m) * pq  ==  a1 * pow(bb, q)   (mod m)
    lemma_mul_mod_noop_left(a1, pq, m);
    lemma_mul_mod_noop_right(a1, pq, m);
    lemma_mul_mod_noop_right(a1, pow(bb, q), m);
    if t == 1 {
        assert(a1 == acc * base);
    } else {
        assert(a1 == acc);
    }
    assert(a1 * pow(bb, q) == acc * pow(base as int, r)) by (nonlinear_arith)
        requires
            pow(base as int, r) == pow(base as int, t) * pow(bb, q),
            a1 == acc * pow(base as int, t),
    ;
}

/// `b^e mod MODULUS` by repeated squaring.
fn pow_mod_exec(b: u64, e: u64) -> (r: u64)
    requires
        b < MODULUS,
    ensures
        r == pow_mod(b as nat, e as nat),
{
    let mut acc: u64 = 1;
    let mut base: u64 = b;
    let mut rem: u64 = e;
    proof {
        assert(pow(b as int, 0) == 1) by {
            reveal(pow);
        }
        lemma_pow_mod_noop(b as int, e as nat, MODULUS as int);
    }
    while rem > 0
        invariant
            acc < MODULUS,
            base < MODULUS,
            (acc * pow(base as int, rem as nat)) % (MODULUS as int) == pow_mod(b as nat, e as nat),
        decreases rem,
    {
        proof {
            lemma_square_step(acc as nat, base as nat, rem as nat);
        }
        proof {
            lemma_product_fits(acc, base);
            lemma_product_fits(base, base);
        }
        if rem % 2 == 1 {
            acc = acc * base % MODULUS;
        }
        base = base * base % MODULUS;
        rem = rem / 2;
    }
    proof {
        assert(pow(base as int, 0) == 1) by {
            reveal(pow);
        }
    }
    acc
}


proof fn lemma_product_fits(a: u64, b: u64)
    requires
        a < MODULUS,
        b < MODULUS,
    ensures
        a * b < MODULUS * MODULUS,
{
    assert(a * b < MODULUS * MODULUS) by (nonlinear_arith)
        requires
            a < MODULUS,
            b < MODULUS,
    ;
}

impl FftScalar for Residue {
    open spec fn zero_spec() -> Self {
        residue(0)
    }

    open spec fn plus_spec(a: Self, b: Self) -> Self {
        residue(((a.value % MODULUS) + (b.value % MODULUS)) as nat % (MODULUS as nat))
    }

    open spec fn minus_spec(a: Self, b: Self) -> Self {
        residue(
            ((a.value % MODULUS) + MODULUS - (b.value % MODULUS)) as nat % (MODULUS as nat),
        )
    }

    open spec fn times_spec(a: Self, b: Self) -> Self {
        residue(((a.value % MODULUS) * (b.value % MODULUS)) as nat % (MODULUS as nat))
    }

    open spec fn twiddle_spec(k: nat, n: nat, inverse: bool) -> Self {
        residue(pow_mod(GENERATOR as nat, twiddle_exponent(k, n, inverse)))
    }

    /// Division by `n`: multiplication by `n^(MODULUS - 2)`, the inverse of
    /// `n` whenever `MODULUS` does not divide it.
    open spec fn shrink_spec(a: Self, n: nat) -> Self {
        Self::times_spec(a, residue(pow_mod(n % (MODULUS as nat), (MODULUS - 2) as nat)))
    }

    fn zero() -> (r: Self) {
        Residue { value: 0 }
    }

    fn plus(self, b: Self) -> (r: Self) {
        Residue { value: (self.value % MODULUS + b.value % MODULUS) % MODULUS }
    }

    fn minus(self, b: Self) -> (r: Self) {
        Residue { value: (self.value % MODULUS + MODULUS - b.value % MODULUS) % MODULUS }
    }

    fn times(self, b: Self) -> (r: Self) {
        let x = self.value % MODULUS;
        let y = b.value % MODULUS;
        proof {
            lemma_product_fits(x, y);
        }
        Residue { value: x * y % MODULUS }
    }

    fn twiddle(k: usize, n: usize, inverse: bool) -> (r: Self) {
        let step = (MODULUS - 1) / (n as u64);
        let j: u64 = if inverse {
            (n - k) as u64
        } else {
            k as u64
        };
        proof {
            lemma_fundamental_div_mod((MODULUS - 1) as int, n as int);
            assert((step as int) * (n as int) <= MODULUS - 1) by (nonlinear_arith)
                requires
                    MODULUS - 1 == (n as int) * ((MODULUS - 1) as int / (n as int)) + ((
                    MODULUS - 1) as int % (n as int)),
                    (MODULUS - 1) as int % (n as int) >= 0,
                    step == (MODULUS - 1) as int / (n as int),
            ;
            assert(step * j <= step * n) by (nonlinear_arith)
                requires
                    j <= n,
            ;
        }
        let e = step * j;
        Residue { value: pow_mod_exec(GENERATOR, e) }
    }

    fn shrink(self, n: usize) -> (r: Self) {
        let inv = pow_mod_exec((n as u64) % MODULUS, MODULUS - 2);
        self.times(Residue { value: inv })
    }
}

} // verus!
