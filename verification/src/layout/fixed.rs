//! Saturating fixed-point scalars with sixteen fractional bits.

use vstd::prelude::*;

verus! {

/// The bit pattern of the scalar one.
pub const ONE: i64 = 65536;

/// The bit pattern of one half.
pub const HALF: i64 = 32768;

/// The bit pattern of the scalar nearest below one third.
pub const THIRD: i64 = 21845;

/// The bit pattern of the scalar nearest below two thirds.
pub const TWO_THIRDS: i64 = 43690;

/// The largest magnitude a scalar's bit pattern can take; results beyond it
/// are clamped to it.
pub const LIMIT: i64 = 0x7fff_ffff_ffff_ffff;

/// Clamps `v` to the range of bit patterns.
pub open spec fn sat(v: int) -> int {
    if v > LIMIT {
        LIMIT as int
    } else if v < -LIMIT {
        -LIMIT
    } else {
        v
    }
}

/// The quotient of `a` by a positive `b`, rounded toward zero.
pub open spec fn trunc_quot(a: int, b: int) -> int {
    if a >= 0 {
        a / b
    } else {
        -((-a) / b)
    }
}

/// The quotient of `a` by a non-zero `b`, rounded toward zero.
pub open spec fn trunc_div(a: int, b: int) -> int {
    if b > 0 {
        trunc_quot(a, b)
    } else {
        trunc_quot(-a, -b)
    }
}

/// The integer square root: the largest `r` with `r * r <= n`.
pub open spec fn isqrt(n: nat) -> nat
    decreases n,
{
    if n == 0 {
        0
    } else {
        let r = 2 * isqrt(n / 4);
        if (r + 1) * (r + 1) <= n {
            r + 1
        } else {
            r
        }
    }
}

/// `isqrt(n)` is the floor of the square root of `n`.
pub proof fn lemma_isqrt_bounds(n: nat)
    ensures
        isqrt(n) * isqrt(n) <= n,
        n < (isqrt(n) + 1) * (isqrt(n) + 1),
    decreases n,
{
    let s = isqrt(n);
    if n == 0 {
        assert(s == 0);
        assert(s * s == 0 && (s + 1) * (s + 1) == 1) by (nonlinear_arith)
            requires
                s == 0,
        ;
    } else {
        let m = n / 4;
        let q = isqrt(m);
        lemma_isqrt_bounds(m);
        let r = 2 * q;
        assert(r * r <= 4 * m && 4 * (m + 1) <= (r + 2) * (r + 2)) by (nonlinear_arith)
            requires
                r == 2 * q,
                q * q <= m,
                m < (q + 1) * (q + 1),
        ;
        if (r + 1) * (r + 1) <= n {
            assert(s == r + 1);
            assert(s * s <= n && n < (s + 1) * (s + 1)) by (nonlinear_arith)
                requires
                    s == r + 1,
                    (r + 1) * (r + 1) <= n,
                    n < (r + 2) * (r + 2),
            ;
        } else {
            assert(s == r);
            assert(s * s <= n && n < (s + 1) * (s + 1)) by (nonlinear_arith)
                requires
                    s == r,
                    r * r <= n,
                    n < (r + 1) * (r + 1),
            ;
        }
    }
}

/// Any `r` that squares to at most `n` and whose successor squares beyond
/// `n` is the integer square root of `n`.
pub proof fn lemma_isqrt_unique(n: nat, r: nat)
    requires
        r * r <= n,
        n < (r + 1) * (r + 1),
    ensures
        r == isqrt(n),
{
    let s = isqrt(n);
    lemma_isqrt_bounds(n);
    if r < s {
        assert((r + 1) * (r + 1) <= s * s) by (nonlinear_arith)
            requires
                r + 1 <= s,
        ;
    } else if s < r {
        assert((s + 1) * (s + 1) <= r * r) by (nonlinear_arith)
            requires
                s + 1 <= r,
        ;
    }
}

/// Computes the integer square root of `n`.
pub fn integer_sqrt(n: u128) -> (r: u128)
    ensures
        r == isqrt(n as nat),
        r < 0x1_0000_0000_0000_0000,
    decreases n,
{
    if n == 0 {
        0
    } else {
        let q = integer_sqrt(n / 4);
        proof {
            lemma_isqrt_bounds((n / 4) as nat);
            if q >= 0x8000_0000_0000_0000 {
                assert(q * q >= 0x4000_0000_0000_0000_0000_0000_0000_0000) by (nonlinear_arith)
                    requires
                        q >= 0x8000_0000_0000_0000,
                ;
            }
        }
        let c: u128 = 2 * q + 1;
        assert(c * c < 0x1_0000_0000_0000_0000_0000_0000_0000_0000) by (nonlinear_arith)
            requires
                0 <= c < 0x1_0000_0000_0000_0000,
        ;
        if c * c <= n {
            c
        } else {
            2 * q
        }
    }
}

/// A scalar in units of 1/65536, held as its bit pattern.
///
/// Every operation is total: a result too large for the bit pattern is
/// clamped to `LIMIT` in magnitude, and quotients round toward zero, so that
/// negating the operands negates the result.
#[derive(Clone, Copy, Debug, PartialEq, Eq, Structural, Hash)]
pub struct Fixed {
    pub bits: i64,
}

impl View for Fixed {
    type V = int;

    open spec fn view(&self) -> int {
        self.bits as int
    }
}

impl Fixed {
    /// Whether the bit pattern lies within the limit; every result of an
    /// operation does.
    pub open spec fn in_range(self) -> bool {
        -LIMIT <= self.bits <= LIMIT
    }

    /// The scalar with the given bit pattern, clamped to the range.
    pub open spec fn of(v: int) -> Fixed {
        Fixed { bits: sat(v) as i64 }
    }

    /// The sum, clamped to the range.
    #[verifier::opaque]
    pub open spec fn spec_plus(self, rhs: Fixed) -> Fixed {
        Fixed::of(self.bits + rhs.bits)
    }

    /// The difference, clamped to the range.
    #[verifier::opaque]
    pub open spec fn spec_minus(self, rhs: Fixed) -> Fixed {
        Fixed::of(self.bits - rhs.bits)
    }

    /// The negative.
    #[verifier::opaque]
    pub open spec fn spec_neg(self) -> Fixed {
        Fixed::of(-self.bits)
    }

    /// The product, rounded toward zero and clamped to the range.
    #[verifier::opaque]
    pub open spec fn spec_times(self, rhs: Fixed) -> Fixed {
        Fixed::of(trunc_quot(self.bits * rhs.bits, ONE as int))
    }

    /// The quotient; a division by zero gives the limit with the sign of the
    /// dividend, and zero for a zero dividend.
    #[verifier::opaque]
    pub open spec fn spec_over(self, rhs: Fixed) -> Fixed {
        if rhs.bits == 0 {
            Fixed::of(self.bits * LIMIT)
        } else {
            Fixed::of(trunc_div(self.bits * ONE, rhs.bits as int))
        }
    }

    /// The square root; zero for a negative scalar.
    #[verifier::opaque]
    pub open spec fn spec_sqrt(self) -> Fixed {
        if self.bits <= 0 {
            Fixed { bits: 0 }
        } else {
            Fixed::of(isqrt((self.bits * ONE) as nat) as int)
        }
    }

    /// The magnitude.
    pub open spec fn spec_abs(self) -> Fixed {
        if self.bits < 0 {
            self.spec_neg()
        } else {
            self
        }
    }

    /// The scalar with the given bit pattern, clamped to the range: the one
    /// pattern beyond the limit, the least of all, gives the least scalar.
    pub fn from_bits(bits: i64) -> (r: Fixed)
        ensures
            r == Fixed::of(bits as int),
            r.in_range(),
            -LIMIT <= bits ==> r.bits == bits,
    {
        if bits < -LIMIT {
            Fixed { bits: -LIMIT }
        } else {
            Fixed { bits }
        }
    }

    /// The scalar that equals the integer `n`.
    pub fn from_int(n: i32) -> (r: Fixed)
        ensures
            r.bits == n * ONE,
    {
        Fixed { bits: (n as i64) * ONE }
    }

    /// The scalar nearest to `num / den` toward zero.
    pub fn from_ratio(num: i32, den: i32) -> (r: Fixed)
        ensures
            r == Fixed::of(num * ONE).spec_over(Fixed::of(den * ONE)),
    {
        Fixed::from_int(num).over(Fixed::from_int(den))
    }

    /// The scalar zero.
    pub fn zero() -> (r: Fixed)
        ensures
            r.bits == 0,
    {
        Fixed { bits: 0 }
    }

    /// The scalar one.
    pub fn one() -> (r: Fixed)
        ensures
            r.bits == ONE,
    {
        Fixed { bits: ONE }
    }

    /// The bit pattern of the scalar.
    pub fn bits(self) -> (b: i64)
        ensures
            b == self.bits,
    {
        self.bits
    }

    /// Clamps a wide intermediate result to a scalar.
    pub fn saturate(v: i128) -> (r: Fixed)
        ensures
            r == Fixed::of(v as int),
            r.in_range(),
    {
        if v > LIMIT as i128 {
            Fixed { bits: LIMIT }
        } else if v < -(LIMIT as i128) {
            Fixed { bits: -LIMIT }
        } else {
            Fixed { bits: v as i64 }
        }
    }

    /// Adds two scalars.
    #[verifier::when_used_as_spec(spec_plus)]
    pub fn plus(self, rhs: Fixed) -> (r: Fixed)
        ensures
            r == self.spec_plus(rhs),
            r.in_range(),
    {
        reveal(Fixed::spec_plus);
        Fixed::saturate(self.bits as i128 + rhs.bits as i128)
    }

    /// Subtracts `rhs` from the scalar.
    #[verifier::when_used_as_spec(spec_minus)]
    pub fn minus(self, rhs: Fixed) -> (r: Fixed)
        ensures
            r == self.spec_minus(rhs),
            r.in_range(),
    {
        reveal(Fixed::spec_minus);
        Fixed::saturate(self.bits as i128 - rhs.bits as i128)
    }

    /// Negates the scalar.
    #[verifier::when_used_as_spec(spec_neg)]
    pub fn neg(self) -> (r: Fixed)
        ensures
            r == self.spec_neg(),
            r.in_range(),
    {
        reveal(Fixed::spec_neg);
        Fixed::saturate(-(self.bits as i128))
    }

    /// The magnitude of the scalar.
    #[verifier::when_used_as_spec(spec_abs)]
    pub fn abs(self) -> (r: Fixed)
        ensures
            r == self.spec_abs(),
    {
        if self.bits < 0 {
            self.neg()
        } else {
            self
        }
    }

    /// Multiplies two scalars.
    #[verifier::when_used_as_spec(spec_times)]
    pub fn times(self, rhs: Fixed) -> (r: Fixed)
        ensures
            r == self.spec_times(rhs),
            r.in_range(),
    {
        reveal(Fixed::spec_times);
        let p = wide_product(self.bits, rhs.bits);
        Fixed::saturate(p / (ONE as i128))
    }

    /// Divides the scalar by `rhs`; total, as the quotient is.
    #[verifier::when_used_as_spec(spec_over)]
    pub fn over(self, rhs: Fixed) -> (r: Fixed)
        ensures
            r == self.spec_over(rhs),
            r.in_range(),
    {
        reveal(Fixed::spec_over);
        if rhs.bits == 0 {
            let p = wide_product(self.bits, LIMIT);
            Fixed::saturate(p)
        } else if rhs.bits > 0 {
            let p = wide_product(self.bits, ONE);
            Fixed::saturate(p / (rhs.bits as i128))
        } else {
            let p = wide_product(self.bits, ONE);
            Fixed::saturate((-p) / (-(rhs.bits as i128)))
        }
    }

    /// The square root of the scalar; zero for a negative one.
    #[verifier::when_used_as_spec(spec_sqrt)]
    pub fn sqrt(self) -> (r: Fixed)
        ensures
            r == self.spec_sqrt(),
            r.in_range(),
    {
        reveal(Fixed::spec_sqrt);
        if self.bits <= 0 {
            Fixed { bits: 0 }
        } else {
            let p = wide_product(self.bits, ONE);
            let s = integer_sqrt(p as u128);
            Fixed::saturate(s as i128)
        }
    }

    /// Whether the scalar is zero.
    pub fn is_zero(self) -> (b: bool)
        ensures
            b == (self.bits == 0),
    {
        self.bits == 0
    }

    /// Whether the scalar is less than `rhs`.
    pub fn lt(self, rhs: Fixed) -> (b: bool)
        ensures
            b == (self.bits < rhs.bits),
    {
        self.bits < rhs.bits
    }

    /// Whether the scalar is `rhs` or more.
    pub fn ge(self, rhs: Fixed) -> (b: bool)
        ensures
            b == (self.bits >= rhs.bits),
    {
        self.bits >= rhs.bits
    }
}

/// The exact product of two bit patterns.
pub fn wide_product(a: i64, b: i64) -> (p: i128)
    ensures
        p == a * b,
        -0x4000_0000_0000_0000_0000_0000_0000_0000 <= p <= 0x4000_0000_0000_0000_0000_0000_0000_0000,
{
    assert(-0x4000_0000_0000_0000_0000_0000_0000_0000 <= a * b
        <= 0x4000_0000_0000_0000_0000_0000_0000_0000) by (nonlinear_arith)
        requires
            -0x8000_0000_0000_0000 <= a < 0x8000_0000_0000_0000,
            -0x8000_0000_0000_0000 <= b < 0x8000_0000_0000_0000,
    ;
    (a as i128) * (b as i128)
}

} // verus!
