//! Single-precision numbers held as their bit patterns.
//!
//! Volumes, thresholds and durations reach the library as IEEE 754 binary32
//! values. Only their order, finiteness and clamping matter here, and those
//! are decided from the 32 bits alone.
use vstd::arithmetic::power2::*;
use vstd::prelude::*;

verus! {

/// The sign bit.
pub const SIGN: u32 = 0x8000_0000;

/// The magnitude of an infinity; above it stand the NaNs.
pub const INFINITY: u32 = 0x7F80_0000;

/// The bits of `1.0`.
pub const ONE: u32 = 0x3F80_0000;

/// An IEEE 754 binary32 number, held as its bit pattern.
///
/// As with any such number, `==` compares the numbers and not the bits: the
/// two zeros are equal, and a NaN is equal to nothing, not even to itself. In
/// contracts `==` means the same bits; [`Binary32::same_number`] says what the
/// operator means.
#[derive(Debug, Clone, Copy)]
pub struct Binary32 {
    pub bits: u32,
}

/// The value of the bits below the sign, in units of `2^-149` (the smallest
/// positive number): exponent field `e` and fraction field `f` stand for `f`
/// when `e` is zero and for `(2^23 + f) * 2^(e-1)` otherwise.
pub open spec fn magnitude_value(m: int) -> int {
    let e = m / 0x80_0000;
    let f = m % 0x80_0000;
    if e == 0 {
        f
    } else {
        (0x80_0000 + f) * pow2((e - 1) as nat) as int
    }
}

/// A greater magnitude field is a greater magnitude.
pub proof fn magnitude_value_increases(a: int, b: int)
    requires
        0 <= a < b,
    ensures
        magnitude_value(a) < magnitude_value(b),
{
    let ea = a / 0x80_0000;
    let fa = a % 0x80_0000;
    let eb = b / 0x80_0000;
    let fb = b % 0x80_0000;
    if ea == eb {
        if ea != 0 {
            let p = pow2((ea - 1) as nat) as int;
            lemma_pow2_pos((ea - 1) as nat);
            assert((0x80_0000 + fa) * p < (0x80_0000 + fb) * p) by (nonlinear_arith)
                requires
                    p > 0,
                    fa < fb,
            ;
        }
    } else {
        let q = pow2((eb - 1) as nat) as int;
        lemma_pow2_pos((eb - 1) as nat);
        assert((0x80_0000 + fb) * q >= 0x80_0000 * q) by (nonlinear_arith)
            requires
                q > 0,
                fb >= 0,
        ;
        if ea != 0 {
            let p = pow2((ea - 1) as nat) as int;
            lemma_pow2_pos((ea - 1) as nat);
            lemma_pow2_unfold(ea as nat);
            if ea < eb - 1 {
                lemma_pow2_strictly_increases(ea as nat, (eb - 1) as nat);
            }
            assert((0x80_0000 + fa) * p < 0x80_0000 * (2 * p)) by (nonlinear_arith)
                requires
                    p > 0,
                    fa < 0x80_0000,
            ;
        }
    }
}

impl Binary32 {
    /// The number with the given bits.
    pub fn from_bits(bits: u32) -> (r: Binary32)
        ensures
            r.bits == bits,
    {
        Binary32 { bits }
    }

    /// The bits of the number.
    pub fn to_bits(self) -> (r: u32)
        ensures
            r == self.bits,
    {
        self.bits
    }

    /// The bits below the sign.
    pub open spec fn magnitude(self) -> int {
        self.bits as int % SIGN as int
    }

    /// All exponent bits set and a non-zero fraction: not a number.
    pub open spec fn is_nan(self) -> bool {
        self.magnitude() > INFINITY
    }

    /// Neither infinite nor a NaN.
    pub open spec fn finite(self) -> bool {
        self.magnitude() < INFINITY
    }

    /// The number in units of `2^-149`. An infinity takes the value that its
    /// fields would have as a number, which lies beyond every finite one.
    pub open spec fn value(self) -> int {
        if self.bits >= SIGN {
            -magnitude_value(self.magnitude())
        } else {
            magnitude_value(self.magnitude())
        }
    }

    /// `self < other`: false if either is a NaN.
    pub open spec fn lt(self, other: Binary32) -> bool {
        !self.is_nan() && !other.is_nan() && self.value() < other.value()
    }

    /// `self <= other`: false if either is a NaN.
    pub open spec fn le(self, other: Binary32) -> bool {
        !self.is_nan() && !other.is_nan() && self.value() <= other.value()
    }

    /// `self == other` as numbers: false if either is a NaN.
    pub open spec fn same_number(self, other: Binary32) -> bool {
        !self.is_nan() && !other.is_nan() && self.value() == other.value()
    }

    /// Sign and magnitude as one signed integer.
    fn key(self) -> (r: i64)
        ensures
            r == if self.bits >= SIGN {
                -self.magnitude()
            } else {
                self.magnitude()
            },
    {
        if self.bits >= SIGN {
            -((self.bits - SIGN) as i64)
        } else {
            self.bits as i64
        }
    }

    fn nan(self) -> (r: bool)
        ensures
            r == self.is_nan(),
    {
        self.bits % SIGN > INFINITY
    }

    /// True if the number is neither infinite nor a NaN.
    pub fn is_finite(self) -> (r: bool)
        ensures
            r == self.finite(),
    {
        self.bits % SIGN < INFINITY
    }

    /// `self < other`.
    pub fn less(self, other: Binary32) -> (r: bool)
        ensures
            r == self.lt(other),
    {
        proof {
            lemma_order(self, other);
        }
        !self.nan() && !other.nan() && self.key() < other.key()
    }

    /// `self <= other`.
    pub fn at_most(self, other: Binary32) -> (r: bool)
        ensures
            r == self.le(other),
    {
        proof {
            lemma_order(other, self);
        }
        !self.nan() && !other.nan() && self.key() <= other.key()
    }

    /// `lo <= self <= hi`.
    pub open spec fn in_range(self, lo: u32, hi: u32) -> bool {
        (Binary32 { bits: lo }).le(self) && self.le(Binary32 { bits: hi })
    }

    /// True if the number lies in the closed range between the numbers with
    /// bits `lo` and `hi`.
    pub fn within(self, lo: u32, hi: u32) -> (r: bool)
        ensures
            r == self.in_range(lo, hi),
    {
        Binary32::from_bits(lo).at_most(self) && self.at_most(Binary32::from_bits(hi))
    }

    /// The number moved into `[0, 1]`; a NaN stays as it is.
    pub open spec fn unit_clamped(self) -> Binary32 {
        let zero = Binary32 { bits: 0 };
        let one = Binary32 { bits: ONE };
        if self.lt(zero) {
            zero
        } else if one.lt(self) {
            one
        } else {
            self
        }
    }

    /// Moves the number into `[0, 1]`.
    pub fn clamp_unit(self) -> (r: Binary32)
        ensures
            r == self.unit_clamped(),
    {
        let zero = Binary32::from_bits(0);
        let one = Binary32::from_bits(ONE);
        if self.less(zero) {
            zero
        } else if one.less(self) {
            one
        } else {
            self
        }
    }
}

impl PartialEq for Binary32 {
    fn eq(&self, other: &Binary32) -> (r: bool) {
        proof {
            lemma_order(*self, *other);
            lemma_order(*other, *self);
        }
        !self.nan() && !other.nan() && self.key() == other.key()
    }
}

impl vstd::std_specs::cmp::PartialEqSpecImpl for Binary32 {
    open spec fn obeys_eq_spec() -> bool {
        true
    }

    open spec fn eq_spec(&self, other: &Binary32) -> bool {
        self.same_number(*other)
    }
}

/// Numbers with the same bits are equal unless they are NaNs, and numbers that
/// are equal with different bits are the two zeros.
pub proof fn equal_numbers(a: Binary32, b: Binary32)
    ensures
        a == b && !a.is_nan() ==> a.same_number(b),
        a.is_nan() ==> !a.same_number(b),
        a.same_number(b) && a != b ==> a.magnitude() == 0 && b.magnitude() == 0,
{
    lemma_order(a, b);
    lemma_order(b, a);
}

/// Two numbers compare by their bits: of two that are not negative, the one
/// with the greater bits is greater; of two negative ones, the one with the
/// lesser bits; and every negative number but the zero is less than every
/// number that is not negative. With a NaN on either side all comparisons are
/// false.
pub proof fn order_is_by_the_bits(a: Binary32, b: Binary32)
    ensures
        a.bits % 0x8000_0000 > 0x7F80_0000 || b.bits % 0x8000_0000 > 0x7F80_0000 ==> !a.lt(b)
            && !a.le(b) && !a.same_number(b),
        a.bits <= 0x7F80_0000 && b.bits <= 0x7F80_0000 ==> {
            &&& a.lt(b) == (a.bits < b.bits)
            &&& a.le(b) == (a.bits <= b.bits)
            &&& a.same_number(b) == (a.bits == b.bits)
        },
        0x8000_0000 <= a.bits <= 0xFF80_0000 && 0x8000_0000 <= b.bits <= 0xFF80_0000 ==> {
            &&& a.lt(b) == (a.bits > b.bits)
            &&& a.le(b) == (a.bits >= b.bits)
            &&& a.same_number(b) == (a.bits == b.bits)
        },
        0x8000_0000 <= a.bits <= 0xFF80_0000 && b.bits <= 0x7F80_0000 ==> {
            let zeros = a.bits == 0x8000_0000 && b.bits == 0;
            &&& a.le(b)
            &&& a.lt(b) == !zeros
            &&& a.same_number(b) == zeros
            &&& b.le(a) == zeros
            &&& !b.lt(a)
            &&& b.same_number(a) == zeros
        },
{
    lemma_order(a, b);
    lemma_order(b, a);
}

/// The signed magnitudes order two numbers as their values do.
proof fn lemma_order(a: Binary32, b: Binary32)
    ensures
        ({
            let ka = if a.bits >= SIGN {
                -a.magnitude()
            } else {
                a.magnitude()
            };
            let kb = if b.bits >= SIGN {
                -b.magnitude()
            } else {
                b.magnitude()
            };
            ka < kb <==> a.value() < b.value()
        }),
{
    let (ma, mb) = (a.magnitude(), b.magnitude());
    if ma < mb {
        magnitude_value_increases(ma, mb);
    }
    if mb < ma {
        magnitude_value_increases(mb, ma);
    }
    if 0 < ma {
        magnitude_value_increases(0, ma);
    }
    if 0 < mb {
        magnitude_value_increases(0, mb);
    }
}

/// A clamped number lies in `[0, 1]` unless it is a NaN, and one that already
/// lies there is unchanged; one below goes to 0 and one above to 1.
pub proof fn clamped_in_unit(v: Binary32)
    ensures
        !v.is_nan() ==> v.unit_clamped().in_range(0, ONE),
        v.in_range(0, ONE) ==> v.unit_clamped() == v,
        v.is_nan() ==> v.unit_clamped() == v,
        v.lt(Binary32 { bits: 0 }) ==> v.unit_clamped().bits == 0,
        (Binary32 { bits: 0x3F80_0000 }).lt(v) ==> v.unit_clamped().bits == 0x3F80_0000,
{
    lemma_order(Binary32 { bits: 0 }, Binary32 { bits: ONE });
}

} // verus!
