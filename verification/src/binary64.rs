//! Scalar parameters as IEEE 754 binary64 bit patterns.
//!
//! A pattern has a sign bit, eleven exponent bits and fifty-two fraction
//! bits. Whether a parameter is greater than zero, whether one lies below
//! another, and how many whole steps a quotient holds are decided here from
//! the bits alone, so that every pattern, the infinities and the NaNs
//! included, has a defined outcome.
use vstd::prelude::*;
use vstd::arithmetic::power2::{pow2, lemma2_to64, lemma2_to64_rest, lemma_pow2_adds, lemma_pow2_pos, lemma_pow2_strictly_increases};

verus! {

/// The sign bit.
pub const SIGN_BIT: u64 = 0x8000_0000_0000_0000;

/// The pattern of positive infinity: all exponent bits set, no fraction bit.
pub const INFINITY_BITS: u64 = 0x7FF0_0000_0000_0000;

/// Two to the power 52: the weight of the implicit leading bit of a normal
/// significand, and the number of patterns per exponent.
pub const FRACTION_SPAN: u64 = 0x0010_0000_0000_0000;

/// The exponent field of the numbers in `[1, 2)`.
pub const EXPONENT_BIAS: u64 = 1023;

/// The exponent field from which on every number is a whole multiple of one:
/// a number is its significand times two to the power of its exponent field
/// less this value.
pub const EXPONENT_OF_UNIT_STEP: u64 = 1075;

/// A scalar given by its IEEE 754 binary64 bit pattern.
#[derive(Clone, Copy, Debug, PartialEq, Eq, Structural)]
pub struct Binary64 {
    pub bits: u64,
}

impl Binary64 {
    /// The sign bit is set.
    pub open spec fn is_negative(self) -> bool {
        self.bits >= SIGN_BIT
    }

    /// The pattern without its sign bit.
    pub open spec fn magnitude(self) -> nat {
        if self.bits >= SIGN_BIT {
            (self.bits - SIGN_BIT) as nat
        } else {
            self.bits as nat
        }
    }

    /// The pattern encodes no number.
    pub open spec fn is_nan(self) -> bool {
        self.magnitude() > INFINITY_BITS
    }

    /// The pattern encodes positive or negative infinity.
    pub open spec fn is_infinite(self) -> bool {
        self.magnitude() == INFINITY_BITS
    }

    /// The eleven exponent bits.
    pub open spec fn exponent_field(self) -> nat {
        self.magnitude() / (FRACTION_SPAN as nat)
    }

    /// The fifty-two fraction bits.
    pub open spec fn fraction_field(self) -> nat {
        self.magnitude() % (FRACTION_SPAN as nat)
    }

    /// The significand of a finite pattern: the fraction bits, with the
    /// implicit leading bit unless the pattern is subnormal.
    pub open spec fn significand(self) -> nat {
        if self.exponent_field() == 0 {
            self.fraction_field()
        } else {
            FRACTION_SPAN as nat + self.fraction_field()
        }
    }

    /// The exponent field that scales the significand: a subnormal pattern
    /// is scaled as the smallest normal one.
    pub open spec fn scale_field(self) -> nat {
        if self.exponent_field() == 0 {
            1
        } else {
            self.exponent_field()
        }
    }

    /// An integer that orders the patterns other than NaN as the numbers
    /// they encode: both zeros share rank zero, and the magnitude of a
    /// pattern grows with the magnitude of its number.
    pub open spec fn rank(self) -> int {
        if self.is_negative() {
            -(self.magnitude() as int)
        } else {
            self.magnitude() as int
        }
    }

    /// The encoded number is greater than zero. False for NaN.
    pub open spec fn is_positive(self) -> bool {
        !self.is_nan() && self.rank() > 0
    }

    /// The encoded number is less than that of `other`. False if either is NaN.
    pub open spec fn is_below(self, other: Binary64) -> bool {
        !self.is_nan() && !other.is_nan() && self.rank() < other.rank()
    }

    /// The largest whole number that does not exceed the absolute value of a
    /// finite pattern, whose number is
    /// `significand * 2^(scale_field - 1075)`.
    pub open spec fn whole_part(self) -> nat {
        if self.scale_field() >= EXPONENT_OF_UNIT_STEP {
            self.significand() * pow2((self.scale_field() - EXPONENT_OF_UNIT_STEP) as nat)
        } else {
            self.significand() / pow2((EXPONENT_OF_UNIT_STEP - self.scale_field()) as nat)
        }
    }

    /// The number of whole steps that the encoded number holds: its floor,
    /// held to the range of `usize`. NaN and the numbers below one hold
    /// none; positive infinity and the numbers beyond the range hold
    /// `usize::MAX`.
    pub open spec fn step_count(self) -> nat {
        if self.is_nan() || self.is_negative() {
            0
        } else if self.is_infinite() || self.whole_part() > usize::MAX {
            usize::MAX as nat
        } else {
            self.whole_part()
        }
    }

    /// Wraps a bit pattern.
    pub fn from_bits(bits: u64) -> (r: Binary64)
        ensures
            r.bits == bits,
    {
        Binary64 { bits }
    }

    /// Whether the encoded number is greater than zero.
    pub fn exceeds_zero(self) -> (r: bool)
        ensures
            r == self.is_positive(),
    {
        0 < self.bits && self.bits <= INFINITY_BITS
    }

    /// Whether the encoded number is less than that of `other`.
    pub fn lies_below(self, other: Binary64) -> (r: bool)
        ensures
            r == self.is_below(other),
    {
        let (self_negative, self_magnitude) = split_sign(self.bits);
        let (other_negative, other_magnitude) = split_sign(other.bits);
        if self_magnitude > INFINITY_BITS || other_magnitude > INFINITY_BITS {
            false
        } else if self_negative {
            if other_negative {
                other_magnitude < self_magnitude
            } else {
                self_magnitude > 0 || other_magnitude > 0
            }
        } else {
            !other_negative && self_magnitude < other_magnitude
        }
    }

    /// The number of whole steps that the encoded number holds.
    pub fn to_step_count(self) -> (n: usize)
        ensures
            n == self.step_count(),
    {
        let bits: u64 = self.bits;
        if bits >= SIGN_BIT || bits > INFINITY_BITS {
            return 0;
        }
        if bits == INFINITY_BITS {
            return usize::MAX;
        }
        let exponent: u64 = bits / FRACTION_SPAN;
        let fraction: u64 = bits % FRACTION_SPAN;
        proof {
            lemma2_to64();
            lemma2_to64_rest();
            assert(exponent < 0x7FF);
        }
        if exponent < EXPONENT_BIAS {
            proof {
                lemma_small_patterns_hold_no_step(self);
            }
            return 0;
        }
        let significand: u64 = FRACTION_SPAN + fraction;
        if exponent >= EXPONENT_OF_UNIT_STEP {
            let shift: u64 = exponent - EXPONENT_OF_UNIT_STEP;
            if shift > 11 {
                proof {
                    if shift > 12 {
                        lemma_pow2_strictly_increases(12, shift as nat);
                    }
                    assert(significand * pow2(shift as nat) >= 0x10_0000_0000_0000 * 0x1000)
                        by (nonlinear_arith)
                        requires
                            significand >= 0x10_0000_0000_0000,
                            pow2(shift as nat) >= 0x1000,
                    ;
                }
                return usize::MAX;
            }
            let factor: u64 = power_of_two(shift);
            proof {
                if shift < 11 {
                    lemma_pow2_strictly_increases(shift as nat, 11);
                }
                assert(significand * factor <= 0x1F_FFFF_FFFF_FFFF * 0x800) by (nonlinear_arith)
                    requires
                        significand <= 0x1F_FFFF_FFFF_FFFF,
                        factor <= 0x800,
                ;
            }
            clamp_to_usize(significand * factor)
        } else {
            let shift: u64 = EXPONENT_OF_UNIT_STEP - exponent;
            let divisor: u64 = power_of_two(shift);
            proof {
                lemma_pow2_pos(shift as nat);
            }
            clamp_to_usize(significand / divisor)
        }
    }
}

impl Binary64 {
    /// The pattern encodes a number: it is neither NaN nor an infinity.
    pub open spec fn is_finite(self) -> bool {
        self.magnitude() < INFINITY_BITS
    }

    /// The absolute value of the number of a finite pattern, in units of the
    /// smallest positive number, `2^-1074`.
    pub open spec fn scaled_magnitude(self) -> nat {
        self.significand() * pow2((self.scale_field() - 1) as nat)
    }
}

/// The whole part of a finite pattern is the floor of the absolute value of
/// its number: from exponent field 1075 on the number is whole; below, it
/// lies between its whole part and the next whole number.
pub proof fn lemma_whole_part_is_floor(x: Binary64)
    requires
        x.is_finite(),
    ensures
        x.scale_field() >= EXPONENT_OF_UNIT_STEP ==> x.whole_part() == x.significand() * pow2(
            (x.scale_field() - EXPONENT_OF_UNIT_STEP) as nat,
        ),
        x.scale_field() < EXPONENT_OF_UNIT_STEP ==> {
            let unit = pow2((EXPONENT_OF_UNIT_STEP - x.scale_field()) as nat);
            x.whole_part() * unit <= x.significand() < (x.whole_part() + 1) * unit
        },
{
    if x.scale_field() < EXPONENT_OF_UNIT_STEP {
        let shift = (EXPONENT_OF_UNIT_STEP - x.scale_field()) as nat;
        let unit = pow2(shift) as int;
        let m = x.significand() as int;
        lemma_pow2_pos(shift);
        vstd::arithmetic::div_mod::lemma_fundamental_div_mod(m, unit);
        vstd::arithmetic::div_mod::lemma_mod_bound(m, unit);
        let whole = m / unit;
        assert(whole * unit <= m < (whole + 1) * unit) by (nonlinear_arith)
            requires
                m == unit * whole + m % unit,
                0 <= m % unit < unit,
        ;
    }
}

/// Among finite patterns the magnitude of the pattern grows with the
/// absolute value of the number, so that `rank` orders patterns as their
/// numbers are ordered.
pub proof fn lemma_magnitude_orders_numbers(x: Binary64, y: Binary64)
    requires
        x.is_finite(),
        y.is_finite(),
    ensures
        x.magnitude() < y.magnitude() <==> x.scaled_magnitude() < y.scaled_magnitude(),
        x.magnitude() == y.magnitude() <==> x.scaled_magnitude() == y.scaled_magnitude(),
{
    if x.magnitude() < y.magnitude() {
        lemma_scaled_magnitude_grows(x, y);
    } else if y.magnitude() < x.magnitude() {
        lemma_scaled_magnitude_grows(y, x);
    }
}

/// A finite pattern of smaller magnitude encodes a number of smaller
/// absolute value.
proof fn lemma_scaled_magnitude_grows(x: Binary64, y: Binary64)
    requires
        x.is_finite(),
        y.is_finite(),
        x.magnitude() < y.magnitude(),
    ensures
        x.scaled_magnitude() < y.scaled_magnitude(),
{
    let span = FRACTION_SPAN as int;
    let (ex, fx) = (x.exponent_field() as int, x.fraction_field() as int);
    let (ey, fy) = (y.exponent_field() as int, y.fraction_field() as int);
    let (sx, sy) = (x.scale_field(), y.scale_field());
    let (mx, my) = (x.significand() as int, y.significand() as int);
    vstd::arithmetic::div_mod::lemma_fundamental_div_mod(x.magnitude() as int, span);
    vstd::arithmetic::div_mod::lemma_fundamental_div_mod(y.magnitude() as int, span);
    assert(ex <= ey) by (nonlinear_arith)
        requires
            span * ex + fx < span * ey + fy,
            0 <= fx < span,
            0 <= fy < span,
    ;
    let px = pow2((sx - 1) as nat) as int;
    let py = pow2((sy - 1) as nat) as int;
    lemma_pow2_pos((sx - 1) as nat);
    lemma_pow2_pos((sy - 1) as nat);
    if sx == sy {
        assert(mx < my);
        assert(mx * px < my * px) by (nonlinear_arith)
            requires
                mx < my,
                px > 0,
        ;
    } else {
        assert(sx < sy);
        assert(my >= span);
        assert(mx < 2 * span);
        lemma_pow2_adds((sx - 1) as nat, 1);
        lemma2_to64();
        assert(pow2(sx) == 2 * px);
        if sx < sy - 1 {
            lemma_pow2_strictly_increases(sx, (sy - 1) as nat);
        }
        assert(2 * px <= py);
        assert(mx * px < my * py) by (nonlinear_arith)
            requires
                0 <= mx < 2 * span,
                my >= span,
                0 < px,
                2 * px <= py,
                span > 0,
        ;
    }
}

/// A pattern whose exponent field lies below the bias encodes a number
/// below one.
proof fn lemma_small_patterns_hold_no_step(x: Binary64)
    requires
        !x.is_negative(),
        x.exponent_field() < EXPONENT_BIAS,
    ensures
        x.whole_part() == 0,
{
    lemma2_to64_rest();
    let shift = (EXPONENT_OF_UNIT_STEP - x.scale_field()) as nat;
    assert(shift >= 53);
    if shift > 53 {
        lemma_pow2_strictly_increases(53, shift);
    }
    assert(x.significand() < pow2(shift));
    vstd::arithmetic::div_mod::lemma_basic_div(x.significand() as int, pow2(shift) as int);
}

/// Parts a pattern into its sign bit and its magnitude.
fn split_sign(bits: u64) -> (r: (bool, u64))
    ensures
        r.0 == (Binary64 { bits }).is_negative(),
        r.1 == (Binary64 { bits }).magnitude(),
{
    if bits >= SIGN_BIT {
        (true, bits - SIGN_BIT)
    } else {
        (false, bits)
    }
}

/// Two to the power `exponent`.
fn power_of_two(exponent: u64) -> (r: u64)
    requires
        exponent < 64,
    ensures
        r == pow2(exponent as nat),
{
    let mut power: u64 = 1;
    let mut done: u64 = 0;
    proof {
        lemma2_to64();
    }
    while done < exponent
        invariant
            done <= exponent < 64,
            power == pow2(done as nat),
        decreases exponent - done,
    {
        proof {
            lemma_pow2_adds(done as nat, 1);
            lemma2_to64();
            lemma2_to64_rest();
            if done + 1 < 63 {
                lemma_pow2_strictly_increases((done + 1) as nat, 63);
            }
        }
        power = power * 2;
        done = done + 1;
    }
    power
}

/// The value, or `usize::MAX` where it lies beyond the range of `usize`.
fn clamp_to_usize(value: u64) -> (n: usize)
    ensures
        n == if value > usize::MAX { usize::MAX as nat } else { value as nat },
{
    if value > usize::MAX as u64 {
        usize::MAX
    } else {
        value as usize
    }
}

} // verus!
