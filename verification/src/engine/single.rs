//! Single-precision values by their bit patterns.

use vstd::arithmetic::power2::{
    lemma2_to64, lemma2_to64_rest, lemma_pow2_adds, lemma_pow2_pos, lemma_pow2_strictly_increases,
    pow2,
};
use vstd::prelude::*;

verus! {

/// An IEEE 754 single-precision value, by its bit pattern. The library orders and
/// classifies such values; arithmetic on them belongs to its callers.
///
/// `==` compares values: the two zeros are equal, and a NaN equals nothing. In contracts,
/// `==` is sameness of the bit pattern.
#[derive(Clone, Copy, Debug)]
pub struct Single {
    pub bits: u32,
}

/// The bit pattern of positive infinity, and of every magnitude's upper bound.
pub const INFINITY_BITS: u32 = 0x7F80_0000;

/// The sign bit.
pub const SIGN_BIT: u32 = 0x8000_0000;

/// The bit pattern of one.
pub const ONE_BITS: u32 = 0x3F80_0000;

/// The bit pattern of the NaN that narrowing gives.
pub const NAN_BITS: u32 = 0x7FC0_0000;

/// The sign bit of a double-precision bit pattern.
pub const DOUBLE_SIGN_BIT: u64 = 0x8000_0000_0000_0000;

/// The first double-precision magnitude that is not finite, as bits.
pub const DOUBLE_INFINITY_BITS: u64 = 0x7FF0_0000_0000_0000;

/// Two to the power of 52: one step of a double's exponent field.
pub const DOUBLE_EXPONENT_UNIT: u64 = 0x10_0000_0000_0000;

/// Two to the power of 23: one step of a single's exponent field.
pub const EXPONENT_UNIT: u32 = 0x80_0000;

/// The quotient of `n` by `d`, rounded to the nearest integer, a tie to the even one.
pub open spec fn nearest_even(n: int, d: int) -> int {
    let quotient = n / d;
    let rest = n % d;
    if 2 * rest < d || (2 * rest == d && quotient % 2 == 0) {
        quotient
    } else {
        quotient + 1
    }
}

/// The exponent field of a finite double, with the lowest one for subnormal values.
pub open spec fn double_exponent(magnitude: int) -> int {
    let field = magnitude / DOUBLE_EXPONENT_UNIT as int;
    if field == 0 {
        1
    } else {
        field
    }
}

/// The significand of a finite double: its value is this times two to the power of its
/// exponent field less 1075.
pub open spec fn double_significand(magnitude: int) -> int {
    let fraction = magnitude % DOUBLE_EXPONENT_UNIT as int;
    if magnitude / DOUBLE_EXPONENT_UNIT as int == 0 {
        fraction
    } else {
        DOUBLE_EXPONENT_UNIT + fraction
    }
}

/// The bits of the single nearest to a double's magnitude, a tie to the even significand.
///
/// A single's exponent field is a double's less 896, and its significand is shorter by 29
/// bits. Below the field 1 a single keeps one fixed unit, so more bits go. A significand
/// that rounds up to a whole exponent step carries into the field, up to infinity.
pub open spec fn narrowed_magnitude(magnitude: int) -> int {
    let exponent = double_exponent(magnitude) - 896;
    if magnitude > DOUBLE_INFINITY_BITS {
        NAN_BITS as int
    } else if exponent >= 255 {
        INFINITY_BITS as int
    } else if exponent >= 1 {
        (exponent - 1) * EXPONENT_UNIT + nearest_even(
            double_significand(magnitude),
            pow2(29) as int,
        )
    } else {
        nearest_even(double_significand(magnitude), pow2((30 - exponent) as nat) as int)
    }
}

/// The bits of the single that a double narrows to.
pub open spec fn narrowed_bits(double: u64) -> int {
    if double < DOUBLE_SIGN_BIT {
        narrowed_magnitude(double as int)
    } else {
        SIGN_BIT + narrowed_magnitude(double - DOUBLE_SIGN_BIT)
    }
}

proof fn lemma_nearest_even_bounds(n: int, d: int, top: int)
    requires
        d > 0,
        0 <= n <= top * d,
    ensures
        0 <= nearest_even(n, d) <= top,
{
    assert(0 <= n / d && n == d * (n / d) + n % d && 0 <= n % d < d) by (nonlinear_arith)
        requires
            d > 0,
            0 <= n,
    ;
    let quotient = n / d;
    let rest = n % d;
    assert(quotient <= top && (quotient == top ==> rest == 0)) by (nonlinear_arith)
        requires
            d > 0,
            n == d * quotient + rest,
            0 <= rest,
            n <= top * d,
    ;
}

impl Single {
    /// The bits without the sign.
    pub open spec fn magnitude(self) -> int {
        if self.bits < SIGN_BIT {
            self.bits as int
        } else {
            self.bits - SIGN_BIT
        }
    }

    /// Whether the value is neither infinite nor a NaN.
    pub open spec fn finite(self) -> bool {
        self.magnitude() < INFINITY_BITS
    }

    /// Whether the value is a number, infinities among them.
    pub open spec fn number(self) -> bool {
        self.magnitude() <= INFINITY_BITS
    }

    /// An integer that orders numbers as their values do; both zeros have the key zero.
    pub open spec fn key(self) -> int {
        if self.bits < SIGN_BIT {
            self.magnitude()
        } else {
            -self.magnitude()
        }
    }

    /// Whether this number is at least the other; false where either is a NaN.
    pub open spec fn at_least(self, other: Single) -> bool {
        self.number() && other.number() && self.key() >= other.key()
    }

    /// Whether this number is greater than the other; false where either is a NaN.
    pub open spec fn above(self, other: Single) -> bool {
        self.number() && other.number() && self.key() > other.key()
    }

    /// Whether both are numbers of the same value.
    pub open spec fn equals(self, other: Single) -> bool {
        self.number() && other.number() && self.key() == other.key()
    }

    #[must_use]
    pub fn from_bits(bits: u32) -> (r: Self)
        ensures
            r.bits == bits,
    {
        Single { bits }
    }

    /// The single nearest to a double-precision value, given by its bit pattern.
    #[must_use]
    pub fn narrowed(double: u64) -> (r: Self)
        ensures
            r.bits == narrowed_bits(double),
    {
        let negative = double >= DOUBLE_SIGN_BIT;
        let magnitude: u64 = if negative {
            double - DOUBLE_SIGN_BIT
        } else {
            double
        };
        let bits: u32 = if magnitude > DOUBLE_INFINITY_BITS {
            NAN_BITS
        } else {
            Self::narrow_number(magnitude)
        };
        Single {
            bits: if negative {
                SIGN_BIT + bits
            } else {
                bits
            },
        }
    }

    fn narrow_number(magnitude: u64) -> (r: u32)
        requires
            magnitude <= DOUBLE_INFINITY_BITS,
        ensures
            r == narrowed_magnitude(magnitude as int),
            r <= INFINITY_BITS,
    {
        let field: u64 = magnitude / DOUBLE_EXPONENT_UNIT;
        let fraction: u64 = magnitude % DOUBLE_EXPONENT_UNIT;
        let exponent: u64 = if field == 0 {
            1
        } else {
            field
        };
        let significand: u64 = if field == 0 {
            fraction
        } else {
            DOUBLE_EXPONENT_UNIT + fraction
        };
        if exponent >= 896 + 255 {
            return INFINITY_BITS;
        }
        proof {
            lemma2_to64();
            lemma2_to64_rest();
        }
        if exponent >= 896 + 1 {
            let rounded: u64 = Self::rounded(significand, 29);
            proof {
                lemma_nearest_even_bounds(significand as int, pow2(29) as int, 0x100_0000);
            }
            return (exponent as u32 - 897) * EXPONENT_UNIT + rounded as u32;
        }
        let shift: u64 = 926 - exponent;
        proof {
            lemma_pow2_pos(shift as nat);
            if shift > 30 {
                lemma_pow2_strictly_increases(30, shift as nat);
            }
        }
        if shift > 60 {
            proof {
                if shift > 61 {
                    lemma_pow2_strictly_increases(61, shift as nat);
                }
                let d = pow2(shift as nat) as int;
                assert(significand as int / d == 0 && significand as int % d == significand)
                    by (nonlinear_arith)
                    requires
                        0 <= significand < d,
                ;
            }
            return 0;
        }
        let rounded: u64 = Self::rounded(significand, shift);
        proof {
            lemma_nearest_even_bounds(significand as int, pow2(shift as nat) as int, 0x80_0000);
        }
        rounded as u32
    }

    /// `significand` over two to the power of `shift`, to the nearest integer.
    fn rounded(significand: u64, shift: u64) -> (r: u64)
        requires
            significand < 2 * DOUBLE_EXPONENT_UNIT,
            shift <= 60,
        ensures
            r == nearest_even(significand as int, pow2(shift as nat) as int),
    {
        proof {
            lemma2_to64();
            lemma2_to64_rest();
            lemma_pow2_pos(shift as nat);
        }
        let mut unit: u64 = 1;
        let mut count: u64 = 0;
        while count < shift
            invariant
                count <= shift <= 60,
                unit == pow2(count as nat),
            decreases shift - count,
        {
            proof {
                lemma2_to64();
                lemma2_to64_rest();
                lemma_pow2_strictly_increases(count as nat, 60);
                lemma_pow2_adds(count as nat, 1);
            }
            unit = unit * 2;
            count += 1;
        }
        proof {
            if shift < 60 {
                lemma_pow2_strictly_increases(shift as nat, 60);
            }
        }
        let quotient: u64 = significand / unit;
        let rest: u64 = significand % unit;
        assert(quotient <= significand) by (nonlinear_arith)
            requires
                quotient == significand / unit,
                unit > 0,
        ;
        if 2 * rest < unit || (2 * rest == unit && quotient % 2 == 0) {
            quotient
        } else {
            quotient + 1
        }
    }

    #[must_use]
    pub fn is_finite(self) -> (r: bool)
        ensures
            r == self.finite(),
    {
        if self.bits < SIGN_BIT {
            self.bits < INFINITY_BITS
        } else {
            self.bits - SIGN_BIT < INFINITY_BITS
        }
    }

    #[must_use]
    pub fn is_number(self) -> (r: bool)
        ensures
            r == self.number(),
    {
        if self.bits < SIGN_BIT {
            self.bits <= INFINITY_BITS
        } else {
            self.bits - SIGN_BIT <= INFINITY_BITS
        }
    }

    #[must_use]
    pub fn order_key(self) -> (r: i64)
        ensures
            r == self.key(),
    {
        if self.bits < SIGN_BIT {
            self.bits as i64
        } else {
            SIGN_BIT as i64 - self.bits as i64
        }
    }

    #[must_use]
    pub fn is_at_least(self, other: Single) -> (r: bool)
        ensures
            r == self.at_least(other),
    {
        self.is_number() && other.is_number() && self.order_key() >= other.order_key()
    }

    #[must_use]
    pub fn is_above(self, other: Single) -> (r: bool)
        ensures
            r == self.above(other),
    {
        self.is_number() && other.is_number() && self.order_key() > other.order_key()
    }
}

impl PartialEq for Single {
    fn eq(&self, other: &Self) -> (r: bool) {
        self.is_number() && other.is_number() && self.order_key() == other.order_key()
    }
}

impl vstd::std_specs::cmp::PartialEqSpecImpl for Single {
    open spec fn obeys_eq_spec() -> bool {
        true
    }

    open spec fn eq_spec(&self, other: &Self) -> bool {
        self.equals(*other)
    }
}

/// Equality of values is what the order makes of it: neither of two numbers above the other.
/// It is symmetric, and reflexive but for a NaN.
pub proof fn law_equal_values_are_not_apart(a: Single, b: Single)
    ensures
        a.equals(b) <==> a.at_least(b) && b.at_least(a),
        a.equals(b) <==> b.equals(a),
        a.equals(a) <==> a.number(),
        a.equals(b) ==> !a.above(b) && !b.above(a),
{
}

proof fn lemma_narrowed_magnitude_fits(magnitude: int)
    requires
        0 <= magnitude < DOUBLE_SIGN_BIT,
    ensures
        0 <= narrowed_magnitude(magnitude) <= NAN_BITS,
{
    lemma2_to64();
    lemma2_to64_rest();
    let exponent = double_exponent(magnitude) - 896;
    let significand = double_significand(magnitude);
    if magnitude <= DOUBLE_INFINITY_BITS && exponent < 255 {
        if exponent >= 1 {
            lemma_nearest_even_bounds(significand, pow2(29) as int, 0x100_0000);
        } else {
            let shift = (30 - exponent) as nat;
            lemma_pow2_pos(shift);
            if shift > 30 {
                lemma_pow2_strictly_increases(30, shift);
            }
            lemma_nearest_even_bounds(significand, pow2(shift) as int, 0x80_0000);
        }
    }
}

/// Every double narrows to a bit pattern of a single, and the sign stays.
pub proof fn law_narrowing_keeps_the_sign(double: u64)
    ensures
        0 <= narrowed_bits(double) <= u32::MAX,
        narrowed_bits(double) < SIGN_BIT <==> double < DOUBLE_SIGN_BIT,
{
    if double < DOUBLE_SIGN_BIT {
        lemma_narrowed_magnitude_fits(double as int);
    } else {
        lemma_narrowed_magnitude_fits(double - DOUBLE_SIGN_BIT);
    }
}

/// Rounding goes to a nearest integer: none is nearer, and of two that are equally near the
/// even one is taken.
pub proof fn law_rounding_is_to_the_nearest(n: int, d: int)
    requires
        d > 0,
        n >= 0,
    ensures
        2 * (d * nearest_even(n, d) - n) <= d,
        2 * (n - d * nearest_even(n, d)) <= d,
        2 * (d * nearest_even(n, d) - n) == d || 2 * (n - d * nearest_even(n, d)) == d
            ==> nearest_even(n, d) % 2 == 0,
{
    let quotient = n / d;
    let rest = n % d;
    assert(n == d * quotient + rest && 0 <= rest < d) by (nonlinear_arith)
        requires
            d > 0,
            quotient == n / d,
            rest == n % d,
    ;
    assert(d * (quotient + 1) == d * quotient + d) by (nonlinear_arith);
}

/// The value of a finite magnitude, in units of the smallest positive single.
pub open spec fn magnitude_units(magnitude: int) -> int {
    let field = magnitude / EXPONENT_UNIT as int;
    let fraction = magnitude % EXPONENT_UNIT as int;
    if field <= 0 {
        fraction
    } else {
        (EXPONENT_UNIT + fraction) * pow2((field - 1) as nat)
    }
}

impl Single {
    /// The value of a finite number, in units of the smallest positive one.
    pub open spec fn units(self) -> int {
        if self.bits < SIGN_BIT {
            magnitude_units(self.bits as int)
        } else {
            -magnitude_units(self.bits - SIGN_BIT)
        }
    }
}

proof fn lemma_units_step(magnitude: int)
    requires
        0 <= magnitude,
    ensures
        0 <= magnitude_units(magnitude) < magnitude_units(magnitude + 1),
{
    let unit = EXPONENT_UNIT as int;
    let field = magnitude / unit;
    let fraction = magnitude % unit;
    if field == 0 {
        if fraction + 1 == unit {
            lemma2_to64();
            assert((magnitude + 1) / unit == 1 && (magnitude + 1) % unit == 0);
            assert(unit * pow2(0) == unit) by (nonlinear_arith)
                requires
                    pow2(0) == 1,
            ;
        } else {
            assert((magnitude + 1) / unit == 0 && (magnitude + 1) % unit == fraction + 1);
        }
    } else {
        let p = pow2((field - 1) as nat) as int;
        lemma_pow2_pos((field - 1) as nat);
        if fraction + 1 < unit {
            assert((magnitude + 1) / unit == field && (magnitude + 1) % unit == fraction + 1);
            assert((unit + fraction) * p < (unit + fraction + 1) * p) by (nonlinear_arith)
                requires
                    p > 0,
            ;
        } else {
            assert((magnitude + 1) / unit == field + 1 && (magnitude + 1) % unit == 0);
            lemma_pow2_adds((field - 1) as nat, 1);
            lemma2_to64();
            assert(pow2(field as nat) == 2 * p);
            assert((unit + fraction) * p < unit * (2 * p)) by (nonlinear_arith)
                requires
                    p > 0,
                    fraction < unit,
            ;
        }
        assert(0 <= (unit + fraction) * p) by (nonlinear_arith)
            requires
                p > 0,
                unit >= 0,
                fraction >= 0,
        ;
    }
}

proof fn lemma_units_increase(low: int, high: int)
    requires
        0 <= low <= high,
    ensures
        0 <= magnitude_units(low) <= magnitude_units(high),
        low < high ==> magnitude_units(low) < magnitude_units(high),
    decreases high - low,
{
    lemma_units_step(low);
    if low < high {
        lemma_units_increase(low + 1, high);
    }
}

/// Finite numbers compare as their values do; the two zeros are equal.
pub proof fn law_comparison_is_of_values(a: Single, b: Single)
    requires
        a.finite(),
        b.finite(),
    ensures
        a.at_least(b) <==> a.units() >= b.units(),
        a.above(b) <==> a.units() > b.units(),
        a.equals(b) <==> a.units() == b.units(),
{
    lemma_units_increase(0, a.magnitude());
    lemma_units_increase(0, b.magnitude());
    if a.magnitude() <= b.magnitude() {
        lemma_units_increase(a.magnitude(), b.magnitude());
    } else {
        lemma_units_increase(b.magnitude(), a.magnitude());
    }
}

/// A NaN compares as nothing, and an infinity is beyond every finite number.
pub proof fn law_extremes(a: Single, b: Single)
    ensures
        a.bits == INFINITY_BITS && b.finite() ==> a.above(b) && !b.at_least(a),
        a.bits == SIGN_BIT + INFINITY_BITS && b.finite() ==> b.above(a) && !a.at_least(b),
        INFINITY_BITS < a.bits < SIGN_BIT || a.bits > SIGN_BIT + INFINITY_BITS ==> !a.at_least(b)
            && !b.at_least(a) && !a.above(b) && !b.above(a) && !a.equals(b),
{
}

/// The value of a finite double's magnitude, in units of the smallest positive double.
pub open spec fn double_units(magnitude: int) -> int {
    let field = magnitude / DOUBLE_EXPONENT_UNIT as int;
    let fraction = magnitude % DOUBLE_EXPONENT_UNIT as int;
    if field <= 0 {
        fraction
    } else {
        (DOUBLE_EXPONENT_UNIT + fraction) * pow2((field - 1) as nat)
    }
}

/// The distance between neighbouring singles around a double's magnitude, in units of the
/// smallest positive double.
pub open spec fn single_spacing(magnitude: int) -> int {
    let field = magnitude / DOUBLE_EXPONENT_UNIT as int;
    if field >= 897 {
        (pow2((field - 897) as nat) * pow2(925)) as int
    } else {
        pow2(925) as int
    }
}

proof fn lemma_scaled_distance(n: int, d: int, scale: int)
    requires
        d > 0,
        n >= 0,
        scale > 0,
    ensures
        2 * (nearest_even(n, d) * (d * scale) - n * scale) <= d * scale,
        2 * (n * scale - nearest_even(n, d) * (d * scale)) <= d * scale,
        2 * (nearest_even(n, d) * (d * scale) - n * scale) == d * scale || 2 * (n * scale
            - nearest_even(n, d) * (d * scale)) == d * scale ==> nearest_even(n, d) % 2 == 0,
{
    law_rounding_is_to_the_nearest(n, d);
    let q = nearest_even(n, d);
    assert(q * (d * scale) == (d * q) * scale) by (nonlinear_arith);
    assert(2 * ((d * q) * scale - n * scale) == (2 * (d * q - n)) * scale) by (nonlinear_arith);
    assert(2 * (n * scale - (d * q) * scale) == (2 * (n - d * q)) * scale) by (nonlinear_arith);
    assert((2 * (d * q - n)) * scale <= d * scale) by (nonlinear_arith)
        requires
            2 * (d * q - n) <= d,
            scale > 0,
    ;
    assert((2 * (n - d * q)) * scale <= d * scale) by (nonlinear_arith)
        requires
            2 * (n - d * q) <= d,
            scale > 0,
    ;
    if (2 * (d * q - n)) * scale == d * scale {
        assert(2 * (d * q - n) == d) by (nonlinear_arith)
            requires
                (2 * (d * q - n)) * scale == d * scale,
                scale > 0,
        ;
    }
    if (2 * (n - d * q)) * scale == d * scale {
        assert(2 * (n - d * q) == d) by (nonlinear_arith)
            requires
                (2 * (n - d * q)) * scale == d * scale,
                scale > 0,
        ;
    }
}

proof fn lemma_double_value(magnitude: int)
    requires
        0 <= magnitude < DOUBLE_INFINITY_BITS,
    ensures
        double_units(magnitude) == double_significand(magnitude) * pow2(
            (double_exponent(magnitude) - 1) as nat,
        ),
        0 <= double_significand(magnitude) < 2 * DOUBLE_EXPONENT_UNIT,
        1 <= double_exponent(magnitude) <= 2046,
        double_exponent(magnitude) > 1 ==> double_significand(magnitude) >= DOUBLE_EXPONENT_UNIT
            && double_exponent(magnitude) == magnitude / DOUBLE_EXPONENT_UNIT as int,
{
    lemma2_to64();
    let significand = double_significand(magnitude);
    assert(significand * pow2(0) == significand) by (nonlinear_arith)
        requires
            pow2(0) == 1,
    ;
}

/// Narrowing is to a nearest single: a double that is not beyond the singles narrows to one
/// that is at most half the distance of neighbouring singles away, and of two that are
/// equally near to the one with the even bit pattern. One beyond them narrows to an infinity.
pub proof fn law_narrowing_is_to_the_nearest(magnitude: int)
    requires
        0 <= magnitude < DOUBLE_INFINITY_BITS,
    ensures
        magnitude / DOUBLE_EXPONENT_UNIT as int >= 1151 ==> narrowed_magnitude(magnitude)
            == INFINITY_BITS,
        (magnitude / DOUBLE_EXPONENT_UNIT as int) < 1151 ==> {
            let narrowed = magnitude_units(narrowed_magnitude(magnitude)) * pow2(925);
            let spacing = single_spacing(magnitude);
            &&& 2 * (narrowed - double_units(magnitude)) <= spacing
            &&& 2 * (double_units(magnitude) - narrowed) <= spacing
            &&& 2 * (narrowed - double_units(magnitude)) == spacing || 2 * (double_units(magnitude)
                - narrowed) == spacing ==> narrowed_magnitude(magnitude) % 2 == 0
        },
{
    lemma2_to64();
    lemma2_to64_rest();
    lemma_double_value(magnitude);
    let field = double_exponent(magnitude);
    let exponent = field - 896;
    let significand = double_significand(magnitude);
    if exponent < 255 {
        if exponent >= 1 {
            let d = pow2(29) as int;
            let q = nearest_even(significand, d);
            let low = pow2((exponent - 1) as nat) as int;
            lemma_nearest_even_bounds(significand, d, 0x100_0000);
            law_rounding_is_to_the_nearest(significand, d);
            assert(q >= EXPONENT_UNIT) by (nonlinear_arith)
                requires
                    significand >= 0x10_0000_0000_0000,
                    d == 0x2000_0000,
                    2 * (significand - d * q) <= d,
            ;
            let bits = (exponent - 1) * EXPONENT_UNIT + q;
            assert(bits == narrowed_magnitude(magnitude));
            assert(bits % 2 == q % 2);
            lemma_pow2_adds((exponent - 1) as nat, 1);
            assert(magnitude_units(bits) == q * low) by {
                if q < 0x100_0000 {
                    assert(bits / EXPONENT_UNIT as int == exponent && bits % EXPONENT_UNIT as int
                        == q - EXPONENT_UNIT);
                } else {
                    assert(bits / EXPONENT_UNIT as int == exponent + 1 && bits
                        % EXPONENT_UNIT as int == 0);
                    assert(EXPONENT_UNIT * (low * 2) == 0x100_0000 * low) by (nonlinear_arith);
                }
            }
            lemma_pow2_adds(29, 896);
            lemma_pow2_adds((exponent - 1) as nat, 896);
            lemma_pow2_pos((exponent - 1) as nat);
            lemma_pow2_pos(896);
            let high = pow2(896) as int;
            let scale = low * high;
            assert(scale > 0) by (nonlinear_arith)
                requires
                    low > 0,
                    high > 0,
                    scale == low * high,
            ;
            assert(pow2((field - 1) as nat) == scale);
            assert(pow2(925) == d * high);
            assert((q * low) * (d * high) == q * (d * (low * high))) by (nonlinear_arith);
            assert(low * (d * high) == d * (low * high)) by (nonlinear_arith);
            lemma_scaled_distance(significand, d, scale);
        } else {
            let shift = (30 - exponent) as nat;
            let d = pow2(shift) as int;
            let scale = pow2((field - 1) as nat) as int;
            lemma_pow2_pos(shift);
            lemma_pow2_pos((field - 1) as nat);
            if shift > 30 {
                lemma_pow2_strictly_increases(30, shift);
            }
            let q = nearest_even(significand, d);
            lemma_nearest_even_bounds(significand, d, 0x80_0000);
            assert(magnitude_units(q) == q) by {
                if q == 0x80_0000 {
                    assert(q / EXPONENT_UNIT as int == 1 && q % EXPONENT_UNIT as int == 0);
                    assert(EXPONENT_UNIT * pow2(0) == EXPONENT_UNIT) by (nonlinear_arith)
                        requires
                            pow2(0) == 1,
                    ;
                } else {
                    assert(q / EXPONENT_UNIT as int == 0 && q % EXPONENT_UNIT as int == q);
                }
            }
            lemma_pow2_adds(shift, (field - 1) as nat);
            assert(pow2(925) == d * scale);
            lemma_scaled_distance(significand, d, scale);
        }
    }
}

} // verus!
