//! Conversions into double precision, on the bits of the IEEE 754 encodings.
use vstd::arithmetic::power2::lemma_pow2_adds;
use vstd::arithmetic::power2::lemma_pow2_pos;
use vstd::arithmetic::power2::lemma_pow2_strictly_increases;
use vstd::arithmetic::power2::lemma_pow2_unfold;
use vstd::arithmetic::power2::pow2;
use vstd::prelude::*;

verus! {

/// The bit that carries the sign of a double.
pub const DOUBLE_SIGN: u64 = 0x8000_0000_0000_0000;

/// The weight of the least bit of a double's exponent: two to the power of the fraction's width.
pub const DOUBLE_HIDDEN: u64 = 0x10_0000_0000_0000;

/// The bit that carries the sign of a single.
pub const SINGLE_SIGN: u32 = 0x8000_0000;

/// The weight of the least bit of a single's exponent.
pub const SINGLE_HIDDEN: u32 = 0x80_0000;

/// The biased exponent of a double.
pub open spec fn double_exponent(bits: u64) -> int {
    (bits as int % DOUBLE_SIGN as int) / DOUBLE_HIDDEN as int
}

/// The fraction of a double.
pub open spec fn double_fraction(bits: u64) -> int {
    bits as int % DOUBLE_HIDDEN as int
}

/// Whether a double is a number: not an infinity, and not a NaN.
pub open spec fn double_is_finite(bits: u64) -> bool {
    double_exponent(bits) < 2047
}

/// Whether a double is a NaN.
pub open spec fn double_is_nan(bits: u64) -> bool {
    double_exponent(bits) == 2047 && double_fraction(bits) != 0
}

/// The number that a finite double stands for, in units of the least positive double (two to the
/// power of -1074).
pub open spec fn double_value(bits: u64) -> int {
    let magnitude = if double_exponent(bits) == 0 {
        double_fraction(bits)
    } else {
        (DOUBLE_HIDDEN + double_fraction(bits)) * pow2((double_exponent(bits) - 1) as nat)
    };
    if bits < DOUBLE_SIGN {
        magnitude
    } else {
        -magnitude
    }
}

/// The biased exponent of a single.
pub open spec fn single_exponent(bits: u32) -> int {
    (bits as int % SINGLE_SIGN as int) / SINGLE_HIDDEN as int
}

/// The fraction of a single.
pub open spec fn single_fraction(bits: u32) -> int {
    bits as int % SINGLE_HIDDEN as int
}

/// The number that a finite single stands for, in units of the least positive single (two to the
/// power of -149).
pub open spec fn single_value(bits: u32) -> int {
    let magnitude = if single_exponent(bits) == 0 {
        single_fraction(bits)
    } else {
        (SINGLE_HIDDEN + single_fraction(bits)) * pow2((single_exponent(bits) - 1) as nat)
    };
    if bits < SINGLE_SIGN {
        magnitude
    } else {
        -magnitude
    }
}

/// The exponent of the greatest power of two that is not above a positive number.
pub open spec fn top_bit(n: int) -> nat
    decreases n,
{
    if n <= 1 {
        0
    } else {
        1 + top_bit(n / 2)
    }
}

/// A quotient rounded to the nearest whole number, and to the even one of two that are as near.
pub open spec fn rounded_quotient(n: int, divisor: int) -> int {
    let remainder = n % divisor;
    if 2 * remainder > divisor || (2 * remainder == divisor && (n / divisor) % 2 == 1) {
        n / divisor + 1
    } else {
        n / divisor
    }
}

/// The significand, hidden bit and all, of the double nearest to a positive whole number.
pub open spec fn significand_of(n: int) -> int {
    if top_bit(n) <= 52 {
        n * pow2((52 - top_bit(n)) as nat)
    } else {
        rounded_quotient(n, pow2((top_bit(n) - 52) as nat) as int)
    }
}

/// The bits, sign apart, of the double nearest to a positive whole number. A significand that
/// was rounded up to the next power of two carries into the exponent.
pub open spec fn magnitude_bits(n: int) -> int {
    (top_bit(n) + 1023) * DOUBLE_HIDDEN + (significand_of(n) - DOUBLE_HIDDEN)
}

/// The bits of the double nearest to a whole number, of two that are as near the even one.
pub open spec fn nearest_double(n: int) -> u64 {
    if n == 0 {
        0
    } else if n > 0 {
        magnitude_bits(n) as u64
    } else {
        (DOUBLE_SIGN + magnitude_bits(-n)) as u64
    }
}

/// The bits of the double that stands for the same number as a single.
pub open spec fn widened(bits: u32) -> u64 {
    let exponent = single_exponent(bits);
    let fraction = single_fraction(bits);
    let magnitude: int = if exponent == 255 {
        if fraction == 0 {
            0x7ff0_0000_0000_0000
        } else {
            0x7ff8_0000_0000_0000 + (fraction % 0x40_0000) * 0x2000_0000
        }
    } else if exponent > 0 {
        (exponent + 896) * DOUBLE_HIDDEN + fraction * 0x2000_0000
    } else if fraction > 0 {
        (top_bit(fraction) + 874) * DOUBLE_HIDDEN + (fraction * pow2(
            (52 - top_bit(fraction)) as nat,
        ) - DOUBLE_HIDDEN)
    } else {
        0
    };
    if bits < SINGLE_SIGN {
        magnitude as u64
    } else {
        (DOUBLE_SIGN + magnitude) as u64
    }
}

/// The exponent found by [`top_bit`] brackets its argument.
proof fn lemma_top_bit(n: int)
    requires
        n > 0,
    ensures
        pow2(top_bit(n)) <= n < pow2(top_bit(n) + 1),
    decreases n,
{
    if n == 1 {
        lemma_pow2_unfold(1);
        vstd::arithmetic::power2::lemma2_to64();
    } else {
        lemma_top_bit(n / 2);
        lemma_pow2_unfold(top_bit(n));
        lemma_pow2_unfold(top_bit(n) + 1);
    }
}

/// A number below a power of two has a lesser top bit.
proof fn lemma_top_bit_bound(n: int, exponent: nat)
    requires
        0 < n < pow2(exponent),
    ensures
        top_bit(n) < exponent,
{
    lemma_top_bit(n);
    if top_bit(n) >= exponent {
        if top_bit(n) > exponent {
            lemma_pow2_strictly_increases(exponent, top_bit(n));
        }
    }
}

/// The hidden bit as a power of two.
proof fn lemma_hidden_bits()
    ensures
        pow2(52) == DOUBLE_HIDDEN,
        pow2(53) == 2 * DOUBLE_HIDDEN,
        pow2(23) == SINGLE_HIDDEN,
        pow2(29) == 0x2000_0000,
        pow2(0) == 1,
{
    vstd::arithmetic::power2::lemma2_to64();
    vstd::arithmetic::power2::lemma2_to64_rest();
}

/// The quotient of a number by the power of two that leaves it 53 digits.
proof fn lemma_quotient(n: int)
    requires
        n > 0,
        top_bit(n) > 52,
    ensures
        pow2((top_bit(n) - 52) as nat) > 0,
        pow2(top_bit(n)) == DOUBLE_HIDDEN * pow2((top_bit(n) - 52) as nat),
        DOUBLE_HIDDEN <= n / (pow2((top_bit(n) - 52) as nat) as int) < 2 * DOUBLE_HIDDEN,
{
    let shift = (top_bit(n) - 52) as nat;
    let divisor = pow2(shift) as int;
    lemma_top_bit(n);
    lemma_hidden_bits();
    lemma_pow2_pos(shift);
    lemma_pow2_adds(52, shift);
    lemma_pow2_adds(53, shift);
    let hidden = DOUBLE_HIDDEN as int;
    assert(hidden <= n / divisor < 2 * hidden) by (nonlinear_arith)
        requires
            divisor > 0,
            hidden * divisor <= n < (2 * hidden) * divisor,
    ;
}

/// A significand fills its 53 digits, but for the one that was rounded up beyond them.
proof fn lemma_significand(n: int)
    requires
        n > 0,
    ensures
        DOUBLE_HIDDEN <= significand_of(n) <= 2 * DOUBLE_HIDDEN,
{
    if top_bit(n) <= 52 {
        let shift = (52 - top_bit(n)) as nat;
        let factor = pow2(shift) as int;
        let low = pow2(top_bit(n)) as int;
        lemma_top_bit(n);
        lemma_hidden_bits();
        lemma_pow2_pos(shift);
        lemma_pow2_adds(top_bit(n), shift);
        lemma_pow2_unfold(top_bit(n) + 1);
        assert(low * factor <= n * factor <= (2 * low) * factor) by (nonlinear_arith)
            requires
                factor > 0,
                low <= n < 2 * low,
        ;
        assert((2 * low) * factor == 2 * (low * factor)) by (nonlinear_arith);
    } else {
        lemma_quotient(n);
    }
}

/// The bits, sign apart, of the double nearest to a positive number.
fn magnitude_of(n: u64) -> (bits: u64)
    requires
        n > 0,
    ensures
        bits == magnitude_bits(n as int),
        bits < 0x7ff0_0000_0000_0000,
{
    proof {
        vstd::arithmetic::power2::lemma2_to64();
        lemma_top_bit(n as int);
        lemma_top_bit_bound(n as int, 64);
    }
    let mut top: u64 = 0;
    let mut rest: u64 = n;
    while rest > 1
        invariant
            rest > 0,
            top + top_bit(rest as int) == top_bit(n as int),
            top_bit(n as int) < 64,
        decreases rest,
    {
        rest = rest / 2;
        top = top + 1;
    }
    proof {
        lemma_significand(n as int);
        lemma_hidden_bits();
    }
    let significand: u64 = if top <= 52 {
        let mut shifted: u64 = n;
        let mut digits: u64 = top;
        assert(n * pow2((digits - top) as nat) == n) by (nonlinear_arith)
            requires
                pow2((digits - top) as nat) == 1,
        ;
        while digits < 52
            invariant
                top <= digits <= 52,
                shifted < pow2((digits + 1) as nat),
                shifted == n * pow2((digits - top) as nat),
            decreases 52 - digits,
        {
            proof {
                lemma_hidden_bits();
                lemma_pow2_strictly_increases((digits + 1) as nat, 53);
                lemma_pow2_unfold((digits + 2) as nat);
                lemma_pow2_unfold((digits - top + 1) as nat);
                let factor = pow2((digits - top) as nat) as int;
                assert(n * (2 * factor) == 2 * (n * factor)) by (nonlinear_arith);
            }
            shifted = 2 * shifted;
            digits = digits + 1;
        }
        shifted
    } else {
        let mut divisor: u64 = 1;
        let mut digits: u64 = 52;
        while digits < top
            invariant
                52 <= digits <= top < 64,
                divisor == pow2((digits - 52) as nat),
            decreases top - digits,
        {
            proof {
                lemma_hidden_bits();
                lemma_pow2_unfold((digits - 51) as nat);
                lemma_pow2_strictly_increases((digits - 52) as nat, 52);
            }
            divisor = 2 * divisor;
            digits = digits + 1;
        }
        proof {
            lemma_quotient(n as int);
        }
        let quotient = n / divisor;
        let remainder = n % divisor;
        if remainder > divisor - remainder || (remainder == divisor - remainder && quotient % 2
            == 1) {
            quotient + 1
        } else {
            quotient
        }
    };
    (top + 1023) * DOUBLE_HIDDEN + (significand - DOUBLE_HIDDEN)
}

/// The double nearest to an unsigned number.
pub fn double_from_unsigned(n: u64) -> (bits: u64)
    ensures
        bits == nearest_double(n as int),
{
    if n == 0 {
        0
    } else {
        magnitude_of(n)
    }
}

/// The double nearest to a signed number.
pub fn double_from_signed(n: i64) -> (bits: u64)
    ensures
        bits == nearest_double(n as int),
{
    if n >= 0 {
        double_from_unsigned(n as u64)
    } else {
        let magnitude: u64 = ((-(n + 1)) as u64) + 1;
        DOUBLE_SIGN + magnitude_of(magnitude)
    }
}

/// The double that stands for the same number as a single. A NaN gives a quiet NaN.
pub fn double_from_single(bits: u32) -> (wide: u64)
    ensures
        wide == widened(bits),
{
    let sign: u64 = if bits < SINGLE_SIGN {
        0
    } else {
        DOUBLE_SIGN
    };
    let exponent: u64 = ((bits % SINGLE_SIGN) / SINGLE_HIDDEN) as u64;
    let fraction: u64 = (bits % SINGLE_HIDDEN) as u64;
    if exponent == 255 {
        if fraction == 0 {
            sign + 0x7ff0_0000_0000_0000
        } else {
            sign + 0x7ff8_0000_0000_0000 + (fraction % 0x40_0000) * 0x2000_0000
        }
    } else if exponent > 0 {
        sign + (exponent + 896) * DOUBLE_HIDDEN + fraction * 0x2000_0000
    } else if fraction > 0 {
        proof {
            lemma_hidden_bits();
            lemma_top_bit_bound(fraction as int, 23);
        }
        sign + (magnitude_of(fraction) - 149 * DOUBLE_HIDDEN)
    } else {
        sign
    }
}

/// The distance between two numbers.
pub open spec fn distance(a: int, b: int) -> int {
    if a <= b {
        b - a
    } else {
        a - b
    }
}

/// Whether a double is what a whole number rounds to: no finite double is nearer to the number,
/// and if another one is as near, the fraction is even.
pub open spec fn rounds_to(n: int, bits: u64) -> bool {
    let exact = n * pow2(1074);
    &&& double_is_finite(bits)
    &&& forall|other: u64|
        #![trigger double_value(other)]
        double_is_finite(other) ==> {
            ||| distance(double_value(bits), exact) < distance(double_value(other), exact)
            ||| double_value(bits) == double_value(other)
            ||| distance(double_value(bits), exact) == distance(double_value(other), exact) && bits
                % 2 == 0
        }
}

/// Setting the sign bit of a double negates its number.
proof fn lemma_sign_negates(bits: u64)
    requires
        bits < DOUBLE_SIGN,
    ensures
        double_value((DOUBLE_SIGN + bits) as u64) == -double_value(bits),
        double_is_finite((DOUBLE_SIGN + bits) as u64) == double_is_finite(bits),
{
    let signed = (DOUBLE_SIGN + bits) as u64;
    assert(signed as int % DOUBLE_SIGN as int == bits as int % DOUBLE_SIGN as int);
    assert(signed as int % DOUBLE_HIDDEN as int == bits as int % DOUBLE_HIDDEN as int);
}

/// The number that the bits of a positive number's double stand for.
proof fn lemma_magnitude_value(n: int)
    requires
        0 < n <= u64::MAX,
    ensures
        0 <= magnitude_bits(n) < 0x7ff0_0000_0000_0000,
        double_is_finite(magnitude_bits(n) as u64),
        double_value(magnitude_bits(n) as u64) == significand_of(n) * pow2(top_bit(n) + 1022),
        magnitude_bits(n) % 2 == significand_of(n) % 2,
{
    let top = top_bit(n);
    let significand = significand_of(n);
    let bits = magnitude_bits(n);
    let hidden = DOUBLE_HIDDEN as int;
    vstd::arithmetic::power2::lemma2_to64();
    lemma_top_bit_bound(n, 64);
    lemma_significand(n);
    if significand < 2 * hidden {
        assert(bits / hidden == top + 1023 && bits % hidden == significand - hidden);
    } else {
        assert(bits / hidden == top + 1024 && bits % hidden == 0);
        lemma_pow2_unfold(top + 1023);
        let unit = pow2(top + 1022) as int;
        assert(hidden * (2 * unit) == (2 * hidden) * unit) by (nonlinear_arith);
    }
}

/// A finite double at or above a power of two (of at least the given size) is a whole multiple of
/// the step between the doubles there.
proof fn lemma_on_grid(bits: u64, top: nat)
    requires
        double_is_finite(bits),
        double_value(bits) >= pow2(top + 1074),
    ensures
        double_value(bits) % (pow2(top + 1022) as int) == 0,
{
    let hidden = DOUBLE_HIDDEN as int;
    let exponent = double_exponent(bits);
    let fraction = double_fraction(bits);
    lemma_hidden_bits();
    lemma_pow2_pos(top + 1074);
    lemma_pow2_pos(top + 1022);
    assert(bits < DOUBLE_SIGN) by {
        if bits >= DOUBLE_SIGN && exponent > 0 {
            let step = pow2((exponent - 1) as nat) as int;
            lemma_pow2_pos((exponent - 1) as nat);
            assert((hidden + fraction) * step >= 0) by (nonlinear_arith)
                requires
                    hidden + fraction >= 0,
                    step >= 0,
            ;
        }
    }
    if exponent == 0 {
        lemma_pow2_strictly_increases(52, top + 1074);
    } else {
        let step = pow2((exponent - 1) as nat) as int;
        lemma_pow2_pos((exponent - 1) as nat);
        lemma_pow2_adds(53, (exponent - 1) as nat);
        assert((hidden + fraction) * step < (2 * hidden) * step) by (nonlinear_arith)
            requires
                fraction < hidden,
                step > 0,
        ;
        if exponent + 52 <= top + 1074 {
            if exponent + 52 < top + 1074 {
                lemma_pow2_strictly_increases((exponent + 52) as nat, top + 1074);
            }
            assert(false);
        }
        let unit = pow2(top + 1022) as int;
        let factor = pow2((exponent - 1 - (top + 1022)) as nat) as int;
        lemma_pow2_adds(top + 1022, (exponent - 1 - (top + 1022)) as nat);
        assert((hidden + fraction) * step == unit * ((hidden + fraction) * factor))
            by (nonlinear_arith)
            requires
                step == unit * factor,
        ;
        vstd::arithmetic::div_mod::lemma_mod_multiples_basic((hidden + fraction) * factor, unit);
        assert(((hidden + fraction) * factor) * unit == unit * ((hidden + fraction) * factor))
            by (nonlinear_arith);
    }
}

/// No multiple of the divisor is nearer to a number than its rounded quotient times the divisor,
/// and where another one is as near, the rounded quotient is even.
proof fn lemma_rounded_is_nearest(n: int, divisor: int, other: int)
    requires
        n > 0,
        divisor > 0,
    ensures
        ({
            let rounded = rounded_quotient(n, divisor);
            ||| distance(rounded * divisor, n) < distance(other * divisor, n)
            ||| rounded == other
            ||| distance(rounded * divisor, n) == distance(other * divisor, n) && rounded % 2 == 0
        }),
{
    let quotient = n / divisor;
    let remainder = n % divisor;
    let rounded = rounded_quotient(n, divisor);
    vstd::arithmetic::div_mod::lemma_fundamental_div_mod(n, divisor);
    assert(quotient * divisor == divisor * quotient) by (nonlinear_arith);
    assert((quotient + 1) * divisor == quotient * divisor + divisor) by (nonlinear_arith);
    if other < quotient {
        assert(other * divisor <= (quotient - 1) * divisor) by (nonlinear_arith)
            requires
                other <= quotient - 1,
                divisor > 0,
        ;
        assert((quotient - 1) * divisor == quotient * divisor - divisor) by (nonlinear_arith);
    } else if other > quotient + 1 {
        assert(other * divisor >= (quotient + 2) * divisor) by (nonlinear_arith)
            requires
                other >= quotient + 2,
                divisor > 0,
        ;
        assert((quotient + 2) * divisor == quotient * divisor + 2 * divisor) by (nonlinear_arith);
    }
}

/// Distances scale with their ends.
proof fn lemma_distance_scales(a: int, b: int, factor: int)
    requires
        factor > 0,
    ensures
        distance(a * factor, b * factor) == distance(a, b) * factor,
{
    assert((b - a) * factor == b * factor - a * factor) by (nonlinear_arith);
    assert((a - b) * factor == a * factor - b * factor) by (nonlinear_arith);
    if a <= b {
        assert(a * factor <= b * factor) by (nonlinear_arith)
            requires
                a <= b,
                factor > 0,
        ;
    } else {
        assert(a * factor > b * factor) by (nonlinear_arith)
            requires
                a > b,
                factor > 0,
        ;
    }
}

/// No finite double is nearer to a positive number than the one that [`magnitude_bits`] gives.
proof fn lemma_magnitude_is_nearest(n: int, other: u64)
    requires
        0 < n <= u64::MAX,
        double_is_finite(other),
    ensures
        ({
            let exact = n * pow2(1074);
            let bits = magnitude_bits(n) as u64;
            ||| distance(double_value(bits), exact) < distance(double_value(other), exact)
            ||| double_value(bits) == double_value(other)
            ||| distance(double_value(bits), exact) == distance(double_value(other), exact) && bits
                % 2 == 0
        }),
{
    let top = top_bit(n);
    let significand = significand_of(n);
    let scale = pow2(1074) as int;
    let unit = pow2(top + 1022) as int;
    let value = double_value(other);
    let hidden = DOUBLE_HIDDEN as int;
    lemma_magnitude_value(n);
    lemma_pow2_pos(1074);
    lemma_pow2_pos(top + 1022);
    if top <= 52 {
        let factor = pow2((52 - top) as nat) as int;
        lemma_pow2_adds((52 - top) as nat, top + 1022);
        assert((n * factor) * unit == n * (factor * unit)) by (nonlinear_arith);
    } else {
        let divisor = pow2((top - 52) as nat) as int;
        lemma_pow2_adds((top - 52) as nat, 1074);
        assert(unit == divisor * scale);
        lemma_quotient(n);
        assert(significand * unit == (significand * divisor) * scale) by (nonlinear_arith)
            requires
                unit == divisor * scale,
        ;
        lemma_distance_scales(significand * divisor, n, scale);
        let near = distance(significand * divisor, n);
        if value >= pow2(top + 1074) {
            lemma_on_grid(other, top);
            let multiple = value / unit;
            vstd::arithmetic::div_mod::lemma_fundamental_div_mod(value, unit);
            assert(value == (multiple * divisor) * scale) by (nonlinear_arith)
                requires
                    value == unit * multiple,
                    unit == divisor * scale,
            ;
            lemma_rounded_is_nearest(n, divisor, multiple);
            lemma_distance_scales(multiple * divisor, n, scale);
            let far = distance(multiple * divisor, n);
            if near < far {
                assert(near * scale < far * scale) by (nonlinear_arith)
                    requires
                        near < far,
                        scale > 0,
                ;
            }
        } else {
            lemma_top_bit(n);
            lemma_pow2_adds(top, 1074);
            lemma_rounded_is_nearest(n, divisor, hidden);
            let far = n - hidden * divisor;
            assert(pow2(top) as int * scale == (hidden * divisor) * scale);
            assert(near <= far);
            assert(near * scale <= far * scale) by (nonlinear_arith)
                requires
                    near <= far,
                    scale > 0,
            ;
            assert(far * scale == n * scale - (hidden * divisor) * scale) by (nonlinear_arith)
                requires
                    far == n - hidden * divisor,
            ;
        }
    }
}

/// A whole number within 64 bits becomes the double nearest to it, of two that are as near the
/// one with the even fraction; zero becomes positive zero, and the sign is kept.
pub proof fn law_nearest_double(n: int)
    requires
        -u64::MAX <= n <= u64::MAX,
    ensures
        rounds_to(n, nearest_double(n)),
        nearest_double(n) < DOUBLE_SIGN <==> n >= 0,
        n == 0 ==> nearest_double(n) == 0,
{
    let exact = n * pow2(1074);
    let bits = nearest_double(n);
    if n > 0 {
        lemma_magnitude_value(n);
        assert forall|other: u64|
            #![trigger double_value(other)]
            double_is_finite(other) implies {
            ||| distance(double_value(bits), exact) < distance(double_value(other), exact)
            ||| double_value(bits) == double_value(other)
            ||| distance(double_value(bits), exact) == distance(double_value(other), exact) && bits
                % 2 == 0
        } by {
            lemma_magnitude_is_nearest(n, other);
        }
    } else if n < 0 {
        lemma_magnitude_value(-n);
        let unsigned = magnitude_bits(-n) as u64;
        lemma_sign_negates(unsigned);
        assert((-n) * pow2(1074) == -exact) by (nonlinear_arith)
            requires
                exact == n * pow2(1074),
        ;
        assert forall|other: u64|
            #![trigger double_value(other)]
            double_is_finite(other) implies {
            ||| distance(double_value(bits), exact) < distance(double_value(other), exact)
            ||| double_value(bits) == double_value(other)
            ||| distance(double_value(bits), exact) == distance(double_value(other), exact) && bits
                % 2 == 0
        } by {
            let flipped = if other < DOUBLE_SIGN {
                (DOUBLE_SIGN + other) as u64
            } else {
                (other - DOUBLE_SIGN) as u64
            };
            if other < DOUBLE_SIGN {
                lemma_sign_negates(other);
            } else {
                lemma_sign_negates(flipped);
            }
            lemma_magnitude_is_nearest(-n, flipped);
        }
    } else {
        assert(exact == 0);
    }
}

/// A whole number of at most 53 digits becomes a double that stands for the very number.
pub proof fn law_small_numbers_are_exact(n: int)
    requires
        -0x20_0000_0000_0000 < n < 0x20_0000_0000_0000,
    ensures
        double_is_finite(nearest_double(n)),
        double_value(nearest_double(n)) == n * pow2(1074),
{
    if n > 0 {
        lemma_small_magnitude_is_exact(n);
    } else if n < 0 {
        lemma_small_magnitude_is_exact(-n);
        lemma_magnitude_value(-n);
        lemma_sign_negates(magnitude_bits(-n) as u64);
        assert((-n) * pow2(1074) == -(n * pow2(1074))) by (nonlinear_arith);
    } else {
        assert(0 * pow2(1074) == 0) by (nonlinear_arith);
    }
}

/// A positive number of at most 53 digits becomes a double that stands for the very number.
proof fn lemma_small_magnitude_is_exact(n: int)
    requires
        0 < n < 0x20_0000_0000_0000,
    ensures
        double_is_finite(magnitude_bits(n) as u64),
        double_value(magnitude_bits(n) as u64) == n * pow2(1074),
{
    lemma_hidden_bits();
    lemma_top_bit_bound(n, 53);
    lemma_magnitude_value(n);
    let top = top_bit(n);
    let factor = pow2((52 - top) as nat) as int;
    let unit = pow2(top + 1022) as int;
    lemma_pow2_adds((52 - top) as nat, top + 1022);
    assert((n * factor) * unit == n * (factor * unit)) by (nonlinear_arith);
}

/// A number and its negative become doubles that differ in their sign alone.
pub proof fn law_negatives_differ_in_their_sign(n: int)
    requires
        0 < n <= u64::MAX,
    ensures
        nearest_double(-n) == nearest_double(n) + DOUBLE_SIGN,
{
    lemma_magnitude_value(n);
}

/// Widening keeps the number of a finite single, an infinity, and what is not a number.
pub proof fn law_widening_keeps_the_number(bits: u32)
    ensures
        single_exponent(bits) < 255 ==> double_is_finite(widened(bits)) && double_value(
            widened(bits),
        ) == single_value(bits) * pow2(925),
        single_exponent(bits) == 255 && single_fraction(bits) == 0 ==> widened(bits) == (if bits
            < SINGLE_SIGN {
            0x7ff0_0000_0000_0000u64
        } else {
            0xfff0_0000_0000_0000u64
        }),
        single_exponent(bits) == 255 && single_fraction(bits) != 0 ==> double_is_nan(
            widened(bits),
        ),
        widened(bits) < DOUBLE_SIGN <==> bits < SINGLE_SIGN,
{
    let exponent = single_exponent(bits);
    let fraction = single_fraction(bits);
    let wide = widened(bits);
    let unsigned = if wide < DOUBLE_SIGN {
        wide
    } else {
        (wide - DOUBLE_SIGN) as u64
    };
    let hidden = DOUBLE_HIDDEN as int;
    lemma_hidden_bits();
    if exponent == 255 {
        if fraction != 0 {
            let kept = fraction % 0x40_0000;
            assert(unsigned == 2047 * hidden + (0x8_0000_0000_0000 + kept * 0x2000_0000));
            assert(unsigned as int / hidden == 2047);
            assert(wide as int % DOUBLE_SIGN as int == unsigned);
            assert(wide as int % hidden == unsigned as int % hidden);
        }
    } else {
        let number = if bits < SINGLE_SIGN {
            single_value(bits)
        } else {
            -single_value(bits)
        };
        let scale = pow2(925) as int;
        if exponent > 0 {
            assert(unsigned as int / hidden == exponent + 896);
            assert(unsigned as int % hidden == fraction * 0x2000_0000);
            let step = pow2((exponent - 1) as nat) as int;
            lemma_pow2_adds(29, (exponent + 895) as nat);
            lemma_pow2_adds((exponent - 1) as nat, 925);
            let wide_step = pow2((exponent + 895) as nat) as int;
            assert((hidden + fraction * 0x2000_0000) * wide_step == ((0x80_0000 + fraction) * step)
                * scale) by (nonlinear_arith)
                requires
                    hidden == 0x80_0000 * 0x2000_0000,
                    0x2000_0000 * wide_step == step * scale,
            ;
        } else if fraction > 0 {
            let top = top_bit(fraction);
            let factor = pow2((52 - top) as nat) as int;
            lemma_top_bit_bound(fraction, 23);
            lemma_significand(fraction);
            lemma_pow2_adds((52 - top) as nat, (top + 873) as nat);
            let step = pow2((top + 873) as nat) as int;
            assert(fraction * factor < 2 * hidden) by {
                lemma_top_bit(fraction);
                lemma_pow2_adds(top + 1, (52 - top) as nat);
                lemma_pow2_pos((52 - top) as nat);
                assert(fraction * factor < pow2(top + 1) as int * factor) by (nonlinear_arith)
                    requires
                        fraction < pow2(top + 1),
                        factor > 0,
                ;
            }
            assert(unsigned as int / hidden == top + 874);
            assert(unsigned as int % hidden == fraction * factor - hidden);
            assert((fraction * factor) * step == fraction * (factor * step)) by (nonlinear_arith);
        } else {
            assert(0 * scale == 0) by (nonlinear_arith);
        }
        assert(double_value(unsigned) == number * scale);
        assert((-number) * scale == -(number * scale)) by (nonlinear_arith);
        if bits >= SINGLE_SIGN {
            lemma_sign_negates(unsigned);
        }
    }
}

} // verus!
