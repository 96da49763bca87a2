//! Double-precision numbers as the documents carry them: IEEE-754 bits and a spelling.

use vstd::prelude::*;

use crate::order::chars_of;
use crate::text::integer_text;
use crate::text;
#[allow(unused_imports)]
use vstd::arithmetic::power2::{lemma2_to64, lemma2_to64_rest, lemma_pow2_adds, lemma_pow2_pos, lemma_pow2_unfold, pow2};

verus! {

/// Bit pattern of one.
pub const ONE_BITS: u64 = 0x3FF0_0000_0000_0000;

/// Bit pattern of positive infinity.
pub const INFINITY_BITS: u64 = 0x7FF0_0000_0000_0000;

/// The weight of the sign bit.
pub const SIGN_WEIGHT: u64 = 0x8000_0000_0000_0000;

/// The weight of the lowest exponent bit.
pub const EXPONENT_WEIGHT: u64 = 0x0010_0000_0000_0000;

/// A double-precision number: its IEEE-754 bit pattern and the JSON text that spells it in plain
/// decimals, with one zero behind the point of an integer.
#[derive(Debug, Clone, PartialEq)]
pub struct Number {
    pub bits: u64,
    pub text: String,
}

/// The mathematical content of a [`Number`].
#[verifier::ext_equal]
pub struct NumberModel {
    pub bits: u64,
    pub text: Seq<char>,
}

impl View for Number {
    type V = NumberModel;

    open spec fn view(&self) -> NumberModel {
        NumberModel { bits: self.bits, text: self.text@ }
    }
}

/// The spelling of a number in messages: a zero behind the point is left out.
pub open spec fn message_text(n: NumberModel) -> Seq<char> {
    let size = n.text.len();
    if size >= 2 && n.text[size - 2] == '.' && n.text[size - 1] == '0' {
        n.text.take(size - 2)
    } else {
        n.text
    }
}

/// The pattern without its sign.
pub open spec fn magnitude(bits: u64) -> u64 {
    if bits >= SIGN_WEIGHT {
        (bits - SIGN_WEIGHT) as u64
    } else {
        bits
    }
}

pub open spec fn finite(bits: u64) -> bool {
    magnitude(bits) < INFINITY_BITS
}

pub open spec fn nan(bits: u64) -> bool {
    magnitude(bits) > INFINITY_BITS
}

/// An integer that orders patterns that are no NaN as the numbers they stand for are ordered;
/// the two zeros share one key.
pub open spec fn order_key(bits: u64) -> int {
    if bits >= SIGN_WEIGHT {
        -(magnitude(bits) as int)
    } else {
        bits as int
    }
}

/// IEEE-754 `a < b`: false as soon as one of them is NaN.
pub open spec fn less(a: u64, b: u64) -> bool {
    !nan(a) && !nan(b) && order_key(a) < order_key(b)
}

/// Position of the highest set bit of `m > 0`.
pub open spec fn top_bit(m: nat) -> nat
    decreases m,
{
    if m < 2 {
        0
    } else {
        1 + top_bit(m / 2)
    }
}

/// `m / unit` rounded to the nearest integer, ties to even.
pub open spec fn round_half_even(m: nat, unit: nat) -> nat {
    let quotient = m / unit;
    let rest = m % unit;
    if 2 * rest > unit || (2 * rest == unit && quotient % 2 == 1) {
        quotient + 1
    } else {
        quotient
    }
}

/// The distance between neighbouring doubles around `m`, for `m` of at least 53 bits.
pub open spec fn unit_near(m: nat) -> nat {
    if top_bit(m) <= 52 {
        1
    } else {
        pow2((top_bit(m) - 52) as nat)
    }
}

/// The double nearest to the natural number `m`, ties to even.
pub open spec fn nearest_double(m: nat) -> nat {
    round_half_even(m, unit_near(m)) * unit_near(m)
}

/// The pattern of the double nearest to `m`: biased exponent and 52-bit fraction.
pub open spec fn natural_bits(m: nat) -> int {
    if m == 0 {
        0
    } else {
        let scaled = if top_bit(m) <= 52 {
            m * pow2((52 - top_bit(m)) as nat)
        } else {
            round_half_even(m, unit_near(m))
        };
        (1022 + top_bit(m)) * EXPONENT_WEIGHT + scaled
    }
}

/// An integer as a double: nearest pattern, and the spelling with one zero behind the point.
pub open spec fn number_of_integer(n: int) -> NumberModel {
    let m = if n < 0 { (-n) as nat } else { n as nat };
    let sign: int = if n < 0 { SIGN_WEIGHT as int } else { 0 };
    let value = if n < 0 { -(nearest_double(m) as int) } else { nearest_double(m) as int };
    NumberModel { bits: (sign + natural_bits(m)) as u64, text: integer_text(value) + ".0"@ }
}

impl Number {
    pub fn copy(&self) -> (r: Number)
        ensures
            r@ == self@,
    {
        Number { bits: self.bits, text: self.text.clone() }
    }

    /// The number as messages spell it.
    pub fn shown(&self) -> (r: String)
        ensures
            r@ == message_text(self@),
    {
        let all: Vec<char> = chars_of(self.text.as_str());
        let size: usize = all.len();
        if size < 2 || all[size - 2] != '.' || all[size - 1] != '0' {
            return self.text.clone();
        }
        let mut out: String = String::new();
        let mut i: usize = 0;
        assert(out@ =~= self.text@.take(0));
        while i < size - 2
            invariant
                2 <= size,
                size == all.len(),
                i <= size - 2,
                all@ == self.text@,
                out@ == self.text@.take(i as int),
            decreases size - i,
        {
            out.push(all[i]);
            assert(self.text@.take(i + 1) =~= self.text@.take(i as int).push(all@[i as int]));
            i += 1;
        }
        out
    }

    pub fn is_finite(&self) -> (r: bool)
        ensures
            r == finite(self.bits),
    {
        let size: u64 = if self.bits >= SIGN_WEIGHT {
            self.bits - SIGN_WEIGHT
        } else {
            self.bits
        };
        size < INFINITY_BITS
    }
}

/// IEEE-754 `a < b` on bit patterns.
pub fn less_than(a: u64, b: u64) -> (r: bool)
    ensures
        r == less(a, b),
{
    let left: u64 = if a >= SIGN_WEIGHT { a - SIGN_WEIGHT } else { a };
    let right: u64 = if b >= SIGN_WEIGHT { b - SIGN_WEIGHT } else { b };
    if left > INFINITY_BITS || right > INFINITY_BITS {
        return false;
    }
    if a >= SIGN_WEIGHT {
        if b >= SIGN_WEIGHT {
            right < left
        } else {
            left > 0 || right > 0
        }
    } else {
        b < SIGN_WEIGHT && left < right
    }
}

/// IEEE-754 `a == b`: false as soon as one of them is NaN, true for the two zeros.
pub open spec fn equal_value(a: u64, b: u64) -> bool {
    !nan(a) && !nan(b) && order_key(a) == order_key(b)
}

/// IEEE-754 `a == b` on bit patterns.
pub fn equals(a: u64, b: u64) -> (r: bool)
    ensures
        r == equal_value(a, b),
{
    let left: u64 = if a >= SIGN_WEIGHT { a - SIGN_WEIGHT } else { a };
    let right: u64 = if b >= SIGN_WEIGHT { b - SIGN_WEIGHT } else { b };
    if left > INFINITY_BITS || right > INFINITY_BITS {
        return false;
    }
    a == b || (left == 0 && right == 0)
}

/// `m` scaled up to 53 significant bits, with the position of its highest bit.
fn scale_up(m: u64) -> (r: (u64, u64))
    requires
        0 < m < 0x0020_0000_0000_0000,
    ensures
        top_bit(m as nat) <= 52,
        r.1 == top_bit(m as nat),
        r.0 == m * pow2((52 - top_bit(m as nat)) as nat),
        EXPONENT_WEIGHT <= r.0 < 2 * EXPONENT_WEIGHT,
    decreases 0x0020_0000_0000_0000 - m,
{
    if m >= EXPONENT_WEIGHT {
        proof {
            lemma2_to64_rest();
            lemma2_to64();
            lemma_top_bit(m as nat, 52);
            assert(m * pow2(0) == m) by {
                assert(pow2(0) == 1);
            }
        }
        (m, 52)
    } else {
        let inner: (u64, u64) = scale_up(2 * m);
        proof {
            let b = top_bit((2 * m) as nat);
            assert((2 * m) as nat / 2 == m as nat);
            assert(b == 1 + top_bit(m as nat));
            lemma_pow2_unfold((52 - top_bit(m as nat)) as nat);
            assert(2 * m * pow2((52 - b) as nat) == m * (2 * pow2((52 - b) as nat)))
                by (nonlinear_arith);
        }
        (inner.0, inner.1 - 1)
    }
}

/// A number between two neighbouring powers of two has the lower exponent as its top bit.
proof fn lemma_top_bit(m: nat, e: nat)
    requires
        pow2(e) <= m < pow2(e + 1),
    ensures
        top_bit(m) == e,
    decreases e,
{
    lemma_pow2_unfold(e + 1);
    if e == 0 {
        lemma2_to64();
    } else {
        lemma_pow2_unfold(e);
        lemma_pow2_pos((e - 1) as nat);
        assert(m >= 2);
        lemma_top_bit(m / 2, (e - 1) as nat);
    }
}

/// The rounding unit of `m`, which has at least 54 bits, with the position of its highest bit.
fn unit_of(m: u64) -> (r: (u64, u64))
    requires
        0x0020_0000_0000_0000 <= m <= SIGN_WEIGHT,
    ensures
        top_bit(m as nat) == r.1,
        53 <= r.1 <= 63,
        r.0 == pow2((r.1 - 52) as nat),
        r.0 == unit_near(m as nat),
        2 <= r.0 <= 2048,
        EXPONENT_WEIGHT * r.0 <= m < 2 * EXPONENT_WEIGHT * r.0,
{
    let mut unit: u64 = 2;
    let mut top: u64 = 53;
    proof {
        lemma2_to64();
        lemma2_to64_rest();
    }
    while m / unit >= 0x0020_0000_0000_0000
        invariant
            53 <= top <= 63,
            unit == pow2((top - 52) as nat),
            2 <= unit <= 2048,
            EXPONENT_WEIGHT * unit <= m <= SIGN_WEIGHT,
        decreases 64 - top,
    {
        proof {
            lemma2_to64();
            lemma_pow2_unfold((top + 1 - 52) as nat);
            assert(m >= 0x0020_0000_0000_0000 * unit) by (nonlinear_arith)
                requires
                    m / unit >= 0x0020_0000_0000_0000,
                    unit >= 2,
            ;
            assert(unit <= 1024);
            assert(pow2(11) == 2048);
        }
        unit = unit * 2;
        top = top + 1;
    }
    proof {
        assert(m < 0x0020_0000_0000_0000 * unit) by (nonlinear_arith)
            requires
                m / unit < 0x0020_0000_0000_0000,
                unit >= 2,
        ;
        lemma2_to64();
        lemma2_to64_rest();
        lemma_pow2_adds(52, (top - 52) as nat);
        lemma_pow2_adds(53, (top - 52) as nat);
        lemma_top_bit(m as nat, top as nat);
    }
    (unit, top)
}

impl Number {
    /// The double nearest to an integer, ties to even.
    pub fn from_integer(n: i64) -> (r: Number)
        ensures
            r@ == number_of_integer(n as int),
    {
        let wide: i128 = n as i128;
        let m: u64 = if n < 0 { (-wide) as u64 } else { n as u64 };
        let ghost size = m as nat;
        if m == 0 {
            let spelling: String = text::cat2(text::decimal(0).as_str(), ".0");
            proof {
                assert(top_bit(0) == 0);
                assert(nearest_double(0) == 0);
            }
            return Number { bits: 0, text: spelling };
        }
        let bits: u64;
        let value: u64;
        if m < 0x0020_0000_0000_0000 {
            let scaled: (u64, u64) = scale_up(m);
            bits = (1022 + scaled.1) * EXPONENT_WEIGHT + scaled.0;
            value = m;
            proof {
                assert(size / 1 == size && size % 1 == 0);
                assert(nearest_double(size) == size);
            }
        } else {
            let unit: (u64, u64) = unit_of(m);
            let quotient: u64 = m / unit.0;
            let rest: u64 = m % unit.0;
            proof {
                let u = unit.0;
                assert(EXPONENT_WEIGHT <= quotient < 2 * EXPONENT_WEIGHT) by (nonlinear_arith)
                    requires
                        EXPONENT_WEIGHT * u <= m < 2 * EXPONENT_WEIGHT * u,
                        quotient == m / u,
                        u > 0,
                ;
                assert((quotient + 1) * u <= m + u) by (nonlinear_arith)
                    requires
                        quotient == m / u,
                        u > 0,
                ;
                assert(quotient * u <= m) by (nonlinear_arith)
                    requires
                        quotient == m / u,
                        u > 0,
                ;
            }
            let rounded: u64 = if 2 * rest > unit.0 || (2 * rest == unit.0 && quotient % 2 == 1) {
                quotient + 1
            } else {
                quotient
            };
            bits = (1022 + unit.1) * EXPONENT_WEIGHT + rounded;
            value = rounded * unit.0;
            assert(value > 0) by (nonlinear_arith)
                requires
                    value == rounded * unit.0,
                    rounded > 0,
                    unit.0 > 0,
            ;
        }
        let mut spelling: String = String::new();
        if n < 0 {
            spelling.push('-');
        }
        spelling.append(text::decimal(value).as_str());
        spelling.append(".0");
        proof {
            assert(value as nat == nearest_double(size));
            assert(spelling@ =~= integer_text(if n < 0 { -(value as int) } else { value as int }) + ".0"@);
        }
        Number { bits: if n < 0 { SIGN_WEIGHT + bits } else { bits }, text: spelling }
    }
}

/// The integer by which the significand of a finite pattern counts.
pub open spec fn significand(bits: u64) -> nat {
    let fraction = magnitude(bits) % EXPONENT_WEIGHT;
    if magnitude(bits) < EXPONENT_WEIGHT {
        fraction as nat
    } else {
        (EXPONENT_WEIGHT + fraction) as nat
    }
}

/// The power of two that the significand of a finite pattern is multiplied with.
pub open spec fn exponent(bits: u64) -> int {
    if magnitude(bits) < EXPONENT_WEIGHT {
        -1074
    } else {
        magnitude(bits) as int / EXPONENT_WEIGHT as int - 1075
    }
}

/// A finite number without a fractional part.
pub open spec fn integral(bits: u64) -> bool {
    finite(bits) && (exponent(bits) >= 0 || significand(bits) % pow2((-exponent(bits)) as nat) == 0)
}

/// The size of an integral number.
pub open spec fn whole_part(bits: u64) -> nat {
    if exponent(bits) >= 0 {
        significand(bits) * pow2(exponent(bits) as nat)
    } else {
        significand(bits) / pow2((-exponent(bits)) as nat)
    }
}

/// The integer that an integral number is.
pub open spec fn integer_value(bits: u64) -> int {
    if bits >= SIGN_WEIGHT {
        -(whole_part(bits) as int)
    } else {
        whole_part(bits) as int
    }
}

/// The nearest 64-bit integer of an integer.
pub open spec fn clamped(n: int) -> i64 {
    if n < i64::MIN {
        i64::MIN
    } else if n > i64::MAX {
        i64::MAX
    } else {
        n as i64
    }
}

/// An integer compared with the range of 64-bit integers, whose upper end counts as 2^63.
pub open spec fn beyond_integers(n: int) -> bool {
    n < -0x8000_0000_0000_0000 || n > 0x8000_0000_0000_0000
}

/// An integral number as a 64-bit integer: the nearest one, and whether the number lies beyond
/// all of them.
#[derive(Debug, Clone, Copy, PartialEq, Eq)]
pub struct Whole {
    pub nearest: i64,
    pub beyond: bool,
}

fn power_of_two(e: u64) -> (r: u64)
    requires
        e <= 63,
    ensures
        r == pow2(e as nat),
        r > 0,
{
    let mut power: u64 = 1;
    let mut i: u64 = 0;
    proof {
        lemma2_to64();
    }
    while i < e
        invariant
            i <= e <= 63,
            power == pow2(i as nat),
            power > 0,
            i < 63 ==> power <= 0x4000_0000_0000_0000,
        decreases e - i,
    {
        proof {
            lemma_pow2_unfold((i + 1) as nat);
            lemma2_to64_rest();
            if i + 1 < 63 {
                lemma_pow2_monotone((i + 1) as nat, 62);
            }
        }
        power = power * 2;
        i += 1;
    }
    power
}

proof fn lemma_pow2_monotone(a: nat, b: nat)
    requires
        a <= b,
    ensures
        pow2(a) <= pow2(b),
    decreases b - a,
{
    if a < b {
        lemma_pow2_monotone(a, (b - 1) as nat);
        lemma_pow2_unfold(b);
        lemma_pow2_pos((b - 1) as nat);
    }
}

/// What an integral number is; nothing for a number that is not finite or has a fraction.
pub fn whole_number(bits: u64) -> (r: Option<Whole>)
    ensures
        r is Some <==> integral(bits),
        r is Some ==> r->0.nearest == clamped(integer_value(bits)) && r->0.beyond == beyond_integers(
            integer_value(bits),
        ),
{
    let negative: bool = bits >= SIGN_WEIGHT;
    let size: u64 = if negative { bits - SIGN_WEIGHT } else { bits };
    if size >= INFINITY_BITS {
        return None;
    }
    if size < EXPONENT_WEIGHT {
        if size == 0 {
            proof {
                lemma_pow2_pos(1074);
                assert(0int % (pow2(1074) as int) == 0) by (nonlinear_arith)
                    requires
                        pow2(1074) > 0,
                ;
                assert(0int / (pow2(1074) as int) == 0) by (nonlinear_arith)
                    requires
                        pow2(1074) > 0,
                ;
            }
            return Some(Whole { nearest: 0, beyond: false });
        }
        proof {
            lemma2_to64_rest();
            lemma_pow2_monotone(52, 1074);
            lemma_small_is_its_rest(size as nat, pow2(1074));
        }
        return None;
    }
    let biased: u64 = size / EXPONENT_WEIGHT;
    let whole: u64 = EXPONENT_WEIGHT + size % EXPONENT_WEIGHT;
    proof {
        assert(significand(bits) == whole);
        assert(exponent(bits) == biased - 1075);
        lemma2_to64();
        lemma2_to64_rest();
    }
    let absolute: u64;
    if biased >= 1075 {
        let shift: u64 = biased - 1075;
        if shift > 11 {
            proof {
                lemma_pow2_monotone(12, shift as nat);
                assert(pow2(12) == 4096);
                assert(whole * pow2(shift as nat) >= 0x0010_0000_0000_0000 * 4096) by (nonlinear_arith)
                    requires
                        whole >= 0x0010_0000_0000_0000,
                        pow2(shift as nat) >= 4096,
                ;
            }
            let nearest: i64 = if negative { i64::MIN } else { i64::MAX };
            return Some(Whole { nearest, beyond: true });
        }
        let power: u64 = power_of_two(shift);
        if shift == 11 {
            proof {
                assert(whole * power == whole * 2048) by (nonlinear_arith)
                    requires
                        power == 2048,
                ;
                assert(whole * power >= 0x8000_0000_0000_0000);
            }
            let beyond: bool = whole > EXPONENT_WEIGHT;
            proof {
                assert(beyond <==> whole * power > 0x8000_0000_0000_0000);
            }
            let nearest: i64 = if negative { i64::MIN } else { i64::MAX };
            return Some(Whole { nearest, beyond });
        }
        proof {
            lemma_pow2_monotone(shift as nat, 10);
            assert(pow2(10) == 1024);
            assert(whole * power <= 0x001F_FFFF_FFFF_FFFF * 1024) by (nonlinear_arith)
                requires
                    whole <= 0x001F_FFFF_FFFF_FFFF,
                    power <= 1024,
                    power > 0,
            ;
        }
        absolute = whole * power;
    } else {
        let shift: u64 = 1075 - biased;
        if shift > 52 {
            proof {
                lemma_pow2_monotone(53, shift as nat);
                lemma_small_is_its_rest(whole as nat, pow2(shift as nat));
            }
            return None;
        }
        let power: u64 = power_of_two(shift);
        if whole % power != 0 {
            return None;
        }
        absolute = whole / power;
        proof {
            assert(absolute <= whole) by (nonlinear_arith)
                requires
                    absolute == whole / power,
                    power > 0,
            ;
        }
    }
    let nearest: i64 = if negative { -(absolute as i64) } else { absolute as i64 };
    Some(Whole { nearest, beyond: false })
}

/// The machine size nearest to an integer that is not negative.
pub open spec fn machine_size(n: int) -> usize {
    if n > usize::MAX {
        usize::MAX
    } else {
        n as usize
    }
}

/// The machine size nearest to an integral number.
pub fn size_of_number(bits: u64) -> (r: usize)
    requires
        integral(bits),
        integer_value(bits) >= 0,
    ensures
        r == machine_size(integer_value(bits)),
{
    let near: i64 = match whole_number(bits) {
        Some(whole) => whole.nearest,
        None => 0,
    };
    let size: u64 = if near < i64::MAX {
        near as u64
    } else {
        large_size(bits)
    };
    if size > usize::MAX as u64 {
        usize::MAX
    } else {
        size as usize
    }
}

fn large_size(bits: u64) -> (r: u64)
    requires
        integral(bits),
        integer_value(bits) >= i64::MAX,
    ensures
        r == (if integer_value(bits) > u64::MAX { u64::MAX as int } else { integer_value(bits) }),
{
    let biased: u64 = bits / EXPONENT_WEIGHT;
    let whole: u64 = EXPONENT_WEIGHT + bits % EXPONENT_WEIGHT;
    proof {
        assert(bits < SIGN_WEIGHT);
        lemma2_to64();
        lemma2_to64_rest();
        lemma_large_exponent(bits);
    }
    let shift: u64 = biased - 1075;
    if shift > 11 {
        proof {
            lemma_pow2_monotone(12, shift as nat);
            assert(whole * pow2(shift as nat) >= 0x0010_0000_0000_0000 * 4096) by (nonlinear_arith)
                requires
                    whole >= 0x0010_0000_0000_0000,
                    pow2(shift as nat) >= 4096,
            ;
        }
        u64::MAX
    } else {
        proof {
            assert(whole * pow2(11) == whole * 2048) by (nonlinear_arith)
                requires
                    pow2(11) == 2048,
            ;
        }
        whole * 2048
    }
}

proof fn lemma_large_exponent(bits: u64)
    requires
        integral(bits),
        bits < SIGN_WEIGHT,
        integer_value(bits) >= i64::MAX,
    ensures
        bits >= EXPONENT_WEIGHT,
        exponent(bits) >= 11,
{
    lemma2_to64();
    lemma2_to64_rest();
    let s = significand(bits);
    assert(s < 0x0020_0000_0000_0000);
    if exponent(bits) < 0 {
        lemma_pow2_pos((-exponent(bits)) as nat);
        assert(s / pow2((-exponent(bits)) as nat) <= s) by (nonlinear_arith)
            requires
                pow2((-exponent(bits)) as nat) > 0,
        ;
    } else if exponent(bits) < 11 {
        lemma_pow2_monotone(exponent(bits) as nat, 10);
        assert(s * pow2(exponent(bits) as nat) <= 0x001F_FFFF_FFFF_FFFF * 1024) by (nonlinear_arith)
            requires
                s <= 0x001F_FFFF_FFFF_FFFF,
                pow2(exponent(bits) as nat) <= 1024,
        ;
    }
}

proof fn lemma_small_is_its_rest(m: nat, unit: nat)
    requires
        0 < m < unit,
    ensures
        m % unit == m,
{
    vstd::arithmetic::div_mod::lemma_small_mod(m, unit);
}

/// The size of an integral number is turned back into the pattern of the number.
proof fn lemma_natural_bits_back(bits: u64)
    requires
        integral(bits),
        0 < whole_part(bits) <= 0x8000_0000_0000_0000,
    ensures
        natural_bits(whole_part(bits)) == magnitude(bits),
{
    lemma2_to64();
    lemma2_to64_rest();
    let size = magnitude(bits);
    let s = significand(bits);
    let m = whole_part(bits);
    if size < EXPONENT_WEIGHT {
        lemma_pow2_monotone(52, 1074);
        if size > 0 {
            lemma_small_is_its_rest(s, pow2(1074));
        } else {
            lemma_pow2_pos(1074);
            assert(0int / (pow2(1074) as int) == 0) by (nonlinear_arith)
                requires
                    pow2(1074) > 0,
            ;
        }
        assert(false);
    }
    assert(EXPONENT_WEIGHT <= s < 2 * EXPONENT_WEIGHT);
    let e = exponent(bits);
    assert(size == (e + 1074) * EXPONENT_WEIGHT + s) by {
        assert(size as int == (size as int / EXPONENT_WEIGHT as int) * EXPONENT_WEIGHT as int
            + size as int % EXPONENT_WEIGHT as int);
    }
    if e >= 0 {
        let unit = pow2(e as nat);
        lemma_pow2_pos(e as nat);
        if e > 11 {
            lemma_pow2_monotone(12, e as nat);
            assert(s * unit >= 0x0010_0000_0000_0000 * 4096) by (nonlinear_arith)
                requires
                    s >= 0x0010_0000_0000_0000,
                    unit >= 4096,
            ;
        }
        lemma_pow2_adds(52, e as nat);
        lemma_pow2_adds(53, e as nat);
        assert(pow2(52) * unit <= s * unit < pow2(53) * unit) by (nonlinear_arith)
            requires
                pow2(52) <= s < pow2(53),
                unit > 0,
        ;
        lemma_top_bit(m, (52 + e) as nat);
        if e == 0 {
            assert(m == s) by (nonlinear_arith)
                requires
                    m == s * unit,
                    unit == 1,
            ;
            assert(m * pow2(0) == m) by (nonlinear_arith)
                requires
                    pow2(0) == 1,
            ;
        } else {
            assert(unit_near(m) == unit);
            assert(m / unit == s && m % unit == 0) by (nonlinear_arith)
                requires
                    m == s * unit,
                    unit > 0,
            ;
            assert(round_half_even(m, unit) == s);
        }
    } else {
        let k = (-e) as nat;
        let power = pow2(k);
        lemma_pow2_pos(k);
        if k > 52 {
            lemma_pow2_monotone(53, k);
            lemma_small_is_its_rest(s, power);
        }
        assert(s == m * power) by (nonlinear_arith)
            requires
                m == s / power,
                s % power == 0,
                power > 0,
        ;
        lemma_pow2_adds((52 - k) as nat, k);
        lemma_pow2_adds((53 - k) as nat, k);
        assert(pow2((52 - k) as nat) <= m < pow2((53 - k) as nat)) by (nonlinear_arith)
            requires
                pow2((52 - k) as nat) * power <= m * power < pow2((53 - k) as nat) * power,
                power > 0,
        ;
        lemma_top_bit(m, (52 - k) as nat);
        assert((52 - top_bit(m)) as nat == k);
    }
}

/// An integral number within the range of 64-bit integers equals the double of that integer; a
/// negative zero comes back as zero.
pub proof fn law_integer_is_its_own_double(bits: u64)
    requires
        integral(bits),
        !beyond_integers(integer_value(bits)),
    ensures
        equal_value(number_of_integer(clamped(integer_value(bits)) as int).bits, bits),
{
    let m = whole_part(bits);
    if m == 0 {
        lemma_zero_is_zero(bits);
        assert(natural_bits(0) == 0);
    } else {
        lemma_natural_bits_back(bits);
        if integer_value(bits) == 0x8000_0000_0000_0000 {
            lemma2_to64();
            lemma2_to64_rest();
            let n: nat = 0x7FFF_FFFF_FFFF_FFFF;
            lemma_top_bit(n, 62);
            assert(unit_near(n) == 1024);
            assert(round_half_even(n, 1024) == 0x0020_0000_0000_0000);
            assert(natural_bits(n) == 1086 * EXPONENT_WEIGHT);
            lemma_top_bit(m, 63);
            assert(unit_near(m) == 2048);
            assert(round_half_even(m, 2048) == 0x0010_0000_0000_0000);
            assert(natural_bits(m) == 1086 * EXPONENT_WEIGHT);
        }
    }
}

proof fn lemma_zero_is_zero(bits: u64)
    requires
        integral(bits),
        whole_part(bits) == 0,
    ensures
        magnitude(bits) == 0,
{
    lemma2_to64();
    lemma2_to64_rest();
    let s = significand(bits);
    let e = exponent(bits);
    if e >= 0 {
        lemma_pow2_pos(e as nat);
        assert(s * pow2(e as nat) > 0) by (nonlinear_arith)
            requires
                s > 0,
                pow2(e as nat) > 0,
        ;
    } else {
        let power = pow2((-e) as nat);
        lemma_pow2_pos((-e) as nat);
        assert(s == 0) by (nonlinear_arith)
            requires
                s / power == 0,
                s % power == 0,
                power > 0,
        ;
    }
}

/// The top bit of a number marks the power of two below it.
proof fn lemma_top_bit_marks(m: nat)
    requires
        m > 0,
    ensures
        pow2(top_bit(m)) <= m < pow2(top_bit(m) + 1),
    decreases m,
{
    lemma2_to64();
    if m >= 2 {
        lemma_top_bit_marks(m / 2);
        lemma_pow2_unfold(top_bit(m));
        lemma_pow2_unfold(top_bit(m) + 1);
    }
}

/// Rounding to multiples of one unit keeps the order of neighbours.
proof fn lemma_rounding_keeps_order(m: nat, unit: nat)
    requires
        unit > 0,
    ensures
        round_half_even(m, unit) <= round_half_even(m + 1, unit),
        m / unit <= round_half_even(m, unit) <= m / unit + 1,
{
    let quotient = m / unit;
    let rest = m % unit;
    vstd::arithmetic::div_mod::lemma_fundamental_div_mod(m as int, unit as int);
    if rest + 1 < unit {
        vstd::arithmetic::div_mod::lemma_fundamental_div_mod_converse(
            (m + 1) as int,
            unit as int,
            quotient as int,
            (rest + 1) as int,
        );
    } else {
        assert(unit * (quotient + 1) == unit * quotient + unit) by (nonlinear_arith);
        vstd::arithmetic::div_mod::lemma_fundamental_div_mod_converse(
            (m + 1) as int,
            unit as int,
            (quotient + 1) as int,
            0,
        );
    }
}

/// The significand of a natural number, whole in its 53 bits.
proof fn lemma_significand_bounds(m: nat)
    requires
        m > 0,
    ensures
        ({
            let scaled = natural_bits(m) - (1022 + top_bit(m)) * EXPONENT_WEIGHT;
            EXPONENT_WEIGHT <= scaled <= 2 * EXPONENT_WEIGHT
        }),
{
    lemma2_to64();
    lemma2_to64_rest();
    lemma_top_bit_marks(m);
    let e = top_bit(m);
    if e <= 52 {
        let power = pow2((52 - e) as nat);
        vstd::arithmetic::power2::lemma_pow2_adds(e, (52 - e) as nat);
        lemma_pow2_unfold(e + 1);
        lemma_pow2_pos((52 - e) as nat);
        assert(pow2(e) * power == EXPONENT_WEIGHT);
        assert(pow2(e) * power <= m * power < 2 * pow2(e) * power) by (nonlinear_arith)
            requires
                pow2(e) <= m < 2 * pow2(e),
                power > 0,
        ;
        assert(2 * pow2(e) * power == 2 * (pow2(e) * power)) by (nonlinear_arith);
    } else {
        let unit = pow2((e - 52) as nat);
        lemma_pow2_pos((e - 52) as nat);
        lemma_pow2_unfold(e + 1);
        vstd::arithmetic::power2::lemma_pow2_adds(52, (e - 52) as nat);
        assert(pow2(e) == EXPONENT_WEIGHT * unit);
        lemma_rounding_keeps_order(m, unit);
        assert(EXPONENT_WEIGHT <= m / unit < 2 * EXPONENT_WEIGHT) by (nonlinear_arith)
            requires
                EXPONENT_WEIGHT * unit <= m < 2 * (EXPONENT_WEIGHT * unit),
                unit > 0,
        ;
    }
}

/// The double nearest to an integer is not greater than the one nearest to its successor, and
/// both are finite.
pub proof fn law_nearest_doubles_keep_the_order(m: nat)
    requires
        m < SIGN_WEIGHT,
    ensures
        0 <= natural_bits(m) <= natural_bits(m + 1) < INFINITY_BITS,
{
    lemma2_to64();
    lemma2_to64_rest();
    lemma_top_bit_marks(m + 1);
    lemma_significand_bounds(m + 1);
    let e = top_bit(m);
    let f = top_bit(m + 1);
    if f > 63 {
        lemma_pow2_monotone(64, f);
    }
    assert((1022 + f) * EXPONENT_WEIGHT <= 1085 * EXPONENT_WEIGHT) by (nonlinear_arith)
        requires
            f <= 63,
            EXPONENT_WEIGHT > 0,
    ;
    if m > 0 {
        lemma_top_bit_marks(m);
        lemma_significand_bounds(m);
        if m + 1 < pow2(e + 1) {
            lemma_top_bit(m + 1, e);
            if e <= 52 {
                let power = pow2((52 - e) as nat);
                assert(m * power <= (m + 1) * power) by (nonlinear_arith);
            } else {
                lemma_pow2_pos((e - 52) as nat);
                lemma_rounding_keeps_order(m, unit_near(m));
            }
        } else {
            lemma_pow2_unfold(e + 2);
            lemma_pow2_pos(e + 1);
            lemma_top_bit(m + 1, e + 1);
            assert((1022 + e + 1) * EXPONENT_WEIGHT == (1022 + e) * EXPONENT_WEIGHT
                + EXPONENT_WEIGHT) by (nonlinear_arith);
        }
        assert((1022 + e) * EXPONENT_WEIGHT >= 0) by (nonlinear_arith)
            requires
                EXPONENT_WEIGHT > 0,
        ;
    } else {
        assert((1022 + f) * EXPONENT_WEIGHT >= 0) by (nonlinear_arith)
            requires
                EXPONENT_WEIGHT > 0,
        ;
    }
}

} // verus!
