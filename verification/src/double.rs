//! Amounts and rates are double-precision numbers. The library does no rounding arithmetic on
//! them: it carries their bits, compares them, writes them out, and knows exactly those that it
//! makes itself.

use crate::text;
use vstd::arithmetic::div_mod;
use vstd::arithmetic::power;
use vstd::arithmetic::power2;
use vstd::prelude::*;
use vstd::string::StringExecFns;

verus! {

/// The bit that holds the sign.
pub const SIGN_BIT: u64 = 0x8000_0000_0000_0000;

/// The bits of positive infinity; a magnitude above them is no number.
pub const INFINITY_BITS: u64 = 0x7ff0_0000_0000_0000;

/// The unit of the exponent field.
pub const EXPONENT_UNIT: u64 = 0x0010_0000_0000_0000;

/// The size of a number, in units of the smallest positive double: a magnitude's bits are an
/// exponent field above a fraction of 52 bits.
pub open spec fn size_of_bits(magnitude: nat) -> nat {
    let exponent = magnitude / (EXPONENT_UNIT as nat);
    let fraction = magnitude % (EXPONENT_UNIT as nat);
    if exponent == 0 {
        fraction
    } else {
        (EXPONENT_UNIT as nat + fraction) * power2::pow2((exponent - 1) as nat)
    }
}

/// The number one, in units of the smallest positive double.
pub open spec fn one() -> nat {
    power2::pow2(1074)
}

/// A double-precision number, held as its bits in the IEEE 754 format.
#[derive(Clone, Copy, Debug, PartialEq, Eq, Structural)]
pub struct Double {
    pub bits: u64,
}

impl Double {
    /// The bits apart from the sign.
    pub open spec fn magnitude(self) -> nat {
        if self.bits < SIGN_BIT {
            self.bits as nat
        } else {
            (self.bits - SIGN_BIT) as nat
        }
    }

    /// Whether the bits stand for no number at all.
    pub open spec fn is_nan(self) -> bool {
        self.magnitude() > INFINITY_BITS
    }

    /// The number, in units of the smallest positive double. The infinities come out as the
    /// next power of two beyond the finite numbers, which keeps the order.
    pub open spec fn value(self) -> int {
        if self.bits < SIGN_BIT {
            size_of_bits(self.magnitude()) as int
        } else {
            -size_of_bits(self.magnitude())
        }
    }

    /// Whether one number is less than another; what is no number is less than nothing.
    pub open spec fn less(self, other: Self) -> bool {
        !self.is_nan() && !other.is_nan() && self.value() < other.value()
    }

    /// Whether one number is at most another; what is no number is at most nothing.
    pub open spec fn at_most(self, other: Self) -> bool {
        !self.is_nan() && !other.is_nan() && self.value() <= other.value()
    }

    fn signed_bits(&self) -> (key: i128)
        ensures
            self.bits < SIGN_BIT ==> key == self.magnitude(),
            self.bits >= SIGN_BIT ==> key == -self.magnitude(),
    {
        if self.bits < SIGN_BIT {
            self.bits as i128
        } else {
            -((self.bits - SIGN_BIT) as i128)
        }
    }

    fn not_a_number(&self) -> (yes: bool)
        ensures
            yes == self.is_nan(),
    {
        if self.bits < SIGN_BIT {
            self.bits > INFINITY_BITS
        } else {
            self.bits - SIGN_BIT > INFINITY_BITS
        }
    }

    /// Whether one number is less than another.
    pub fn less_than(&self, other: &Double) -> (yes: bool)
        ensures
            yes == self.less(*other),
    {
        proof {
            lemma_order(*self, *other);
            lemma_order(*other, *self);
        }
        !self.not_a_number() && !other.not_a_number() && self.signed_bits() < other.signed_bits()
    }

    /// Whether one number is at most another.
    pub fn at_most_as(&self, other: &Double) -> (yes: bool)
        ensures
            yes == self.at_most(*other),
    {
        proof {
            lemma_order(*self, *other);
            lemma_order(*other, *self);
        }
        !self.not_a_number() && !other.not_a_number() && self.signed_bits() <= other.signed_bits()
    }
}

/// Larger bits, a larger number.
proof fn lemma_size_grows(a: nat, b: nat)
    requires
        a < b,
    ensures
        size_of_bits(a) < size_of_bits(b),
{
    let unit = EXPONENT_UNIT as nat;
    let (ea, fa) = (a / unit, a % unit);
    let (eb, fb) = (b / unit, b % unit);
    div_mod::lemma_fundamental_div_mod(a as int, unit as int);
    div_mod::lemma_fundamental_div_mod(b as int, unit as int);
    assert(ea <= eb) by {
        div_mod::lemma_div_is_ordered(a as int, b as int, unit as int);
    }
    if ea == eb {
        if ea > 0 {
            let p = power2::pow2((ea - 1) as nat);
            power2::lemma_pow2_pos((ea - 1) as nat);
            assert((unit + fa) * p < (unit + fb) * p) by (nonlinear_arith)
                requires
                    fa < fb,
                    p > 0,
            ;
        }
    } else {
        let pb = power2::pow2((eb - 1) as nat);
        power2::lemma_pow2_pos((eb - 1) as nat);
        if ea == 0 {
            assert((unit + fb) * pb >= unit) by (nonlinear_arith)
                requires
                    pb >= 1,
                    fb >= 0,
            ;
        } else {
            let pa = power2::pow2((ea - 1) as nat);
            power2::lemma_pow2_pos((ea - 1) as nat);
            if ea < eb - 1 {
                power2::lemma_pow2_strictly_increases(ea, (eb - 1) as nat);
            }
            power2::lemma_pow2_unfold(ea);
            assert((unit + fa) * pa < (unit + fb) * pb) by (nonlinear_arith)
                requires
                    fa < unit,
                    fb >= 0,
                    pa > 0,
                    pb >= 2 * pa,
            ;
        }
    }
}

/// The bits of the two numbers, signed, are ordered as the numbers are.
proof fn lemma_order(a: Double, b: Double)
    ensures
        ({
            let ka = if a.bits < SIGN_BIT { a.magnitude() as int } else { -a.magnitude() };
            let kb = if b.bits < SIGN_BIT { b.magnitude() as int } else { -b.magnitude() };
            ka < kb <==> a.value() < b.value()
        }),
{
    let (ma, mb) = (a.magnitude(), b.magnitude());
    assert(size_of_bits(0) == 0);
    if ma < mb {
        lemma_size_grows(ma, mb);
    }
    if mb < ma {
        lemma_size_grows(mb, ma);
    }
    if 0 < ma {
        lemma_size_grows(0, ma);
    }
    if 0 < mb {
        lemma_size_grows(0, mb);
    }
}

// ---- Writing amounts -----------------------------------------------------------------------

/// A quotient, rounded to the nearest whole number; half-way it is the even one.
pub open spec fn rounded(n: nat, d: nat) -> nat {
    let (q, r) = (n / d, n % d);
    if 2 * r > d || (2 * r == d && q % 2 == 1) {
        q + 1
    } else {
        q
    }
}

/// A number to four places: the nearest multiple of a ten-thousandth, half-way the even one.
pub open spec fn four_places(d: Double) -> Seq<char> {
    if d.is_nan() {
        "NaN"@
    } else {
        let sign = if d.bits < SIGN_BIT {
            Seq::empty()
        } else {
            "-"@
        };
        if d.magnitude() == INFINITY_BITS {
            sign + "inf"@
        } else {
            let n = rounded(size_of_bits(d.magnitude()) * 10000, one());
            sign + text::decimal(n / 10000) + "."@ + text::zero_filled(n % 10000, 4)
        }
    }
}

/// The number that some digits stand for when they follow those of a given number.
pub open spec fn numeral(head: nat, digits: Seq<u8>) -> nat
    decreases digits.len(),
{
    if digits.len() == 0 {
        head
    } else {
        numeral(head, digits.drop_last()) * 10 + digits.last() as nat
    }
}

/// Whether these are the digits of a number: without leading zeros.
pub open spec fn well_written(digits: Seq<u8>) -> bool {
    &&& digits.len() > 0
    &&& digits[0] > 0
    &&& forall|i: int| 0 <= i < digits.len() ==> (#[trigger] digits[i]) < 10
}

proof fn lemma_numeral_front(head: nat, digit: u8, rest: Seq<u8>)
    ensures
        numeral(head, seq![digit] + rest) == numeral(head * 10 + digit as nat, rest),
    decreases rest.len(),
{
    let all = seq![digit] + rest;
    if rest.len() == 0 {
        assert(all =~= seq![digit]);
        assert(all.drop_last() =~= seq![]);
        assert(numeral(head, all.drop_last()) == head);
    } else {
        assert(all.drop_last() =~= seq![digit] + rest.drop_last());
        lemma_numeral_front(head, digit, rest.drop_last());
    }
}

proof fn lemma_numeral_is_decimal(digits: Seq<u8>)
    requires
        well_written(digits),
    ensures
        numeral(0, digits) > 0,
        text::decimal(numeral(0, digits)) == digits.map_values(
            |d: u8| text::digit_char(d as nat),
        ),
    decreases digits.len(),
{
    let front = digits.drop_last();
    let n = numeral(0, digits);
    let last = digits.last() as nat;
    let chars = digits.map_values(|d: u8| text::digit_char(d as nat));
    if digits.len() == 1 {
        assert(numeral(0, front) == 0);
        assert(chars =~= seq![text::digit_char(n)]);
    } else {
        lemma_numeral_is_decimal(front);
        let f = numeral(0, front);
        assert(n == f * 10 + last && last < 10);
        assert(n / 10 == f && n % 10 == last);
        assert(chars =~= front.map_values(|d: u8| text::digit_char(d as nat)).push(
            text::digit_char(last),
        ));
    }
}

/// The digits of a number.
fn digits_of(n: u64) -> (digits: Vec<u8>)
    requires
        n > 0,
    ensures
        well_written(digits@),
        numeral(0, digits@) == n,
    decreases n,
{
    let last: u8 = (n % 10) as u8;
    if n < 10 {
        let mut digits: Vec<u8> = Vec::new();
        digits.push(last);
        assert(digits@.drop_last() =~= seq![]);
        assert(numeral(0, digits@.drop_last()) == 0);
        digits
    } else {
        let mut digits = digits_of(n / 10);
        let ghost before = digits@;
        digits.push(last);
        assert(digits@.drop_last() =~= before);
        digits
    }
}

/// Doubles the number that digits stand for.
fn double_digits(digits: &mut Vec<u8>)
    requires
        well_written(old(digits)@),
        old(digits)@.len() < usize::MAX,
    ensures
        well_written(final(digits)@),
        numeral(0, final(digits)@) == 2 * numeral(0, old(digits)@),
        final(digits)@.len() <= old(digits)@.len() + 1,
{
    let ghost before = digits@;
    let len: usize = digits.len();
    let mut carry: u8 = 0;
    let mut i: usize = len;
    assert(before.take(len as int) =~= before);
    assert(digits@.skip(len as int) =~= seq![]);
    while i > 0
        invariant
            i <= len,
            len == before.len(),
            digits@.len() == len,
            carry <= 1,
            well_written(before),
            forall|j: int| 0 <= j < i ==> (#[trigger] digits@[j]) == before[j],
            forall|j: int| i <= j < len ==> (#[trigger] digits@[j]) < 10,
            i == 0 ==> carry > 0 || digits@[0] > 0,
            numeral(
                2 * numeral(0, before.take(i as int)) + carry as nat,
                digits@.skip(i as int),
            ) == 2 * numeral(0, before),
        decreases i,
    {
        let ghost rest = digits@.skip(i as int);
        let ghost front = numeral(0, before.take(i - 1));
        assert(digits@[i - 1] == before[i - 1]);
        assert(before[i - 1] < 10);
        let x: u8 = digits[i - 1] * 2 + carry;
        let ghost old_carry = carry as nat;
        digits.set(i - 1, x % 10);
        carry = x / 10;
        proof {
            assert(before.take(i as int).drop_last() =~= before.take(i - 1));
            assert(before.take(i as int).last() == before[i - 1]);
            assert(2 * numeral(0, before.take(i as int)) + old_carry == (2 * front + carry as nat)
                * 10 + (x % 10) as nat);
            assert(digits@.skip(i - 1) =~= seq![(x % 10) as u8] + rest);
            lemma_numeral_front(2 * front + carry as nat, (x % 10) as u8, rest);
        }
        i = i - 1;
    }
    assert(before.take(0) =~= seq![]);
    assert(digits@.skip(0) =~= digits@);
    if carry > 0 {
        let ghost low = digits@;
        digits.insert(0, carry);
        proof {
            assert(digits@ =~= seq![carry] + low);
            lemma_numeral_front(0, carry, low);
        }
    }
}

/// The decimal numeral of a number times a power of two.
fn shifted_text(n: u64, shift: u64) -> (s: String)
    requires
        n > 0,
        shift <= 2000,
    ensures
        s@ == text::decimal(n as nat * power2::pow2(shift as nat)),
{
    let mut digits = digits_of(n);
    let ghost start = digits@.len();
    let mut i: u64 = 0;
    proof {
        power2::lemma2_to64();
        lemma_digit_count(digits@);
        assert(n as nat * power2::pow2(0) == n) by (nonlinear_arith)
            requires
                power2::pow2(0) == 1,
        ;
    }
    while i < shift
        invariant
            i <= shift <= 2000,
            start <= 20,
            well_written(digits@),
            digits@.len() <= start + i,
            numeral(0, digits@) == n as nat * power2::pow2(i as nat),
        decreases shift - i,
    {
        double_digits(&mut digits);
        proof {
            power2::lemma_pow2_unfold((i + 1) as nat);
            let p = power2::pow2(i as nat);
            assert(2 * (n as nat * p) == n as nat * (2 * p)) by (nonlinear_arith);
        }
        i = i + 1;
    }
    let mut s = String::new();
    let mut k: usize = 0;
    let ghost chars = digits@.map_values(|d: u8| text::digit_char(d as nat));
    assert(s@ =~= chars.take(0));
    while k < digits.len()
        invariant
            k <= digits@.len(),
            well_written(digits@),
            chars == digits@.map_values(|d: u8| text::digit_char(d as nat)),
            s@ == chars.take(k as int),
        decreases digits@.len() - k,
    {
        assert(digits@[k as int] < 10);
        let digit: u8 = 48 + digits[k];
        s.push(digit as char);
        assert(chars.take(k + 1) =~= chars.take(k as int).push(chars[k as int]));
        k = k + 1;
    }
    proof {
        lemma_numeral_is_decimal(digits@);
        assert(chars.take(k as int) =~= chars);
    }
    s
}

/// A number of 64 bits has at most twenty digits.
proof fn lemma_digit_count(digits: Seq<u8>)
    requires
        well_written(digits),
        numeral(0, digits) <= u64::MAX,
    ensures
        digits.len() <= 20,
{
    if digits.len() > 20 {
        lemma_grows(digits, 21);
        reveal_with_fuel(power::pow, 21);
        assert(power::pow(10, 20) == 100_000_000_000_000_000_000);
    }
}

/// A number with at least `k` digits is at least the smallest such number.
proof fn lemma_grows(digits: Seq<u8>, k: nat)
    requires
        well_written(digits),
        0 < k <= digits.len(),
    ensures
        numeral(0, digits) >= power::pow(10, (k - 1) as nat),
    decreases digits.len(),
{
    reveal_with_fuel(power::pow, 2);
    let front = digits.drop_last();
    if k < digits.len() {
        lemma_grows(front, k);
    } else if digits.len() == 1 {
        assert(numeral(0, front) == 0);
        assert(digits.last() == digits[0]);
    } else {
        lemma_grows(front, (k - 1) as nat);
        assert(power::pow(10, (k - 1) as nat) == 10
            * power::pow(10, (k - 2) as nat));
    }
}

/// A quotient is rounded alike when both numbers are multiplied.
proof fn lemma_rounded_scales(n: nat, d: nat, c: nat)
    requires
        d > 0,
        c > 0,
    ensures
        rounded(n * c, d * c) == rounded(n, d),
        d * c > 0,
{
    let (q, r) = (n / d, n % d);
    div_mod::lemma_fundamental_div_mod(n as int, d as int);
    assert(d * c > 0) by (nonlinear_arith)
        requires
            d > 0,
            c > 0,
    ;
    assert(n * c == q * (d * c) + r * c) by (nonlinear_arith)
        requires
            n == d * q + r,
    ;
    assert(0 <= r * c < d * c) by (nonlinear_arith)
        requires
            0 <= r < d,
            c > 0,
    ;
    div_mod::lemma_fundamental_div_mod_converse(
        (n * c) as int,
        (d * c) as int,
        q as int,
        (r * c) as int,
    );
    assert((2 * (r * c) > d * c) == (2 * r > d)) by (nonlinear_arith)
        requires
            c > 0,
    ;
    assert((2 * (r * c) == d * c) == (2 * r == d)) by (nonlinear_arith)
        requires
            c > 0,
    ;
}

/// How many ten-thousandths come nearest to `m` over the `k`-th power of two.
fn ten_thousandths(m: u64, k: u64) -> (n: u128)
    requires
        m < 2 * EXPONENT_UNIT,
    ensures
        n == rounded(m as nat * 10000, power2::pow2(k as nat)),
        n < 0x8_0000_0000_0000_0000,
{
    let numerator: u128 = m as u128 * 10000;
    proof {
        power2::lemma_pow2_pos(k as nat);
        power2::lemma2_to64();
        power2::lemma2_to64_rest();
    }
    if k > 68 {
        proof {
            power2::lemma_pow2_strictly_increases(68, k as nat);
            power2::lemma_pow2_adds(64, 4);
            let d = power2::pow2(k as nat);
            assert(numerator < d);
            div_mod::lemma_basic_div(numerator as int, d as int);
            div_mod::lemma_small_mod(numerator as nat, d);
        }
        return 0;
    }
    let mut divisor: u128 = 1;
    let mut i: u64 = 0;
    while i < k
        invariant
            i <= k <= 68,
            divisor == power2::pow2(i as nat),
            divisor <= 0x10_0000_0000_0000_0000,
            i < 68 ==> divisor <= 0x8_0000_0000_0000_0000,
        decreases k - i,
    {
        proof {
            power2::lemma_pow2_unfold((i + 1) as nat);
            power2::lemma2_to64();
            power2::lemma2_to64_rest();
            power2::lemma_pow2_adds(64, 3);
            if i + 1 < 67 {
                power2::lemma_pow2_strictly_increases((i + 1) as nat, 67);
            }
        }
        divisor = divisor * 2;
        i = i + 1;
    }
    let q: u128 = numerator / divisor;
    let r: u128 = numerator % divisor;
    assert(q <= numerator) by (nonlinear_arith)
        requires
            q == numerator / divisor,
            divisor >= 1,
    ;
    assert(r < divisor) by (nonlinear_arith)
        requires
            r == numerator % divisor,
            divisor >= 1,
    ;
    if 2 * r > divisor || (2 * r == divisor && q % 2 == 1) {
        q + 1
    } else {
        q
    }
}

impl Double {
    /// The number to four places.
    pub fn to_four_places(&self) -> (s: String)
        ensures
            s@ == four_places(*self),
    {
        if self.not_a_number() {
            return "NaN".to_owned();
        }
        let positive = self.bits < SIGN_BIT;
        let magnitude: u64 = if positive { self.bits } else { self.bits - SIGN_BIT };
        let mut s = if positive { String::new() } else { "-".to_owned() };
        let ghost sign = s@;
        assert(positive ==> sign =~= Seq::empty());
        if magnitude == INFINITY_BITS {
            s.append("inf");
            return s;
        }
        let exponent: u64 = magnitude / EXPONENT_UNIT;
        let fraction: u64 = magnitude % EXPONENT_UNIT;
        let m: u64 = if exponent == 0 { fraction } else { EXPONENT_UNIT + fraction };
        let shift: u64 = if exponent == 0 { 0 } else { exponent - 1 };
        let ghost size = size_of_bits(magnitude as nat);
        let ghost n = rounded(size * 10000, one());
        proof {
            power2::lemma2_to64();
            power2::lemma_pow2_pos(shift as nat);
            assert(exponent < 2047) by {
                assert(INFINITY_BITS == 2047 * EXPONENT_UNIT);
            }
            assert(size == m as nat * power2::pow2(shift as nat)) by {
                if exponent == 0 {
                    assert(m as nat * power2::pow2(0) == m) by (nonlinear_arith)
                        requires
                            power2::pow2(0) == 1,
                    ;
                }
            }
        }
        if shift < 1074 {
            let k: u64 = 1074 - shift;
            let places: u128 = ten_thousandths(m, k);
            proof {
                let c = power2::pow2(shift as nat);
                let d = power2::pow2(k as nat);
                power2::lemma_pow2_pos(k as nat);
                power2::lemma_pow2_adds(k as nat, shift as nat);
                lemma_rounded_scales(m as nat * 10000, d, c);
                assert(m as nat * 10000 * c == m as nat * c * 10000) by (nonlinear_arith);
                assert(n == places);
            }
            s.append(text::u64_text((places / 10000) as u64).as_str());
            s.append(".");
            s.append(text::zero_filled_text((places % 10000) as u64, 4).as_str());
        } else {
            let up: u64 = shift - 1074;
            proof {
                let whole = m as nat * power2::pow2(up as nat);
                power2::lemma_pow2_adds(up as nat, 1074);
                power2::lemma_pow2_pos(1074);
                let (a, b) = (power2::pow2(up as nat), one());
                assert(m as nat * (a * b) * 10000 == (m as nat * a * 10000) * b)
                    by (nonlinear_arith);
                assert(rounded(whole * 10000 * b, b) == whole * 10000) by {
                    div_mod::lemma_fundamental_div_mod_converse(
                        (whole * 10000 * b) as int,
                        b as int,
                        (whole * 10000) as int,
                        0,
                    );
                }
                assert(n == whole * 10000);
                assert(n / 10000 == whole && n % 10000 == 0);
            }
            s.append(shifted_text(m, up).as_str());
            s.append(".");
            s.append(text::zero_filled_text(0, 4).as_str());
        }
        s
    }
}

// ---- What numbers promise ------------------------------------------------------------------

/// The bits of a double are a sign, an exponent and a fraction. The number is the fraction, with a
/// leading one where the exponent is not zero, doubled as often as the exponent says.
pub proof fn law_bits_are_a_number(negative: bool, exponent: nat, fraction: nat)
    requires
        exponent < 2047,
        fraction < 0x10_0000_0000_0000,
    ensures
        ({
            let bits = (if negative {
                0x8000_0000_0000_0000int
            } else {
                0int
            }) + exponent * 0x10_0000_0000_0000 + fraction;
            let d = Double { bits: bits as u64 };
            let size = if exponent == 0 {
                fraction as int
            } else {
                (0x10_0000_0000_0000int + fraction) * power2::pow2((exponent - 1) as nat)
            };
            &&& bits <= u64::MAX
            &&& !d.is_nan()
            &&& d.value() == (if negative {
                -size
            } else {
                size
            })
        }),
{
    let m = exponent * 0x10_0000_0000_0000 + fraction;
    assert(m / 0x10_0000_0000_0000 == exponent && m % 0x10_0000_0000_0000 == fraction) by {
        div_mod::lemma_fundamental_div_mod_converse(
            m as int,
            0x10_0000_0000_0000,
            exponent as int,
            fraction as int,
        );
    }
}

/// Of two numbers exactly one is less than the other, or they are equal; at most is what is not
/// more. What is no number is neither.
pub proof fn law_numbers_are_ordered(a: Double, b: Double)
    ensures
        a.is_nan() || b.is_nan() ==> !a.less(b) && !a.at_most(b),
        !a.is_nan() && !b.is_nan() ==> {
            &&& a.less(b) <==> a.value() < b.value()
            &&& a.at_most(b) <==> !b.less(a)
            &&& a.at_most(b) && b.at_most(a) <==> a.value() == b.value()
        },
        (Double { bits: 0 }).value() == 0,
        !(Double { bits: 0 }).is_nan(),
{
    assert(size_of_bits(0) == 0);
}

/// A rounded quotient is nearest to the quotient: it is off by at most a half, and where it is off by
/// just a half it is even.
pub proof fn law_rounding_is_nearest(n: nat, d: nat)
    requires
        d > 0,
    ensures
        -(d as int) <= 2 * n - 2 * (rounded(n, d) * d) <= d,
        2 * n - 2 * (rounded(n, d) * d) == d || 2 * (rounded(n, d) * d) - 2 * n == d ==> rounded(
            n,
            d,
        ) % 2 == 0,
{
    let (q, r) = (n / d, n % d);
    div_mod::lemma_fundamental_div_mod(n as int, d as int);
    assert(d * q == q * d) by (nonlinear_arith);
    assert((q + 1) * d == q * d + d) by (nonlinear_arith);
}

/// An amount as it is written, without the minus sign.
pub open spec fn without_sign(d: Double) -> Seq<char> {
    if d.bits >= 0x8000_0000_0000_0000 {
        four_places(d).skip(1)
    } else {
        four_places(d)
    }
}

/// An amount as it is written ends with a point and four digits. Read back without the point, its
/// digits are the count of ten-thousandths that comes nearest to the amount; half-way it is the even
/// one. A minus sign stands before the amounts whose sign bit is set.
pub proof fn law_four_places_are_nearest(d: Double)
    requires
        d.magnitude() < 0x7ff0_0000_0000_0000,
    ensures
        ({
            let t = four_places(d);
            let u = without_sign(d);
            let n = u.len();
            let k = text::digits_value(u.take(n - 5)) * 10000 + text::digits_value(u.skip(n - 4));
            let size = if d.value() < 0 {
                -d.value()
            } else {
                d.value()
            };
            &&& d.bits >= 0x8000_0000_0000_0000 ==> t.len() > 0 && t[0] == '-'
            &&& n >= 6
            &&& u[n - 5] == '.'
            &&& n > 6 ==> u[0] != '0'
            &&& forall|i: int| 0 <= i < n && i != n - 5 ==> text::is_digit(#[trigger] u[i])
            &&& -(one() as int) <= 2 * (size * 10000) - 2 * (k * one()) <= one()
            &&& 2 * (size * 10000) - 2 * (k * one()) == one() || 2 * (k * one()) - 2 * (size
                * 10000) == one() ==> k % 2 == 0
        }),
{
    reveal_strlit("-");
    reveal_strlit(".");
    let size = size_of_bits(d.magnitude());
    let k = rounded(size * 10000, one());
    power2::lemma_pow2_pos(1074);
    law_rounding_is_nearest(size * 10000, one());
    let whole = text::decimal(k / 10000);
    let places = text::zero_filled(k % 10000, 4);
    text::law_decimal_reads_back(k / 10000);
    text::law_decimal_length(k / 10000);
    text::law_no_leading_zeros(k / 10000);
    text::law_zero_filled(k % 10000, 4);
    text::law_decimal_length(k % 10000);
    assert(text::decimal(k % 10000).len() <= 4) by {
        reveal_with_fuel(power::pow, 6);
        let len = text::decimal(k % 10000).len();
        if len > 4 {
            power::lemma_pow_increases(10, 4, (len - 1) as nat);
            assert(power::pow(10, 4) == 10000);
        }
    }
    let u = without_sign(d);
    assert(u =~= whole + "."@ + places);
    let n = u.len();
    assert(u.take(n - 5) =~= whole);
    assert(u.skip(n - 4) =~= places);
    assert forall|i: int| 0 <= i < n && i != n - 5 implies text::is_digit(#[trigger] u[i]) by {
        if i < n - 5 {
            assert(u[i] == whole[i]);
        } else {
            assert(u[i] == places[i - (n - 4)]);
        }
    }
}

/// What is no number and what is infinite is written as such.
pub proof fn law_infinities_are_written(d: Double)
    ensures
        d.magnitude() > 0x7ff0_0000_0000_0000 ==> four_places(d) == "NaN"@,
        d.bits == 0x7ff0_0000_0000_0000 ==> four_places(d) == "inf"@,
        d.bits == 0xfff0_0000_0000_0000 ==> four_places(d) == "-inf"@,
{
    reveal_strlit("inf");
    reveal_strlit("-");
    reveal_strlit("-inf");
    assert(Seq::<char>::empty() + "inf"@ =~= "inf"@);
    assert("-"@ + "inf"@ =~= "-inf"@);
}

/// Of the bits with the largest exponent those without a fraction are infinite, which is more than
/// any finite number, and the others are no number.
pub proof fn law_beyond_all_numbers(fraction: nat, d: Double)
    requires
        fraction < 0x10_0000_0000_0000,
        d.magnitude() < 0x7ff0_0000_0000_0000,
    ensures
        (Double { bits: (0x7ff0_0000_0000_0000 + fraction) as u64 }).is_nan() <==> fraction > 0,
        (Double { bits: (0xfff0_0000_0000_0000 + fraction) as u64 }).is_nan() <==> fraction > 0,
        !d.is_nan(),
        d.value() < (Double { bits: 0x7ff0_0000_0000_0000 }).value(),
        (Double { bits: 0xfff0_0000_0000_0000 }).value() < d.value(),
{
    lemma_size_grows(d.magnitude(), 0x7ff0_0000_0000_0000);
    assert((Double { bits: 0xfff0_0000_0000_0000 }).magnitude() == 0x7ff0_0000_0000_0000);
}

} // verus!
