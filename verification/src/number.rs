//! Double-precision numbers, held as plain values.

use vstd::arithmetic::power2;
use vstd::prelude::*;

use crate::text;

verus! {

/// A double-precision number: its IEEE 754 bit pattern and its shortest decimal
/// text. A caller makes one from a number with `to_bits` and `to_string`.
#[derive(Debug, PartialEq, Eq)]
pub struct SlotNumber {
    /// The bit pattern: sign (1), biased exponent (11), fraction (52).
    pub bits: u64,
    /// The decimal text, `NaN`, `inf` or `-inf`.
    pub text: String,
}

/// What a [`SlotNumber`] holds.
pub struct NumberView {
    pub bits: u64,
    pub text: Seq<char>,
}

impl View for SlotNumber {
    type V = NumberView;

    open spec fn view(&self) -> NumberView {
        NumberView { bits: self.bits, text: self.text@ }
    }
}

/// The sign bit is set.
pub open spec fn is_negative(bits: u64) -> bool {
    bits >= 0x8000_0000_0000_0000
}

/// The biased exponent.
pub open spec fn exponent(bits: u64) -> int {
    (bits / 0x10_0000_0000_0000 % 0x800) as int
}

/// The fraction.
pub open spec fn fraction(bits: u64) -> int {
    (bits % 0x10_0000_0000_0000) as int
}

/// The number is neither infinite nor NaN.
pub open spec fn is_finite(bits: u64) -> bool {
    exponent(bits) != 0x7ff
}

/// The number is not a number.
pub open spec fn is_nan(bits: u64) -> bool {
    exponent(bits) == 0x7ff && fraction(bits) != 0
}

/// The number is zero, of either sign.
pub open spec fn is_zero(bits: u64) -> bool {
    exponent(bits) == 0 && fraction(bits) == 0
}

/// The significand of a normal number, with its leading one.
pub open spec fn significand(bits: u64) -> int {
    0x10_0000_0000_0000 + fraction(bits)
}

/// The number is finite and has no fractional part. A normal number is its
/// significand scaled by two to the power of its exponent less 1075.
pub open spec fn is_integral(bits: u64) -> bool {
    if exponent(bits) == 0 {
        fraction(bits) == 0
    } else if exponent(bits) >= 1075 {
        is_finite(bits)
    } else {
        exponent(bits) >= 1023 && significand(bits) % power2::pow2((1075 - exponent(bits)) as nat) as int
            == 0
    }
}

/// The absolute value of a number without a fractional part.
pub open spec fn magnitude(bits: u64) -> int {
    if exponent(bits) == 0 {
        0
    } else if exponent(bits) >= 1075 {
        significand(bits) * power2::pow2((exponent(bits) - 1075) as nat)
    } else {
        significand(bits) / power2::pow2((1075 - exponent(bits)) as nat) as int
    }
}

/// A number without a fractional part as a 64-bit integer; one that does not
/// fit becomes the nearest integer that does.
pub open spec fn as_integer(bits: u64) -> int {
    if is_negative(bits) {
        if -magnitude(bits) < i64::MIN {
            i64::MIN as int
        } else {
            -magnitude(bits)
        }
    } else if magnitude(bits) > i64::MAX {
        i64::MAX as int
    } else {
        magnitude(bits)
    }
}

/// The text of a number: integers plainly, all else by its decimal text.
pub open spec fn number_text(n: NumberView) -> Seq<char> {
    if is_integral(n.bits) {
        text::signed_decimal(as_integer(n.bits))
    } else {
        n.text
    }
}

/// The bit pattern that stands for every NaN.
pub const CANONICAL_NAN: u64 = 0x7ff8_0000_0000_0000;

/// The number with every NaN written the same way.
pub open spec fn canonical(n: NumberView) -> NumberView {
    if is_nan(n.bits) {
        NumberView { bits: CANONICAL_NAN, text: n.text }
    } else {
        n
    }
}

/// The double-precision number that std's `str::parse` reads in `text`, with
/// every NaN written the same way.
pub uninterp spec fn parsed_number(text: Seq<char>) -> Option<NumberView>;

/// `str::parse` reads a double-precision number. What it gives is a function of
/// the text alone, except that the bit pattern of a NaN is not fixed; which
/// texts it accepts is not stated here. `serde_json::Number::from_f64` only
/// fixes the type that is parsed.
#[verifier::external_body]
pub(crate) fn parse_number(text: &str) -> (res: Option<SlotNumber>)
    ensures
        match res {
            Some(n) => parsed_number(text@) == Some(canonical(n@)),
            None => parsed_number(text@) is None,
        },
{
    let value = text.parse().ok()?;
    let _ = serde_json::Number::from_f64(value);
    Some(SlotNumber { bits: value.to_bits(), text: value.to_string() })
}

/// Two to the power `n`.
fn power_of_two(n: u64) -> (res: u64)
    requires
        n < 64,
    ensures
        res == power2::pow2(n as nat),
        1 <= res,
{
    let mut res: u64 = 1;
    let mut i: u64 = 0;
    proof {
        power2::lemma2_to64();
        power2::lemma2_to64_rest();
    }
    while i < n
        invariant
            i <= n < 64,
            res == power2::pow2(i as nat),
            1 <= res,
        decreases n - i,
    {
        proof {
            power2::lemma_pow2_unfold((i + 1) as nat);
            power2::lemma2_to64();
            power2::lemma2_to64_rest();
            if i + 1 < 63 {
                power2::lemma_pow2_strictly_increases((i + 1) as nat, 63);
            }
        }
        res = res * 2;
        i += 1;
    }
    res
}

impl Clone for SlotNumber {
    fn clone(&self) -> (res: Self)
        ensures
            res@ == self@,
    {
        SlotNumber { bits: self.bits, text: self.text.clone() }
    }
}

impl SlotNumber {
    /// Whether the number is other than zero. NaN is.
    pub fn is_nonzero(&self) -> (res: bool)
        ensures
            res == !is_zero(self.bits),
    {
        self.bits / 0x10_0000_0000_0000 % 0x800 != 0 || self.bits % 0x10_0000_0000_0000 != 0
    }

    /// Whether the number is neither infinite nor NaN.
    pub fn is_finite(&self) -> (res: bool)
        ensures
            res == is_finite(self.bits),
    {
        self.bits / 0x10_0000_0000_0000 % 0x800 != 0x7ff
    }

    /// The number as a 64-bit integer, where it is finite and has no
    /// fractional part; one that does not fit becomes the nearest that does.
    pub fn to_integer(&self) -> (res: Option<i64>)
        ensures
            match res {
                Some(n) => is_integral(self.bits) && n == as_integer(self.bits),
                None => !is_integral(self.bits),
            },
    {
        let exp = self.bits / 0x10_0000_0000_0000 % 0x800;
        let frac = self.bits % 0x10_0000_0000_0000;
        let sig = 0x10_0000_0000_0000 + frac;
        let size: u64 = if exp == 0 {
            if frac != 0 {
                return None;
            }
            0
        } else if exp == 0x7ff {
            return None;
        } else if exp >= 1086 {
            proof {
                let shift = (exp - 1075) as nat;
                power2::lemma2_to64();
                if shift > 11 {
                    power2::lemma_pow2_strictly_increases(11, shift);
                }
                assert(sig * power2::pow2(shift) >= 0x8000_0000_0000_0000) by (nonlinear_arith)
                    requires
                        sig >= 0x10_0000_0000_0000,
                        power2::pow2(shift) >= 0x800,
                ;
            }
            0x8000_0000_0000_0000
        } else if exp >= 1075 {
            let scale = power_of_two(exp - 1075);
            proof {
                power2::lemma2_to64();
                if exp - 1075 < 10 {
                    power2::lemma_pow2_strictly_increases(
                        (exp - 1075) as nat,
                        10,
                    );
                }
                assert(sig * scale <= 0x7fff_ffff_ffff_ffff) by (nonlinear_arith)
                    requires
                        sig < 0x20_0000_0000_0000,
                        1 <= scale <= 0x400,
                ;
            }
            sig * scale
        } else if exp >= 1023 {
            let scale = power_of_two(1075 - exp);
            if sig % scale != 0 {
                return None;
            }
            proof {
                assert(sig / scale <= sig) by (nonlinear_arith)
                    requires
                        1 <= scale,
                ;
            }
            sig / scale
        } else {
            return None;
        };
        if self.bits >= 0x8000_0000_0000_0000 {
            if size >= 0x8000_0000_0000_0000 {
                Some(i64::MIN)
            } else {
                Some(-(size as i64))
            }
        } else if size >= 0x8000_0000_0000_0000 {
            Some(i64::MAX)
        } else {
            Some(size as i64)
        }
    }

    /// The text of the number: integers plainly, all else by its decimal text.
    pub fn to_text(&self) -> (res: String)
        ensures
            res@ == number_text(self@),
    {
        match self.to_integer() {
            Some(n) => {
                let mut out = String::new();
                text::push_signed_decimal(&mut out, n);
                out
            },
            None => self.text.clone(),
        }
    }

    /// The number with every NaN written the same way.
    pub fn into_canonical(self) -> (res: SlotNumber)
        ensures
            res@ == canonical(self@),
    {
        if self.bits / 0x10_0000_0000_0000 % 0x800 == 0x7ff && self.bits % 0x10_0000_0000_0000
            != 0 {
            SlotNumber { bits: CANONICAL_NAN, text: self.text }
        } else {
            self
        }
    }
}

// ---------------------------------------------------------------------------
// Laws
// ---------------------------------------------------------------------------

/// The absolute value of a finite number, counted in units of two to the power of
/// -1074: the smallest number above zero is one unit.
pub open spec fn units(bits: u64) -> int {
    let e = bits as int / 0x10_0000_0000_0000 % 0x800;
    let f = bits as int % 0x10_0000_0000_0000;
    if e == 0 {
        f
    } else {
        (0x10_0000_0000_0000 + f) * power2::pow2((e - 1) as nat)
    }
}

proof fn small_units(x: int, n: nat)
    requires
        0 <= x < 0x20_0000_0000_0000,
        n >= 53,
    ensures
        x % power2::pow2(n) as int == x,
        x < power2::pow2(n),
{
    power2::lemma2_to64_rest();
    if n > 53 {
        power2::lemma_pow2_strictly_increases(53, n);
    }
    assert(power2::pow2(53) == 0x20_0000_0000_0000);
    vstd::arithmetic::div_mod::lemma_small_mod(x as nat, power2::pow2(n));
}

/// A number is an integer where its value is a multiple of one, and then its absolute
/// value is that many ones. Infinities and NaN are no integers.
pub proof fn integers_are_multiples_of_one(bits: u64)
    ensures
        bits as int / 0x10_0000_0000_0000 % 0x800 == 0x7ff ==> !is_integral(bits),
        bits as int / 0x10_0000_0000_0000 % 0x800 != 0x7ff ==> (is_integral(bits) <==> units(bits)
            % power2::pow2(1074) as int == 0),
        is_integral(bits) ==> magnitude(bits) * power2::pow2(1074) == units(bits),
        bits as int / 0x10_0000_0000_0000 % 0x800 != 0x7ff ==> (is_zero(bits) <==> units(bits)
            == 0),
{
    let e = bits as int / 0x10_0000_0000_0000 % 0x800;
    let f = bits as int % 0x10_0000_0000_0000;
    let one = power2::pow2(1074) as int;
    assert(exponent(bits) == e && fraction(bits) == f);
    power2::lemma_pow2_pos(1074);
    if e == 0 {
        small_units(f, 1074);
    } else {
        let sig = 0x10_0000_0000_0000 + f;
        let low = power2::pow2((e - 1) as nat) as int;
        power2::lemma_pow2_pos((e - 1) as nat);
        assert(sig * low > 0) by (nonlinear_arith)
            requires
                sig > 0,
                low > 0,
        ;
        if e >= 1075 {
            let high = power2::pow2((e - 1075) as nat) as int;
            power2::lemma_pow2_adds((e - 1075) as nat, 1074);
            assert(low == high * one);
            assert(sig * low == (sig * high) * one) by (nonlinear_arith)
                requires
                    low == high * one,
            ;
            vstd::arithmetic::div_mod::lemma_mod_multiples_basic(sig * high, one);
        } else {
            let k = (1075 - e) as nat;
            let scale = power2::pow2(k) as int;
            power2::lemma_pow2_pos(k);
            power2::lemma_pow2_adds((e - 1) as nat, k);
            assert(one == low * scale);
            vstd::arithmetic::div_mod::lemma_truncate_middle(sig, low, scale);
            assert(sig * low == low * sig) by (nonlinear_arith);
            let rest = sig % scale;
            assert(low * rest == 0 <==> rest == 0) by (nonlinear_arith)
                requires
                    low > 0,
            ;
            if e < 1023 {
                small_units(sig, k);
            } else if rest == 0 {
                vstd::arithmetic::div_mod::lemma_fundamental_div_mod(sig, scale);
                let q = sig / scale;
                assert(q * (low * scale) == sig * low) by (nonlinear_arith)
                    requires
                        sig == scale * q,
                ;
            }
        }
    }
}

/// An integer keeps its sign, and one beyond the 64-bit integers becomes the nearest of
/// them.
pub proof fn integers_keep_their_sign(bits: u64)
    requires
        is_integral(bits),
    ensures
        magnitude(bits) >= 0,
        bits < 0x8000_0000_0000_0000 && magnitude(bits) <= 0x7fff_ffff_ffff_ffff ==> as_integer(
            bits,
        ) == magnitude(bits),
        bits < 0x8000_0000_0000_0000 && magnitude(bits) > 0x7fff_ffff_ffff_ffff ==> as_integer(bits)
            == 0x7fff_ffff_ffff_ffff,
        bits >= 0x8000_0000_0000_0000 && magnitude(bits) <= 0x8000_0000_0000_0000 ==> as_integer(
            bits,
        ) == -magnitude(bits),
        bits >= 0x8000_0000_0000_0000 && magnitude(bits) > 0x8000_0000_0000_0000 ==> as_integer(
            bits,
        ) == -0x8000_0000_0000_0000,
{
    integers_are_multiples_of_one(bits);
    let (m, one) = (magnitude(bits), power2::pow2(1074) as int);
    power2::lemma_pow2_pos(1074);
    assert(units(bits) >= 0) by {
        let e = bits as int / 0x10_0000_0000_0000 % 0x800;
        let f = bits as int % 0x10_0000_0000_0000;
        if e > 0 {
            let low = power2::pow2((e - 1) as nat) as int;
            assert((0x10_0000_0000_0000 + f) * low >= 0) by (nonlinear_arith)
                requires
                    f >= 0,
                    low >= 0,
            ;
        }
    }
    assert(m >= 0) by (nonlinear_arith)
        requires
            m * one >= 0,
            one > 0,
    ;
}

/// Numbers are shown as integers where they are, and by their decimal text otherwise.
/// Every NaN is made the same, and nothing else is changed.
pub proof fn numbers_are_shown(n: NumberView)
    ensures
        is_integral(n.bits) ==> number_text(n) == text::signed_decimal(as_integer(n.bits)),
        !is_integral(n.bits) ==> number_text(n) == n.text,
        canonical(n).text == n.text,
        n.bits as int % 0x8000_0000_0000_0000 <= 0x7ff0_0000_0000_0000 ==> canonical(n) == n,
        n.bits as int % 0x8000_0000_0000_0000 > 0x7ff0_0000_0000_0000 ==> canonical(n).bits
            == 0x7ff8_0000_0000_0000,
{
    let b = n.bits;
    assert((b / 0x10_0000_0000_0000 % 0x800 == 0x7ff && b % 0x10_0000_0000_0000 != 0) <==> b
        % 0x8000_0000_0000_0000 > 0x7ff0_0000_0000_0000) by (bit_vector);
}

} // verus!
