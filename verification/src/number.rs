//! Numbers in text: decimal integers, and doubles held by their IEEE 754 bits.

use vstd::prelude::*;

use crate::text;
use crate::text::{chars_of, digit};

verus! {

// ------------------------------------------------------------- integers

/// The character of a digit below ten.
pub open spec fn digit_char(d: nat) -> char {
    (0x30 + d) as u32 as char
}

/// Decimal text of `n`, without leading zeros.
pub open spec fn decimal(n: nat) -> Seq<char>
    decreases n,
{
    if n < 10 {
        seq![digit_char(n)]
    } else {
        decimal(n / 10).push(digit_char(n % 10))
    }
}

/// The number a run of digits spells.
pub open spec fn digits_value(s: Seq<char>) -> nat
    decreases s.len(),
{
    if s.len() == 0 {
        0
    } else {
        (10 * digits_value(s.drop_last()) + (s.last() as u32 - 0x30)) as nat
    }
}

pub open spec fn all_digits(s: Seq<char>) -> bool {
    forall|i: int| 0 <= i < s.len() ==> text::is_digit(#[trigger] s[i])
}

/// An unsigned integer no larger than `max`: digits, at most one leading `+`.
pub open spec fn parse_unsigned(s: Seq<char>, max: nat) -> Option<nat> {
    let body = if s.len() > 0 && s[0] == '+' {
        s.drop_first()
    } else {
        s
    };
    if body.len() > 0 && all_digits(body) && digits_value(body) <= max {
        Some(digits_value(body))
    } else {
        None
    }
}

/// Decimal text of `n`.
pub fn decimal_text(n: u64) -> (out: String)
    ensures
        out@ == decimal(n as nat),
    decreases n,
{
    if n < 10 {
        let mut out = String::new();
        let b: u8 = 0x30 + n as u8;
        out.push(b as char);
        assert(out@ =~= seq![digit_char(n as nat)]);
        out
    } else {
        let mut out = decimal_text(n / 10);
        let b: u8 = 0x30 + (n % 10) as u8;
        out.push(b as char);
        out
    }
}

/// Decimal text of a number with its sign.
pub open spec fn signed_decimal(n: int) -> Seq<char> {
    if n < 0 {
        "-"@ + decimal((-n) as nat)
    } else {
        decimal(n as nat)
    }
}

/// Decimal text of `n` with its sign.
pub fn signed_text(n: i64) -> (out: String)
    ensures
        out@ == signed_decimal(n as int),
{
    if n < 0 {
        let mut out = "-".to_owned();
        let size: i128 = -(n as i128);
        out.push_str(decimal_text(size as u64).as_str());
        out
    } else {
        decimal_text(n as u64)
    }
}

/// A longer run of digits spells a number at least as large.
proof fn lemma_digits_value_prefix(s: Seq<char>, i: int)
    requires
        all_digits(s),
        0 <= i <= s.len(),
    ensures
        digits_value(s.take(i)) <= digits_value(s),
    decreases s.len() - i,
{
    if i < s.len() {
        lemma_digits_value_prefix(s, i + 1);
        assert(s.take(i + 1).drop_last() =~= s.take(i));
        assert(text::is_digit(s[i]));
    } else {
        assert(s.take(i) =~= s);
    }
}

/// `text.parse()` into an unsigned integer no larger than `max`.
pub fn unsigned_of(text: &str, max: u64) -> (r: Option<u64>)
    ensures
        match r {
            Some(n) => parse_unsigned(text@, max as nat) == Some(n as nat) && n <= max,
            None => parse_unsigned(text@, max as nat) is None,
        },
{
    let chars = chars_of(text);
    let start: usize = if chars.len() > 0 && chars[0] == '+' {
        1
    } else {
        0
    };
    let ghost body = chars@.skip(start as int);
    proof {
        if start == 1 {
            assert(chars@.drop_first() =~= body);
        } else {
            assert(chars@ =~= body);
        }
    }
    if start == chars.len() {
        return None;
    }
    let mut value: u64 = 0;
    let mut i: usize = start;
    while i < chars.len()
        invariant
            chars@ == text@,
            start <= i <= chars@.len(),
            start < chars@.len(),
            body == chars@.skip(start as int),
            parse_unsigned(chars@, max as nat) == (if all_digits(body) && digits_value(body) <= max {
                Some(digits_value(body))
            } else {
                None
            }),
            forall|j: int| 0 <= j < i - start ==> text::is_digit(#[trigger] body[j]),
            value == digits_value(body.take(i - start)),
            value <= max,
        decreases chars@.len() - i,
    {
        let c = chars[i];
        assert(c == body[i - start]);
        if !digit(c) {
            return None;
        }
        let d: u64 = (c as u32 - 0x30) as u64;
        let wide: u128 = value as u128 * 10 + d as u128;
        proof {
            assert(body.take(i - start + 1).drop_last() =~= body.take(i - start));
            assert(wide == digits_value(body.take(i - start + 1)));
        }
        if wide > max as u128 {
            proof {
                if all_digits(body) {
                    lemma_digits_value_prefix(body, i - start + 1);
                }
            }
            return None;
        }
        value = wide as u64;
        i += 1;
    }
    assert(body.take(i - start) =~= body);
    Some(value)
}

// -------------------------------------------------------------- doubles

/// A double, as plain values: its bits and the texts it is shown as.
#[derive(Debug)]
pub struct Double {
    /// IEEE 754 binary64 bits.
    pub bits: u64,
    /// How the number reads in a sentence: `5`, `0.5`.
    pub shown: String,
    /// How the number reads in a diagnostic: `5.0`, `0.5`.
    pub debug: String,
    /// How the number is written as JSON; only finite numbers can be.
    pub json: Option<String>,
}

pub ghost struct DoubleModel {
    pub bits: u64,
    pub shown: Seq<char>,
    pub debug: Seq<char>,
    pub json: Option<Seq<char>>,
}

impl View for Double {
    type V = DoubleModel;

    open spec fn view(&self) -> DoubleModel {
        DoubleModel {
            bits: self.bits,
            shown: self.shown@,
            debug: self.debug@,
            json: text::opt(self.json),
        }
    }
}

impl Double {
    /// The same number again.
    pub fn copy(&self) -> (out: Double)
        ensures
            out == *self,
    {
        Double {
            bits: self.bits,
            shown: self.shown.clone(),
            debug: self.debug.clone(),
            json: text::copied(&self.json),
        }
    }
}

/// What the standard library reads a text as when a double is asked for.
pub uninterp spec fn double_of(text: Seq<char>) -> Option<DoubleModel>;

/// The text that `serde_json::Number` gives some double.
pub open spec fn is_double_text(t: Seq<char>) -> bool {
    exists|text: Seq<char>| #[trigger] double_of(text) matches Some(d) && d.json == Some(t)
}

/// Calls `str::parse` of the standard library for a double and hands the
/// number out as its bits, its `Display` and `Debug` text and the text
/// `serde_json::Number` gives it. The claim is only that all of these are
/// fixed by the text that was read.
#[verifier::external_body]
pub(crate) fn parse_double(text: &str) -> (r: Option<Double>)
    ensures
        (match r {
            Some(d) => Some(d@),
            None => None,
        }) == double_of(text@),
{
    text.parse().ok().map(|v| {
        let json = serde_json::Number::from_f64(v).map(|n| n.to_string());
        Double { bits: v.to_bits(), shown: format!("{v}"), debug: format!("{v:?}"), json }
    })
}

/// The magnitude of a double as an integer that grows with it; the sign bit
/// is the highest one.
pub open spec fn magnitude(bits: u64) -> int {
    if bits < 0x8000_0000_0000_0000 {
        bits as int
    } else {
        bits - 0x8000_0000_0000_0000
    }
}

pub open spec fn is_nan(bits: u64) -> bool {
    magnitude(bits) > 0x7ff0_0000_0000_0000
}

/// An integer that orders the doubles that are numbers; both zeros get 0.
pub open spec fn order_key(bits: u64) -> int {
    if bits < 0x8000_0000_0000_0000 {
        magnitude(bits)
    } else {
        -magnitude(bits)
    }
}

/// IEEE 754 `a < b`: false as soon as one side is not a number.
pub open spec fn double_lt(a: u64, b: u64) -> bool {
    !is_nan(a) && !is_nan(b) && order_key(a) < order_key(b)
}

/// IEEE 754 `a == b`.
pub open spec fn double_eq(a: u64, b: u64) -> bool {
    !is_nan(a) && !is_nan(b) && order_key(a) == order_key(b)
}

/// `a < b` on the bits of two doubles.
pub fn less(a: u64, b: u64) -> (r: bool)
    ensures
        r == double_lt(a, b),
{
    let top: u64 = 0x8000_0000_0000_0000;
    let inf: u64 = 0x7ff0_0000_0000_0000;
    let (na, ma): (bool, u64) = if a < top {
        (false, a)
    } else {
        (true, a - top)
    };
    let (nb, mb): (bool, u64) = if b < top {
        (false, b)
    } else {
        (true, b - top)
    };
    if ma > inf || mb > inf {
        return false;
    }
    if na && nb {
        mb < ma
    } else if na {
        ma > 0 || mb > 0
    } else if nb {
        false
    } else {
        ma < mb
    }
}

/// `a == b` on the bits of two doubles.
pub fn equal(a: u64, b: u64) -> (r: bool)
    ensures
        r == double_eq(a, b),
{
    let top: u64 = 0x8000_0000_0000_0000;
    let inf: u64 = 0x7ff0_0000_0000_0000;
    let ma: u64 = if a < top {
        a
    } else {
        a - top
    };
    let mb: u64 = if b < top {
        b
    } else {
        b - top
    };
    if ma > inf || mb > inf {
        return false;
    }
    a == b || (ma == 0 && mb == 0)
}

/// Two to the power `n`.
pub open spec fn pow2(n: nat) -> nat
    decreases n,
{
    if n == 0 {
        1
    } else {
        2 * pow2((n - 1) as nat)
    }
}

/// The whole part of a double, clamped to `0..=max`: what a cast to an
/// unsigned integer gives.
pub open spec fn whole_part(bits: u64, max: nat) -> nat {
    let exponent = magnitude(bits) / 0x10_0000_0000_0000;
    let fraction = magnitude(bits) % 0x10_0000_0000_0000;
    if bits >= 0x8000_0000_0000_0000 || is_nan(bits) || exponent < 1023 {
        0
    } else {
        let mantissa = (fraction + 0x10_0000_0000_0000) as nat;
        let value = if exponent >= 1075 {
            mantissa * pow2((exponent - 1075) as nat)
        } else {
            mantissa / pow2((1075 - exponent) as nat)
        };
        if value <= max {
            value
        } else {
            max
        }
    }
}

proof fn lemma_pow2_step(n: nat)
    ensures
        pow2(n + 1) == 2 * pow2(n),
        pow2(n) >= 1,
    decreases n,
{
    if n > 0 {
        lemma_pow2_step((n - 1) as nat);
    }
}

/// The whole part of a double as a `usize`, clamped at both ends.
pub fn whole(bits: u64) -> (n: usize)
    ensures
        n == whole_part(bits, usize::MAX as nat),
{
    let top: u64 = 0x8000_0000_0000_0000;
    if bits >= top || bits > 0x7ff0_0000_0000_0000 {
        return 0;
    }
    let exponent: u64 = bits / 0x10_0000_0000_0000;
    let fraction: u64 = bits % 0x10_0000_0000_0000;
    if exponent < 1023 {
        return 0;
    }
    let mantissa: u64 = fraction + 0x10_0000_0000_0000;
    let ghost whole = if exponent >= 1075 {
        mantissa as nat * pow2((exponent - 1075) as nat)
    } else {
        mantissa as nat / pow2((1075 - exponent) as nat)
    };
    let ghost limit = usize::MAX as nat;
    assert(whole_part(bits, limit) == if whole <= limit { whole } else { limit });
    if exponent >= 1075 {
        let mut value: u64 = mantissa;
        let mut k: u64 = exponent - 1075;
        while k > 0
            invariant
                value as nat * pow2(k as nat) == whole,
                limit == usize::MAX,
                whole_part(bits, limit) == if whole <= limit { whole } else { limit },
                value >= 0x10_0000_0000_0000,
            decreases k,
        {
            proof {
                lemma_pow2_step((k - 1) as nat);
                let p = pow2((k - 1) as nat);
                assert(value as nat * (2 * p) == (2 * value as nat) * p) by (nonlinear_arith);
            }
            if value > (usize::MAX as u64) / 2 {
                proof {
                    let p = pow2((k - 1) as nat);
                    assert((2 * value as nat) * p >= 2 * value as nat) by (nonlinear_arith)
                        requires
                            p >= 1,
                    ;
                    assert(2 * value > usize::MAX);
                }
                return usize::MAX;
            }
            value = value * 2;
            k -= 1;
        }
        assert(value as nat * pow2(0) == value) by (nonlinear_arith)
            requires
                pow2(0) == 1,
        ;
        if value > usize::MAX as u64 {
            usize::MAX
        } else {
            value as usize
        }
    } else {
        let mut value: u64 = mantissa;
        let mut k: u64 = 1075 - exponent;
        while k > 0
            invariant
                value as nat / pow2(k as nat) == whole,
                limit == usize::MAX,
                whole_part(bits, limit) == if whole <= limit { whole } else { limit },
                k <= 52,
            decreases k,
        {
            proof {
                lemma_pow2_step((k - 1) as nat);
                let p = pow2((k - 1) as nat);
                assert(value as nat / (2 * p) == (value as nat / 2) / p) by {
                    vstd::arithmetic::div_mod::lemma_div_denominator(value as int, 2, p as int);
                }
            }
            value = value / 2;
            k -= 1;
        }
        assert(value as nat / pow2(0) == value) by (nonlinear_arith)
            requires
                pow2(0) == 1,
        ;
        if value > usize::MAX as u64 {
            usize::MAX
        } else {
            value as usize
        }
    }
}

} // verus!
