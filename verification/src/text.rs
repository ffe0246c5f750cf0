//! Decimal text: the canonical rendering of a decimal and of an error, and
//! the parser of decimal strings.

use vstd::prelude::*;
use vstd::arithmetic::div_mod::lemma_fundamental_div_mod;

use crate::decimal::Decimal;
use crate::error::DecimalError;
use crate::math::lemma_pow10_fits;
use crate::math::lemma_pow10_positive;
use crate::math::lemma_strip_zeros;
use crate::math::pow10;
use crate::math::strip_zeros;
use crate::rounding::magnitude;
use crate::rounding::unsigned_magnitude;

verus! {

// ---------------------------------------------------------------------------
// Digits
// ---------------------------------------------------------------------------

/// An ASCII decimal digit.
pub open spec fn is_digit(c: char) -> bool {
    '0' <= c <= '9'
}

/// Every character is an ASCII decimal digit.
pub open spec fn all_digits(s: Seq<char>) -> bool {
    forall|i: int| 0 <= i < s.len() ==> #[trigger] is_digit(s[i])
}

/// The digit character for `d < 10`.
pub open spec fn digit_char(d: nat) -> char {
    (48 + d) as char
}

/// The number a digit character stands for.
pub open spec fn digit_value(c: char) -> nat {
    (c as int - 48) as nat
}

/// The number written by a string of digits (most significant first).
pub open spec fn digits_value(s: Seq<char>) -> nat
    decreases s.len(),
{
    if s.len() == 0 {
        0
    } else {
        digits_value(s.drop_last()) * 10 + digit_value(s.last())
    }
}

/// `n` in decimal, without leading zeros (`"0"` for zero).
pub open spec fn digits_text(n: nat) -> Seq<char>
    decreases n,
{
    if n < 10 {
        seq![digit_char(n)]
    } else {
        digits_text(n / 10).push(digit_char(n % 10))
    }
}

/// `k` zero characters.
pub open spec fn zeros(k: nat) -> Seq<char> {
    Seq::new(k, |i: int| '0')
}

/// `t` with zeros in front up to `width` characters.
pub open spec fn zero_padded(t: Seq<char>, width: nat) -> Seq<char> {
    if t.len() < width {
        zeros((width - t.len()) as nat) + t
    } else {
        t
    }
}

/// An integer in decimal, with a leading `-` when negative.
pub open spec fn integer_text(m: int) -> Seq<char> {
    if m < 0 {
        seq!['-'] + digits_text((-m) as nat)
    } else {
        digits_text(m as nat)
    }
}

/// The canonical text of `m × 10^(-s)`: trailing fractional zeros dropped, no
/// decimal point for a whole number, otherwise `[-]int.frac` with the fraction
/// written on exactly the remaining scale.
pub open spec fn decimal_text(m: int, s: nat) -> Seq<char> {
    let a = strip_zeros(m, s).0;
    let p = strip_zeros(m, s).1;
    if p == 0 {
        integer_text(a)
    } else {
        let sign = if a < 0 {
            seq!['-']
        } else {
            Seq::<char>::empty()
        };
        let mag = magnitude(a) as nat;
        sign + digits_text(mag / pow10(p)) + seq!['.'] + zero_padded(digits_text(mag % pow10(p)), p)
    }
}

/// The shape of a canonical decimal text with `p` fractional digits: an
/// optional `-`, an integer part of digits without a leading zero (a lone
/// `0` aside), and, when `p > 0`, a `.` followed by exactly `p` digits of
/// which the last is not `0`; never `-0`.
pub open spec fn canonical_shape(t: Seq<char>, p: nat) -> bool {
    let negative = t.len() > 0 && t[0] == '-';
    let body = if negative {
        t.drop_first()
    } else {
        t
    };
    let k = crate::parse::dot_from(body, 0);
    let int_part = body.take(k as int);
    &&& int_part.len() >= 1
    &&& all_digits(int_part)
    &&& (int_part.len() == 1 || int_part[0] != '0')
    &&& (p == 0 ==> k == body.len())
    &&& (p > 0 ==> {
        &&& k + 1 + p == body.len()
        &&& all_digits(body.skip(k + 1int))
        &&& body.last() != '0'
    })
    &&& t != seq!['-', '0']
}

/// The text of a digit `d < 10`.
fn digit_str(d: u8) -> (s: &'static str)
    requires
        d < 10,
    ensures
        s@ == seq![digit_char(d as nat)],
{
    proof {
        reveal_strlit("0");
        reveal_strlit("1");
        reveal_strlit("2");
        reveal_strlit("3");
        reveal_strlit("4");
        reveal_strlit("5");
        reveal_strlit("6");
        reveal_strlit("7");
        reveal_strlit("8");
        reveal_strlit("9");
    }
    match d {
        0 => "0",
        1 => "1",
        2 => "2",
        3 => "3",
        4 => "4",
        5 => "5",
        6 => "6",
        7 => "7",
        8 => "8",
        _ => "9",
    }
}

/// Appends `n` in decimal to `out`.
pub(crate) fn append_digits(out: &mut String, n: u128)
    ensures
        final(out)@ == old(out)@ + digits_text(n as nat),
    decreases n,
{
    if n >= 10 {
        append_digits(out, n / 10);
    }
    out.append(digit_str((n % 10) as u8));
    proof {
        if n < 10 {
            assert(n % 10 == n);
        }
    }
}

/// `n` in decimal.
fn digits_string(n: u128) -> (s: String)
    ensures
        s@ == digits_text(n as nat),
{
    let mut s = String::new();
    append_digits(&mut s, n);
    proof {
        assert(Seq::<char>::empty() + digits_text(n as nat) =~= digits_text(n as nat));
    }
    s
}

/// Appends `k` zero characters to `out`.
fn append_zeros(out: &mut String, k: usize)
    ensures
        final(out)@ == old(out)@ + zeros(k as nat),
{
    proof {
        reveal_strlit("0");
    }
    let mut i: usize = 0;
    while i < k
        invariant
            i <= k,
            out@ == old(out)@ + zeros(i as nat),
        decreases k - i,
    {
        let ghost before = out@;
        out.append("0");
        proof {
            reveal_strlit("0");
            assert(out@ =~= before + seq!['0']);
            assert(zeros((i + 1) as nat) =~= zeros(i as nat).push('0'));
            assert(out@ =~= old(out)@ + zeros((i + 1) as nat));
        }
        i = i + 1;
    }
}

/// Appends an integer in decimal, with a leading `-` when negative.
fn append_integer(out: &mut String, m: i128)
    ensures
        final(out)@ == old(out)@ + integer_text(m as int),
{
    proof {
        reveal_strlit("-");
    }
    if m < 0 {
        out.append("-");
    }
    append_digits(out, unsigned_magnitude(m));
    proof {
        if m < 0 {
            assert(old(out)@ + seq!['-'] + digits_text((-m) as nat) =~= old(out)@ + (seq!['-']
                + digits_text((-m) as nat)));
        }
    }
}

/// Digits text of `n < 10^p` is at most `p` characters long (`p >= 1`).
pub proof fn lemma_digits_text_len(n: nat, p: nat)
    requires
        p >= 1,
        n < pow10(p),
    ensures
        digits_text(n).len() <= p,
    decreases n,
{
    if n >= 10 {
        assert(pow10(p) == 10 * pow10((p - 1) as nat));
        assert(n / 10 < pow10((p - 1) as nat)) by {
            lemma_fundamental_div_mod(n as int, 10);
        }
        if p == 1 {
            assert(pow10(0) == 1);
        } else {
            lemma_digits_text_len(n / 10, (p - 1) as nat);
        }
    }
}

/// The text of a number is a non-empty string of digits that reads back as the number.
pub proof fn lemma_digits_text(n: nat)
    ensures
        digits_text(n).len() >= 1,
        all_digits(digits_text(n)),
        digits_value(digits_text(n)) == n,
    decreases n,
{
    if n < 10 {
        let t = digits_text(n);
        assert(t.drop_last() =~= Seq::<char>::empty());
        assert(digits_value(t.drop_last()) == 0);
    } else {
        lemma_digits_text(n / 10);
        let t = digits_text(n);
        assert(t.drop_last() =~= digits_text(n / 10));
        lemma_fundamental_div_mod(n as int, 10);
        assert forall|i: int| 0 <= i < t.len() implies #[trigger] is_digit(t[i]) by {
            if i < t.len() - 1 {
                assert(t[i] == digits_text(n / 10)[i]);
            }
        }
    }
}

/// The text of a positive number does not start with `0`.
pub proof fn lemma_digits_text_lead(n: nat)
    requires
        n >= 1,
    ensures
        digits_text(n)[0] != '0',
        digits_text(n).len() >= 1,
    decreases n,
{
    if n >= 10 {
        lemma_digits_text_lead(n / 10);
        assert(digits_text(n)[0] == digits_text(n / 10)[0]);
    }
}

/// The text of a number ends with the digit of `n % 10`.
pub proof fn lemma_digits_text_last(n: nat)
    ensures
        digits_text(n).len() >= 1,
        digits_text(n).last() == digit_char(n % 10),
    decreases n,
{
    if n >= 10 {
        lemma_digits_text_last(n / 10);
    }
}

/// Reading two digit strings one after the other.
pub proof fn lemma_digits_value_concat(a: Seq<char>, b: Seq<char>)
    ensures
        digits_value(a + b) == digits_value(a) * pow10(b.len()) + digits_value(b),
    decreases b.len(),
{
    if b.len() == 0 {
        assert(a + b =~= a);
        assert(pow10(0) == 1);
    } else {
        let b1 = b.drop_last();
        lemma_digits_value_concat(a, b1);
        assert((a + b).drop_last() =~= a + b1);
        assert((a + b).last() == b.last());
        assert(pow10(b.len()) == 10 * pow10(b1.len()));
        let va = digits_value(a);
        let p1 = pow10(b1.len());
        let vb1 = digits_value(b1);
        assert((va * p1 + vb1) * 10 == va * (10 * p1) + vb1 * 10) by (nonlinear_arith);
    }
}

/// Leading zeros do not change what a digit string reads as.
pub proof fn lemma_digits_value_zeros(k: nat, t: Seq<char>)
    ensures
        digits_value(zeros(k) + t) == digits_value(t),
        all_digits(zeros(k)),
    decreases k,
{
    lemma_digits_value_concat(zeros(k), t);
    lemma_digits_value_of_zeros(k);
}

proof fn lemma_digits_value_of_zeros(k: nat)
    ensures
        digits_value(zeros(k)) == 0,
    decreases k,
{
    if k > 0 {
        assert(zeros(k).drop_last() =~= zeros((k - 1) as nat));
        lemma_digits_value_of_zeros((k - 1) as nat);
    }
}

impl Decimal {
    /// The mantissa in decimal, with a leading `-` when negative: the text
    /// form in which the mantissa is serialized.
    pub fn mantissa_text(&self) -> (s: String)
        ensures
            s@ == integer_text(self.mantissa() as int),
    {
        let mut out = String::new();
        append_integer(&mut out, self.mantissa());
        proof {
            assert(Seq::<char>::empty() + integer_text(self.mantissa() as int) =~= integer_text(
                self.mantissa() as int,
            ));
        }
        out
    }

    /// The canonical text: trailing fractional zeros dropped, no decimal point
    /// for a whole number (`100.0` → `"100"`, `10.50` → `"10.5"`, `0.00` → `"0"`).
    pub fn to_string(&self) -> (s: String)
        ensures
            s@ == decimal_text(self.mantissa() as int, self.scale() as nat),
    {
        let n = self.normalize();
        let scale = n.scale();
        let mut out = String::new();
        if scale == 0 {
            append_integer(&mut out, n.mantissa());
            proof {
                assert(Seq::<char>::empty() + integer_text(n.mantissa() as int) =~= integer_text(
                    n.mantissa() as int,
                ));
            }
            return out;
        }
        proof {
            reveal_strlit("-");
            reveal_strlit(".");
            lemma_pow10_fits(scale as nat);
            lemma_pow10_positive(scale as nat);
        }
        let negative = n.mantissa() < 0;
        let abs = unsigned_magnitude(n.mantissa());
        let divisor = Decimal::pow10(scale as u32).expect("a scale within MAX_SCALE has a power of ten") as u128;
        let int_part = abs / divisor;
        let frac_part = abs % divisor;
        if negative {
            out.append("-");
        }
        append_digits(&mut out, int_part);
        out.append(".");
        let frac = digits_string(frac_part);
        let width = frac.as_str().unicode_len();
        proof {
            lemma_digits_text_len(frac_part as nat, scale as nat);
        }
        if width < scale as usize {
            append_zeros(&mut out, scale as usize - width);
        }
        out.append(frac.as_str());
        proof {
            let sign = if n.mantissa() < 0 {
                seq!['-']
            } else {
                Seq::<char>::empty()
            };
            let ft = digits_text(frac_part as nat);
            assert(out@ =~= sign + digits_text(int_part as nat) + seq!['.'] + zero_padded(
                ft,
                scale as nat,
            ));
        }
        out
    }
}

/// The message of each error.
pub open spec fn error_text(e: DecimalError) -> Seq<char> {
    match e {
        DecimalError::ScaleOutOfRange { scale, max } => "十进制 scale "@ + digits_text(scale as nat)
            + " 超过上限 "@ + digits_text(max as nat),
        DecimalError::MantissaOverflow => "十进制 mantissa 溢出"@,
        DecimalError::DivisionByZero => "十进制除零"@,
        DecimalError::RoundingOverflow => "十进制舍入溢出"@,
        DecimalError::RepresentationOverflow => "十进制表示范围不足（中间值溢出）"@,
        DecimalError::Parse(msg) => "十进制解析失败: "@ + msg@,
        DecimalError::InvalidCurrency => "币种必须为 3 个大写 ASCII 字母"@,
    }
}

impl DecimalError {
    /// The message shown to users.
    pub fn to_string(&self) -> (s: String)
        ensures
            s@ == error_text(*self),
    {
        match self {
            DecimalError::ScaleOutOfRange { scale, max } => {
                let mut out = String::from_str("十进制 scale ");
                append_digits(&mut out, *scale as u128);
                out.append(" 超过上限 ");
                append_digits(&mut out, *max as u128);
                out
            },
            DecimalError::MantissaOverflow => String::from_str("十进制 mantissa 溢出"),
            DecimalError::DivisionByZero => String::from_str("十进制除零"),
            DecimalError::RoundingOverflow => String::from_str("十进制舍入溢出"),
            DecimalError::RepresentationOverflow => String::from_str("十进制表示范围不足（中间值溢出）"),
            DecimalError::Parse(msg) => {
                let mut out = String::from_str("十进制解析失败: ");
                out.append(msg.as_str());
                out
            },
            DecimalError::InvalidCurrency => String::from_str("币种必须为 3 个大写 ASCII 字母"),
        }
    }
}

} // verus!
