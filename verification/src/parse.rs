//! Parsing decimal strings such as `"100"`, `"-1.25"`, `" +.5 "`.

use vstd::prelude::*;

use crate::decimal::Decimal;
use crate::error::DecimalError;
use crate::math::fits_i128;
use crate::text::all_digits;
use crate::text::append_digits;
use crate::text::digit_value;
use crate::text::digits_text;
use crate::text::digits_value;
use crate::text::is_digit;
use crate::MAX_SCALE;

verus! {

// ---------------------------------------------------------------------------
// The grammar
// ---------------------------------------------------------------------------

/// The characters with the Unicode `White_Space` property, which `str::trim` removes.
pub open spec fn is_white_space(c: char) -> bool {
    ||| '\u{9}' <= c <= '\u{d}'
    ||| c == ' '
    ||| c == '\u{85}'
    ||| c == '\u{a0}'
    ||| c == '\u{1680}'
    ||| '\u{2000}' <= c <= '\u{200a}'
    ||| c == '\u{2028}'
    ||| c == '\u{2029}'
    ||| c == '\u{202f}'
    ||| c == '\u{205f}'
    ||| c == '\u{3000}'
}

/// `t` without leading white space.
pub open spec fn trim_start(t: Seq<char>) -> Seq<char>
    decreases t.len(),
{
    if t.len() > 0 && is_white_space(t[0]) {
        trim_start(t.drop_first())
    } else {
        t
    }
}

/// `t` without trailing white space.
pub open spec fn trim_end(t: Seq<char>) -> Seq<char>
    decreases t.len(),
{
    if t.len() > 0 && is_white_space(t.last()) {
        trim_end(t.drop_last())
    } else {
        t
    }
}

/// `t` without leading and trailing white space.
pub open spec fn trimmed(t: Seq<char>) -> Seq<char> {
    trim_end(trim_start(t))
}

/// ASCII upper-case letters to lower case; other characters unchanged.
pub open spec fn ascii_lower(c: char) -> char {
    if 'A' <= c <= 'Z' {
        ((c as u32) + 32) as char
    } else {
        c
    }
}

/// `t` with ASCII letters in lower case.
pub open spec fn lowered(t: Seq<char>) -> Seq<char> {
    t.map_values(|c: char| ascii_lower(c))
}

/// A spelling of NaN or infinity, in any ASCII case.
pub open spec fn is_non_finite(t: Seq<char>) -> bool {
    let l = lowered(t);
    ||| l == "nan"@
    ||| l == "inf"@
    ||| l == "+inf"@
    ||| l == "-inf"@
    ||| l == "infinity"@
    ||| l == "+infinity"@
    ||| l == "-infinity"@
}

/// `t` after one leading `-` or `+`.
pub open spec fn unsigned_part(t: Seq<char>) -> Seq<char> {
    if t.len() > 0 && (t[0] == '-' || t[0] == '+') {
        t.drop_first()
    } else {
        t
    }
}

/// The index of the first `.` at or after `i`, or `s.len()` when there is none.
pub open spec fn dot_from(s: Seq<char>, i: nat) -> nat
    decreases s.len() - i,
{
    if i >= s.len() {
        s.len()
    } else if s[i as int] == '.' {
        i
    } else {
        dot_from(s, i + 1)
    }
}

/// The digits before the first `.` (all of `body` when there is no `.`).
pub open spec fn integer_digits(body: Seq<char>) -> Seq<char> {
    body.take(dot_from(body, 0) as int)
}

/// The digits after the first `.` (none when there is no `.`).
pub open spec fn fraction_digits(body: Seq<char>) -> Seq<char> {
    if dot_from(body, 0) < body.len() {
        body.skip(dot_from(body, 0) + 1int)
    } else {
        Seq::<char>::empty()
    }
}

/// An unsigned decimal: digits, at most one `.`, at least one digit.
pub open spec fn well_formed_body(body: Seq<char>) -> bool {
    let k = dot_from(body, 0);
    &&& body.len() > 0
    &&& !(k < body.len() && dot_from(body, k + 1) < body.len())
    &&& !(integer_digits(body).len() == 0 && fraction_digits(body).len() == 0)
    &&& all_digits(integer_digits(body))
    &&& all_digits(fraction_digits(body))
}

/// Why a text is not a decimal.
pub enum TextFault {
    /// Nothing but white space.
    Empty,
    /// A spelling of NaN or infinity.
    NonFinite,
    /// Not `[sign] digits [. digits]`.
    Malformed,
    /// More fractional digits than a `u8` can count.
    FractionTooLong(nat),
    /// More fractional digits than the largest scale.
    Scale(nat),
    /// The mantissa does not fit an `i128`.
    Overflow,
}

/// What the (already trimmed) text `t` denotes: the mantissa and scale of the
/// decimal it writes, or why it is refused.
pub open spec fn parse_text(t: Seq<char>) -> Result<(int, nat), TextFault> {
    if t.len() == 0 {
        Err(TextFault::Empty)
    } else if is_non_finite(t) {
        Err(TextFault::NonFinite)
    } else if !well_formed_body(unsigned_part(t)) {
        Err(TextFault::Malformed)
    } else {
        let body = unsigned_part(t);
        let fp = fraction_digits(body);
        let v = digits_value(integer_digits(body) + fp);
        if fp.len() > 255 {
            Err(TextFault::FractionTooLong(fp.len()))
        } else if fp.len() > MAX_SCALE {
            Err(TextFault::Scale(fp.len()))
        } else if t[0] == '-' {
            if v > 170141183460469231731687303715884105728 {
                Err(TextFault::Overflow)
            } else {
                Ok((-v, fp.len()))
            }
        } else if v > i128::MAX {
            Err(TextFault::Overflow)
        } else {
            Ok((v as int, fp.len()))
        }
    }
}

/// The error reported for a fault found in the trimmed text `t`.
pub open spec fn fault_reported(f: TextFault, t: Seq<char>, e: DecimalError) -> bool {
    match f {
        TextFault::Empty => e matches DecimalError::Parse(m) && m@ == "空字符串"@,
        TextFault::NonFinite => e matches DecimalError::Parse(m) && m@ == "不允许 NaN/Inf"@,
        TextFault::Malformed => e matches DecimalError::Parse(m) && m@ == "非法十进制: "@ + t,
        TextFault::FractionTooLong(n) => e matches DecimalError::Parse(m) && m@ == "小数位数 "@
            + digits_text(n) + " 超过可表示范围 255"@,
        TextFault::Scale(n) => e == DecimalError::ScaleOutOfRange { scale: n as u8, max: MAX_SCALE },
        TextFault::Overflow => e == DecimalError::MantissaOverflow,
    }
}

/// The result of parsing `s`: the decimal `parse_text` names for its trimmed
/// text, or the error for the fault it names.
pub open spec fn parsed_as(res: Result<Decimal, DecimalError>, s: Seq<char>) -> bool {
    match parse_text(trimmed(s)) {
        Ok(p) => res matches Ok(d) && d.mantissa() == p.0 && d.scale() == p.1,
        Err(f) => res matches Err(e) && fault_reported(f, trimmed(s), e),
    }
}


/// The integer that `t` writes in the form `i128::from_str` reads: an optional
/// `+` or `-` and at least one digit, with no space; `None` when `t` has
/// another form or the integer does not fit an `i128`.
pub open spec fn integer_text_value(t: Seq<char>) -> Option<int> {
    let digits = unsigned_part(t);
    let v = digits_value(digits);
    let m = if t.len() > 0 && t[0] == '-' {
        -v
    } else {
        v as int
    };
    if digits.len() == 0 || !all_digits(digits) || !fits_i128(m) {
        None
    } else {
        Some(m)
    }
}

/// `dot_from` passes over a stretch without a `.`.
pub proof fn lemma_dot_from_skips(s: Seq<char>, i: nat, j: nat)
    requires
        i <= j <= s.len(),
        forall|k: int| i <= k < j ==> s[k] != '.',
    ensures
        dot_from(s, i) == dot_from(s, j),
    decreases j - i,
{
    if i < j {
        lemma_dot_from_skips(s, i + 1, j);
    }
}

// ---------------------------------------------------------------------------
// Scanning
// ---------------------------------------------------------------------------

/// The characters of `s`.
fn chars_of(s: &str) -> (v: Vec<char>)
    ensures
        v@ == s@,
{
    let n = s.unicode_len();
    let mut v: Vec<char> = Vec::new();
    let mut i: usize = 0;
    while i < n
        invariant
            n == s@.len(),
            i <= n,
            v@ == s@.take(i as int),
        decreases n - i,
    {
        v.push(s.get_char(i));
        proof {
            assert(s@.take((i + 1) as int) =~= s@.take(i as int).push(s@[i as int]));
        }
        i = i + 1;
    }
    proof {
        assert(s@.take(n as int) =~= s@);
    }
    v
}

/// `v[lo..hi]` as a new vector.
fn copy_range(v: &Vec<char>, lo: usize, hi: usize) -> (r: Vec<char>)
    requires
        lo <= hi <= v.len(),
    ensures
        r@ == v@.subrange(lo as int, hi as int),
{
    let mut r: Vec<char> = Vec::new();
    let mut i: usize = lo;
    while i < hi
        invariant
            lo <= i <= hi,
            hi <= v.len(),
            r@ == v@.subrange(lo as int, i as int),
        decreases hi - i,
    {
        r.push(v[i]);
        proof {
            assert(v@.subrange(lo as int, (i + 1) as int) =~= v@.subrange(lo as int, i as int).push(
                v@[i as int],
            ));
        }
        i = i + 1;
    }
    r
}

/// Whether `c` is white space in the Unicode sense.
fn white_space(c: char) -> (b: bool)
    ensures
        b == is_white_space(c),
{
    ('\u{9}' <= c && c <= '\u{d}') || c == ' ' || c == '\u{85}' || c == '\u{a0}' || c == '\u{1680}'
        || ('\u{2000}' <= c && c <= '\u{200a}') || c == '\u{2028}' || c == '\u{2029}' || c
        == '\u{202f}' || c == '\u{205f}' || c == '\u{3000}'
}

/// The bounds of `v` without leading and trailing white space.
fn trim_bounds(v: &Vec<char>) -> (r: (usize, usize))
    ensures
        r.0 <= r.1 <= v.len(),
        v@.subrange(r.0 as int, r.1 as int) == trimmed(v@),
{
    let n = v.len();
    let mut i: usize = 0;
    proof {
        assert(v@.subrange(0, n as int) =~= v@);
    }
    while i < n && white_space(v[i])
        invariant
            i <= n,
            n == v.len(),
            trim_start(v@.subrange(i as int, n as int)) == trim_start(v@),
        decreases n - i,
    {
        proof {
            assert(v@.subrange(i as int, n as int).drop_first() =~= v@.subrange(
                (i + 1) as int,
                n as int,
            ));
        }
        i = i + 1;
    }
    proof {
        assert(trim_start(v@.subrange(i as int, n as int)) == v@.subrange(i as int, n as int));
    }
    let mut j: usize = n;
    while j > i && white_space(v[j - 1])
        invariant
            i <= j <= n,
            n == v.len(),
            trim_end(v@.subrange(i as int, j as int)) == trimmed(v@),
        decreases j,
    {
        proof {
            assert(v@.subrange(i as int, j as int).drop_last() =~= v@.subrange(
                i as int,
                (j - 1) as int,
            ));
        }
        j = j - 1;
    }
    (i, j)
}

/// `c` with an ASCII upper-case letter turned to lower case.
fn lower_ascii(c: char) -> (r: char)
    ensures
        r == ascii_lower(c),
{
    if 'A' <= c && c <= 'Z' {
        ((c as u8) + 32) as char
    } else {
        c
    }
}

/// Whether `t`, ASCII-lower-cased, is `lit`.
fn lowered_equals(t: &Vec<char>, lit: &str) -> (b: bool)
    ensures
        b == (lowered(t@) == lit@),
{
    let n = lit.unicode_len();
    if t.len() != n {
        proof {
            assert(lowered(t@).len() == t@.len());
        }
        return false;
    }
    let mut i: usize = 0;
    while i < n
        invariant
            n == lit@.len(),
            n == t.len(),
            i <= n,
            forall|j: int| 0 <= j < i ==> ascii_lower(#[trigger] t@[j]) == lit@[j],
        decreases n - i,
    {
        if lower_ascii(t[i]) != lit.get_char(i) {
            proof {
                assert(lowered(t@)[i as int] != lit@[i as int]);
            }
            return false;
        }
        i = i + 1;
    }
    proof {
        assert(lowered(t@) =~= lit@);
    }
    true
}

/// Whether `t` spells NaN or infinity.
fn non_finite(t: &Vec<char>) -> (b: bool)
    ensures
        b == is_non_finite(t@),
{
    lowered_equals(t, "nan") || lowered_equals(t, "inf") || lowered_equals(t, "+inf")
        || lowered_equals(t, "-inf") || lowered_equals(t, "infinity") || lowered_equals(
        t,
        "+infinity",
    ) || lowered_equals(t, "-infinity")
}

/// The index of the first `.` at or after `from`, or `s.len()`.
fn find_dot(s: &Vec<char>, from: usize) -> (k: usize)
    requires
        from <= s.len(),
    ensures
        k == dot_from(s@, from as nat),
        from <= k <= s.len(),
{
    let mut i = from;
    while i < s.len() && s[i] != '.'
        invariant
            from <= i <= s.len(),
            dot_from(s@, i as nat) == dot_from(s@, from as nat),
        decreases s.len() - i,
    {
        i = i + 1;
    }
    i
}

/// Whether every character of `s` is an ASCII digit.
fn digits_only(s: &Vec<char>) -> (b: bool)
    ensures
        b == all_digits(s@),
{
    let mut i: usize = 0;
    while i < s.len()
        invariant
            i <= s.len(),
            forall|j: int| 0 <= j < i ==> is_digit(#[trigger] s@[j]),
        decreases s.len() - i,
    {
        if !('0' <= s[i] && s[i] <= '9') {
            proof {
                assert(!is_digit(s@[i as int]));
            }
            return false;
        }
        i = i + 1;
    }
    true
}

/// `a` followed by `b`.
fn concat(a: &Vec<char>, b: &Vec<char>) -> (r: Vec<char>)
    ensures
        r@ == a@ + b@,
{
    let mut r = copy_range(a, 0, a.len());
    let mut i: usize = 0;
    proof {
        assert(a@.subrange(0, a.len() as int) =~= a@);
        assert(b@.take(0) =~= Seq::<char>::empty());
    }
    while i < b.len()
        invariant
            i <= b.len(),
            r@ == a@ + b@.take(i as int),
        decreases b.len() - i,
    {
        r.push(b[i]);
        proof {
            assert(b@.take((i + 1) as int) =~= b@.take(i as int).push(b@[i as int]));
            assert(a@ + b@.take((i + 1) as int) =~= (a@ + b@.take(i as int)).push(b@[i as int]));
        }
        i = i + 1;
    }
    proof {
        assert(b@.take(b.len() as int) =~= b@);
    }
    r
}

/// The value of a digit string does not shrink as digits are appended.
proof fn lemma_digits_value_prefix(s: Seq<char>, i: int)
    requires
        0 <= i <= s.len(),
    ensures
        digits_value(s.take(i)) <= digits_value(s),
    decreases s.len() - i,
{
    if i < s.len() {
        assert(s.take(i + 1).drop_last() =~= s.take(i));
        lemma_digits_value_prefix(s, i + 1);
    } else {
        assert(s.take(i) =~= s);
    }
}

/// The number written by the digit string `ds`, or `None` when it exceeds `u128::MAX`.
fn digits_magnitude(ds: &Vec<char>) -> (r: Option<u128>)
    requires
        all_digits(ds@),
    ensures
        r matches Some(x) ==> x == digits_value(ds@),
        r is None <==> digits_value(ds@) > u128::MAX,
{
    let mut acc: u128 = 0;
    let mut i: usize = 0;
    proof {
        assert(ds@.take(0) =~= Seq::<char>::empty());
    }
    while i < ds.len()
        invariant
            i <= ds.len(),
            all_digits(ds@),
            acc == digits_value(ds@.take(i as int)),
        decreases ds.len() - i,
    {
        let c = ds[i];
        proof {
            assert(is_digit(ds@[i as int]));
            assert(ds@.take((i + 1) as int).drop_last() =~= ds@.take(i as int));
            assert(ds@.take((i + 1) as int).last() == c);
            lemma_digits_value_prefix(ds@, (i + 1) as int);
        }
        let d = ((c as u32) - 48) as u128;
        let next = match acc.checked_mul(10) {
            Some(t) => t.checked_add(d),
            None => None,
        };
        match next {
            Some(v) => {
                acc = v;
            },
            None => {
                return None;
            },
        }
        i = i + 1;
    }
    proof {
        assert(ds@.take(ds.len() as int) =~= ds@);
    }
    Some(acc)
}

/// The malformed-text error that shows the offending text.
fn malformed(shown: &str) -> (e: DecimalError)
    ensures
        e matches DecimalError::Parse(m) && m@ == "非法十进制: "@ + shown@,
{
    let mut msg = String::from_str("非法十进制: ");
    msg.append(shown);
    DecimalError::Parse(msg)
}

impl Decimal {
    /// Parses a decimal such as `"100"`, `"100.5"` or `"-1.25"`.
    ///
    /// White space around the text is ignored; one sign, digits and at most
    /// one `.` are accepted, with at least one digit. NaN and infinity in any
    /// case are refused, as are more fractional digits than [`MAX_SCALE`] and
    /// mantissas that do not fit an `i128`.
    pub fn from_str_exact(s: &str) -> (res: Result<Decimal, DecimalError>)
        ensures
            parsed_as(res, s@),
    {
        let chars = chars_of(s);
        let (start, end) = trim_bounds(&chars);
        let t = copy_range(&chars, start, end);
        if t.len() == 0 {
            return Err(DecimalError::Parse(String::from_str("空字符串")));
        }
        if non_finite(&t) {
            return Err(DecimalError::Parse(String::from_str("不允许 NaN/Inf")));
        }
        let negative = t[0] == '-';
        let body = if t[0] == '-' || t[0] == '+' {
            copy_range(&t, 1, t.len())
        } else {
            copy_range(&t, 0, t.len())
        };
        let shown = s.substring_char(start, end);
        proof {
            assert(t@.subrange(1, t@.len() as int) =~= t@.drop_first());
            assert(t@.subrange(0, t@.len() as int) =~= t@);
            assert(body@ == unsigned_part(t@));
            assert(shown@ == t@);
        }
        if body.len() == 0 {
            return Err(malformed(shown));
        }
        let k = find_dot(&body, 0);
        if k < body.len() && find_dot(&body, k + 1) < body.len() {
            return Err(malformed(shown));
        }
        let int_part = copy_range(&body, 0, k);
        let frac_part = if k < body.len() {
            copy_range(&body, k + 1, body.len())
        } else {
            Vec::new()
        };
        proof {
            assert(int_part@ =~= integer_digits(body@));
            assert(frac_part@ =~= fraction_digits(body@));
        }
        if int_part.len() == 0 && frac_part.len() == 0 {
            return Err(malformed(shown));
        }
        if !digits_only(&int_part) {
            return Err(malformed(shown));
        }
        if !digits_only(&frac_part) {
            return Err(malformed(shown));
        }
        let fraction_len = frac_part.len();
        if fraction_len > 255 {
            let mut msg = String::from_str("小数位数 ");
            append_digits(&mut msg, fraction_len as u128);
            msg.append(" 超过可表示范围 255");
            return Err(DecimalError::Parse(msg));
        }
        let scale = fraction_len as u8;
        if scale > MAX_SCALE {
            return Err(DecimalError::ScaleOutOfRange { scale, max: MAX_SCALE });
        }
        let digits = concat(&int_part, &frac_part);
        proof {
            assert(all_digits(digits@));
        }
        let magnitude = match digits_magnitude(&digits) {
            Some(m) => m,
            None => return Err(DecimalError::MantissaOverflow),
        };
        let mantissa: i128 = if negative {
            if magnitude == 170141183460469231731687303715884105728u128 {
                i128::MIN
            } else if magnitude > 170141183460469231731687303715884105727u128 {
                return Err(DecimalError::MantissaOverflow);
            } else {
                -(magnitude as i128)
            }
        } else if magnitude > 170141183460469231731687303715884105727u128 {
            return Err(DecimalError::MantissaOverflow);
        } else {
            magnitude as i128
        };
        Ok(Decimal::new(mantissa, scale))
    }
    /// Reads a mantissa written as a decimal integer (`"-12345"`), the text form
    /// of the serialized mantissa: an optional sign and at least one digit.
    pub fn mantissa_from_text(v: &str) -> (r: Option<i128>)
        ensures
            r matches Some(m) ==> integer_text_value(v@) == Some(m as int),
            r is None ==> integer_text_value(v@) is None,
    {
        let t = chars_of(v);
        if t.len() == 0 {
            return None;
        }
        let negative = t[0] == '-';
        let digits = if t[0] == '-' || t[0] == '+' {
            copy_range(&t, 1, t.len())
        } else {
            copy_range(&t, 0, t.len())
        };
        proof {
            assert(t@.subrange(1, t@.len() as int) =~= t@.drop_first());
            assert(t@.subrange(0, t@.len() as int) =~= t@);
        }
        if digits.len() == 0 || !digits_only(&digits) {
            return None;
        }
        let magnitude = match digits_magnitude(&digits) {
            Some(m) => m,
            None => return None,
        };
        if negative {
            if magnitude == 170141183460469231731687303715884105728u128 {
                Some(i128::MIN)
            } else if magnitude > 170141183460469231731687303715884105727u128 {
                None
            } else {
                Some(-(magnitude as i128))
            }
        } else if magnitude > 170141183460469231731687303715884105727u128 {
            None
        } else {
            Some(magnitude as i128)
        }
    }
}

impl std::str::FromStr for Decimal {
    type Err = DecimalError;

    /// Parses a decimal; the same as [`Decimal::from_str_exact`].
    fn from_str(s: &str) -> (res: Result<Decimal, DecimalError>)
        ensures
            parsed_as(res, s@),
    {
        Decimal::from_str_exact(s)
    }
}

} // verus!
