//! Properties that relate several operations of the library.

use vstd::prelude::*;
use vstd::arithmetic::div_mod::lemma_fundamental_div_mod;
use vstd::arithmetic::div_mod::lemma_mod_mod;
use vstd::arithmetic::div_mod::lemma_mod_multiples_basic;

use crate::decimal::decimal_sign;
use crate::decimal::outcome_is;
use crate::decimal::product_outcome;
use crate::decimal::rescale_outcome;
use crate::decimal::same_decimal;
use crate::decimal::sum_outcome;
use crate::decimal::Decimal;
use crate::error::DecimalError;
use crate::math::lemma_same_value_equivalence;
use crate::math::lemma_same_value_rescaled;
use crate::math::lemma_strip_zeros_canonical;
use crate::math::lemma_value_sign_transitive;
use crate::math::max_nat;
use crate::math::same_value;
use crate::rounding::lemma_round_div_exact;
use crate::rounding::lemma_round_div_brackets;
use crate::rounding::round_div;
use crate::decimal::quotient_outcome;
use crate::math::lemma_pow10_add;
use crate::parse::is_white_space;
use crate::parse::parsed_as;
use crate::rounding::RoundingStrategy;
use crate::math::lemma_pow10_fits;
use crate::math::lemma_pow10_positive;
use crate::math::lemma_strip_zeros;
use crate::math::pow10;
use crate::math::strip_zeros;
use crate::parse::dot_from;
use crate::parse::fraction_digits;
use crate::parse::integer_text_value;
use crate::parse::integer_digits;
use crate::parse::is_non_finite;
use crate::parse::lemma_dot_from_skips;
use crate::parse::lowered;
use crate::parse::parse_text;
use crate::parse::trim_end;
use crate::parse::trim_start;
use crate::parse::trimmed;
use crate::parse::unsigned_part;
use crate::parse::well_formed_body;
use crate::rounding::magnitude;
use crate::text::all_digits;
use crate::text::canonical_shape;
use crate::text::digit_char;
use crate::text::lemma_digits_text_last;
use crate::text::lemma_digits_text_lead;
use crate::text::decimal_text;
use crate::text::digits_text;
use crate::text::digits_value;
use crate::text::integer_text;
use crate::text::is_digit;
use crate::text::lemma_digits_text;
use crate::text::lemma_digits_text_len;
use crate::text::lemma_digits_value_concat;
use crate::text::lemma_digits_value_zeros;
use crate::text::zero_padded;
use crate::text::zeros;
use crate::types::ascii_chars;
use crate::types::is_currency_code;
use crate::types::is_upper_ascii;
use crate::MAX_SCALE;
use vstd::utf8::encode_utf8;
use vstd::utf8::is_ascii_chars;
use vstd::utf8::is_ascii_chars_encode_utf8;

verus! {

/// A character that the canonical text of a decimal may hold.
spec fn text_char(c: char) -> bool {
    is_digit(c) || c == '-' || c == '.'
}

/// None of the spellings of NaN or infinity is made of digits, signs and points.
proof fn lemma_not_non_finite(t: Seq<char>)
    requires
        forall|i: int| 0 <= i < t.len() ==> text_char(#[trigger] t[i]),
    ensures
        !is_non_finite(t),
{
    reveal_strlit("nan");
    reveal_strlit("inf");
    reveal_strlit("+inf");
    reveal_strlit("-inf");
    reveal_strlit("infinity");
    reveal_strlit("+infinity");
    reveal_strlit("-infinity");
    let l = lowered(t);
    assert(l.len() == t.len());
    if t.len() >= 2 {
        assert(text_char(t[1]));
        assert(l[1] == t[1]);
    }
    assert(l != "nan"@) by {
        if l == "nan"@ {
            assert(l[1] == 'a');
        }
    }
    assert(l != "inf"@) by {
        if l == "inf"@ {
            assert(l[1] == 'n');
        }
    }
    assert(l != "+inf"@) by {
        if l == "+inf"@ {
            assert(l[1] == 'i');
        }
    }
    assert(l != "-inf"@) by {
        if l == "-inf"@ {
            assert(l[1] == 'i');
        }
    }
    assert(l != "infinity"@) by {
        if l == "infinity"@ {
            assert(l[1] == 'n');
        }
    }
    assert(l != "+infinity"@) by {
        if l == "+infinity"@ {
            assert(l[1] == 'i');
        }
    }
    assert(l != "-infinity"@) by {
        if l == "-infinity"@ {
            assert(l[1] == 'i');
        }
    }
}

/// Reading the canonical text of `m × 10^(-s)` back gives its shortest form.
#[verifier::rlimit(60)]
proof fn lemma_canonical_text_parses(m: i128, s: nat)
    requires
        s <= MAX_SCALE,
    ensures
        trimmed(decimal_text(m as int, s)) == decimal_text(m as int, s),
        parse_text(decimal_text(m as int, s)) == Ok::<(int, nat), crate::parse::TextFault>(
            strip_zeros(m as int, s),
        ),
{
    lemma_strip_zeros(m as int, s);
    let a = strip_zeros(m as int, s).0;
    let p = strip_zeros(m as int, s).1;
    let mag = magnitude(a) as nat;
    assert(mag <= 170141183460469231731687303715884105728);
    let t = decimal_text(m as int, s);
    lemma_pow10_fits(p);
    lemma_pow10_positive(p);
    let q = mag / pow10(p);
    let r = mag % pow10(p);
    lemma_fundamental_div_mod(mag as int, pow10(p) as int);
    let d1 = digits_text(if p == 0 {
        mag
    } else {
        q
    });
    lemma_digits_text(mag);
    lemma_digits_text(q);
    lemma_digits_text(r);
    let f = digits_text(r);
    let d2 = zero_padded(f, p);
    let body = if p == 0 {
        d1
    } else {
        d1 + seq!['.'] + d2
    };
    let sign = if a < 0 {
        seq!['-']
    } else {
        Seq::<char>::empty()
    };
    if p > 0 {
        lemma_digits_text_len(r, p);
        if f.len() < p {
            lemma_digits_value_zeros((p - f.len()) as nat, f);
        }
        assert(d2.len() == p);
        assert(all_digits(d2));
        assert(digits_value(d2) == r);
    }
    assert(t =~= sign + body);
    // every character is a digit, a sign or a point; the ends are not white space
    assert forall|i: int| 0 <= i < t.len() implies text_char(#[trigger] t[i]) by {
        if a < 0 && i == 0 {
        } else {
            let j = if a < 0 {
                i - 1
            } else {
                i
            };
            assert(t[i] == body[j]);
            if p > 0 {
                if j < d1.len() {
                    assert(body[j] == d1[j]);
                } else if j > d1.len() {
                    assert(body[j] == d2[j - d1.len() - 1]);
                }
            }
        }
    }
    assert(trim_start(t) == t) by {
        assert(t.len() > 0);
        assert(text_char(t[0]));
    }
    assert(trim_end(t) == t) by {
        assert(text_char(t.last()));
    }
    lemma_not_non_finite(t);
    // the sign and the body
    assert(body.len() > 0);
    assert(body[0] == d1[0]);
    assert(is_digit(body[0]));
    if a < 0 {
        assert(t[0] == '-');
        assert(t.drop_first() =~= body);
    } else {
        assert(t =~= body);
        assert(t[0] != '-' && t[0] != '+');
    }
    assert(unsigned_part(t) == body);
    // the point
    if p == 0 {
        assert forall|k: int| 0 <= k < body.len() implies body[k] != '.' by {
            assert(is_digit(d1[k]));
        }
        lemma_dot_from_skips(body, 0, body.len());
        assert(integer_digits(body) =~= d1);
        assert(fraction_digits(body) =~= Seq::<char>::empty());
        assert(d1 + Seq::<char>::empty() =~= d1);
    } else {
        assert forall|k: int| 0 <= k < d1.len() implies body[k] != '.' by {
            assert(body[k] == d1[k]);
            assert(is_digit(d1[k]));
        }
        lemma_dot_from_skips(body, 0, d1.len());
        assert(body[d1.len() as int] == '.');
        assert forall|k: int| d1.len() + 1 <= k < body.len() implies body[k] != '.' by {
            assert(body[k] == d2[k - d1.len() - 1]);
            assert(is_digit(d2[k - d1.len() - 1]));
        }
        lemma_dot_from_skips(body, (d1.len() + 1) as nat, body.len());
        assert(dot_from(body, 0) == d1.len());
        assert(integer_digits(body) =~= d1);
        assert(fraction_digits(body) =~= d2);
        lemma_digits_value_concat(d1, d2);
    }
    assert(well_formed_body(body));
}

/// The canonical text of `m × 10^(-s)` has the canonical shape, with as many
/// fractional digits as the scale of the shortest form.
#[verifier::rlimit(60)]
proof fn lemma_canonical_text_shape(m: int, s: nat)
    ensures
        canonical_shape(decimal_text(m, s), strip_zeros(m, s).1),
{
    lemma_strip_zeros(m, s);
    let a = strip_zeros(m, s).0;
    let p = strip_zeros(m, s).1;
    let mag = magnitude(a) as nat;
    let t = decimal_text(m, s);
    lemma_pow10_positive(p);
    let q = mag / pow10(p);
    let r = mag % pow10(p);
    lemma_fundamental_div_mod(mag as int, pow10(p) as int);
    let n1 = if p == 0 {
        mag
    } else {
        q
    };
    let d1 = digits_text(n1);
    lemma_digits_text(n1);
    lemma_digits_text(r);
    let f = digits_text(r);
    let d2 = zero_padded(f, p);
    let body = if p == 0 {
        d1
    } else {
        d1 + seq!['.'] + d2
    };
    let sign = if a < 0 {
        seq!['-']
    } else {
        Seq::<char>::empty()
    };
    assert(t =~= sign + body);
    assert(body[0] == d1[0]);
    assert(is_digit(body[0]));
    if a < 0 {
        assert(t[0] == '-');
        assert(t.drop_first() =~= body);
    } else {
        assert(t =~= body);
    }
    // no leading zero in the integer part
    if d1.len() > 1 {
        assert(n1 >= 10);
        lemma_digits_text_lead(n1);
    }
    // the point, and what follows it
    if p == 0 {
        assert forall|k: int| 0 <= k < body.len() implies body[k] != '.' by {
            assert(is_digit(d1[k]));
        }
        lemma_dot_from_skips(body, 0, body.len());
        assert(body.take(body.len() as int) =~= d1);
    } else {
        assert forall|k: int| 0 <= k < d1.len() implies body[k] != '.' by {
            assert(body[k] == d1[k]);
            assert(is_digit(d1[k]));
        }
        lemma_dot_from_skips(body, 0, d1.len());
        assert(body[d1.len() as int] == '.');
        assert(dot_from(body, 0) == d1.len());
        assert(body.take(d1.len() as int) =~= d1);
        lemma_digits_text_len(r, p);
        if f.len() < p {
            lemma_digits_value_zeros((p - f.len()) as nat, f);
        }
        assert(d2.len() == p);
        assert(all_digits(d2));
        assert(body.skip(d1.len() + 1int) =~= d2);
        // the last fractional digit is that of `mag`, which is not zero
        lemma_digits_text_last(r);
        assert(d2.last() == f.last());
        assert(body.last() == d2.last());
        assert(pow10(p) == 10 * pow10((p - 1) as nat));
        lemma_pow10_positive((p - 1) as nat);
        lemma_mod_mod(mag as int, 10, pow10((p - 1) as nat) as int);
        assert(r % 10 == mag % 10);
        assert(a % 10 != 0);
        if a < 0 {
            assert(mag % 10 != 0) by {
                lemma_fundamental_div_mod(mag as int, 10);
                if mag % 10 == 0 {
                    lemma_mod_multiples_basic(-(mag as int / 10), 10);
                    assert(a == -(mag as int / 10) * 10);
                }
            }
        }
        assert(1 <= r % 10 <= 9);
        assert(digit_char((r % 10) as nat) != '0');
    }
    // never "-0"
    if a < 0 {
        assert(mag >= 1);
        if p == 0 {
            lemma_digits_text_lead(mag);
            assert(t[1] == d1[0]);
        } else {
            assert(t.len() > 2);
        }
    } else {
        assert(t[0] != '-');
    }
}

/// The canonical text shows the value alone: it has the canonical shape, with
/// exactly as many fractional digits as the shortest form's scale (what
/// `normalize` gives), and decimals of equal value print alike.
pub proof fn lemma_text_is_canonical(a: Decimal, b: Decimal)
    ensures
        canonical_shape(
            decimal_text(a.mantissa() as int, a.scale() as nat),
            strip_zeros(a.mantissa() as int, a.scale() as nat).1,
        ),
        same_decimal(a, b) ==> decimal_text(a.mantissa() as int, a.scale() as nat)
            == decimal_text(b.mantissa() as int, b.scale() as nat),
{
    lemma_canonical_text_shape(a.mantissa() as int, a.scale() as nat);
    if same_decimal(a, b) {
        lemma_strip_zeros_canonical(
            a.mantissa() as int,
            a.scale() as nat,
            b.mantissa() as int,
            b.scale() as nat,
        );
    }
}

/// The canonical text of a decimal reads back as its shortest form, which has
/// the same value and the same text: parsing what `to_string` writes gives
/// back the number, and writing it again gives the same text.
pub proof fn lemma_text_roundtrip(d: Decimal)
    requires
        d.scale() <= MAX_SCALE,
    ensures
        trimmed(decimal_text(d.mantissa() as int, d.scale() as nat)) == decimal_text(
            d.mantissa() as int,
            d.scale() as nat,
        ),
        parse_text(decimal_text(d.mantissa() as int, d.scale() as nat)) == Ok::<
            (int, nat),
            crate::parse::TextFault,
        >(strip_zeros(d.mantissa() as int, d.scale() as nat)),
        crate::math::same_value(
            strip_zeros(d.mantissa() as int, d.scale() as nat).0,
            strip_zeros(d.mantissa() as int, d.scale() as nat).1,
            d.mantissa() as int,
            d.scale() as nat,
        ),
        decimal_text(
            strip_zeros(d.mantissa() as int, d.scale() as nat).0,
            strip_zeros(d.mantissa() as int, d.scale() as nat).1,
        ) == decimal_text(d.mantissa() as int, d.scale() as nat),
{
    lemma_canonical_text_parses(d.mantissa(), d.scale() as nat);
    lemma_strip_zeros(d.mantissa() as int, d.scale() as nat);
    crate::decimal::lemma_strip_keeps_value(d.mantissa() as int, d.scale() as nat);
}

} // verus!

verus! {

/// Equal values have equal shortest forms; hashing goes through the shortest
/// form, so decimals that are `==` hash alike.
pub proof fn lemma_equal_values_hash_alike(a: Decimal, b: Decimal)
    requires
        same_decimal(a, b),
    ensures
        strip_zeros(a.mantissa() as int, a.scale() as nat) == strip_zeros(
            b.mantissa() as int,
            b.scale() as nat,
        ),
{
    lemma_strip_zeros_canonical(
        a.mantissa() as int,
        a.scale() as nat,
        b.mantissa() as int,
        b.scale() as nat,
    );
}

/// Equality by value is an equivalence: reflexive, symmetric and transitive.
pub proof fn lemma_value_equality_is_equivalence(a: Decimal, b: Decimal, c: Decimal)
    ensures
        same_decimal(a, a),
        same_decimal(a, b) ==> same_decimal(b, a),
        same_decimal(a, b) && same_decimal(b, c) ==> same_decimal(a, c),
{
    lemma_same_value_equivalence(
        a.mantissa() as int,
        a.scale() as nat,
        b.mantissa() as int,
        b.scale() as nat,
        c.mantissa() as int,
        c.scale() as nat,
    );
}

/// The order by value is a total order: swapping the operands flips the
/// comparison, "equal" is equality by value, and the order is transitive.
pub proof fn lemma_value_order_is_total(a: Decimal, b: Decimal, c: Decimal)
    ensures
        decimal_sign(a, b) == -decimal_sign(b, a),
        decimal_sign(a, b) == 0 <==> same_decimal(a, b),
        decimal_sign(a, b) <= 0 && decimal_sign(b, c) <= 0 ==> decimal_sign(a, c) <= 0,
        decimal_sign(a, b) < 0 && decimal_sign(b, c) <= 0 ==> decimal_sign(a, c) < 0,
        decimal_sign(a, b) <= 0 && decimal_sign(b, c) < 0 ==> decimal_sign(a, c) < 0,
{
    lemma_value_sign_transitive(
        a.mantissa() as int,
        a.scale() as nat,
        b.mantissa() as int,
        b.scale() as nat,
        c.mantissa() as int,
        c.scale() as nat,
    );
}

/// Addition commutes: `a + b` and `b + a` have the same outcome.
pub proof fn lemma_add_commutes(a: Decimal, b: Decimal)
    ensures
        sum_outcome(a.mantissa() as int, a.scale() as nat, b.mantissa() as int, b.scale() as nat, false)
            == sum_outcome(
            b.mantissa() as int,
            b.scale() as nat,
            a.mantissa() as int,
            a.scale() as nat,
            false,
        ),
{
}

/// Multiplication commutes: `a * b` and `b * a` have the same outcome.
pub proof fn lemma_mul_commutes(a: Decimal, b: Decimal)
    ensures
        product_outcome(a.mantissa() as int, a.scale() as nat, b.mantissa() as int, b.scale() as nat)
            == product_outcome(
            b.mantissa() as int,
            b.scale() as nat,
            a.mantissa() as int,
            a.scale() as nat,
        ),
{
    vstd::arithmetic::mul::lemma_mul_is_commutative(a.mantissa() as int, b.mantissa() as int);
    assert(a.scale() + b.scale() == b.scale() + a.scale());
}

/// Subtracting what was added gives back the first operand's value: when
/// `a.checked_add(b)` is `Ok(c)`, `c.checked_sub(b)` succeeds with the value of `a`.
pub proof fn lemma_sub_undoes_add(a: Decimal, b: Decimal, c: Decimal)
    requires
        outcome_is(
            Ok(c),
            sum_outcome(
                a.mantissa() as int,
                a.scale() as nat,
                b.mantissa() as int,
                b.scale() as nat,
                false,
            ),
        ),
    ensures
        sum_outcome(c.mantissa() as int, c.scale() as nat, b.mantissa() as int, b.scale() as nat, true) matches Ok(
            p,
        ) && same_value(p.0, p.1, a.mantissa() as int, a.scale() as nat),
{
    let s = max_nat(a.scale() as nat, b.scale() as nat);
    assert(pow10(0) == 1);
    assert(c.mantissa() * pow10(0) == c.mantissa());
    let k = (s - a.scale()) as nat;
    lemma_same_value_rescaled(a.mantissa() as int, a.scale() as nat, k);
    assert(a.scale() + k == s);
}

/// Adding back what was subtracted gives back the first operand's value: when
/// `a.checked_sub(b)` is `Ok(c)`, `c.checked_add(b)` succeeds with the value of `a`.
pub proof fn lemma_add_undoes_sub(a: Decimal, b: Decimal, c: Decimal)
    requires
        outcome_is(
            Ok(c),
            sum_outcome(
                a.mantissa() as int,
                a.scale() as nat,
                b.mantissa() as int,
                b.scale() as nat,
                true,
            ),
        ),
    ensures
        sum_outcome(c.mantissa() as int, c.scale() as nat, b.mantissa() as int, b.scale() as nat, false) matches Ok(
            p,
        ) && same_value(p.0, p.1, a.mantissa() as int, a.scale() as nat),
{
    let s = max_nat(a.scale() as nat, b.scale() as nat);
    assert(pow10(0) == 1);
    assert(c.mantissa() * pow10(0) == c.mantissa());
    let k = (s - a.scale()) as nat;
    lemma_same_value_rescaled(a.mantissa() as int, a.scale() as nat, k);
    assert(a.scale() + k == s);
}

/// Widening the scale loses nothing: when `d.checked_rescale(target, _)` with
/// `target >= d.scale()` is `Ok(e)`, `e` has the value of `d`, and rescaling `e`
/// back to `d.scale()` with any strategy gives `d` exactly.
pub proof fn lemma_rescale_roundtrip(
    d: Decimal,
    target: nat,
    widen: RoundingStrategy,
    narrow: RoundingStrategy,
    e: Decimal,
)
    requires
        target >= d.scale(),
        d.scale() <= MAX_SCALE,
        outcome_is(Ok(e), rescale_outcome(d.mantissa() as int, d.scale() as nat, target, widen)),
    ensures
        same_decimal(e, d),
        rescale_outcome(e.mantissa() as int, e.scale() as nat, d.scale() as nat, narrow) == Ok::<
            (int, nat),
            DecimalError,
        >((d.mantissa() as int, d.scale() as nat)),
{
    lemma_same_value_equivalence(
        d.mantissa() as int,
        d.scale() as nat,
        d.mantissa() as int,
        d.scale() as nat,
        d.mantissa() as int,
        d.scale() as nat,
    );
    if target > d.scale() {
        let k = (target - d.scale()) as nat;
        lemma_same_value_rescaled(d.mantissa() as int, d.scale() as nat, k);
        assert(d.scale() + k == target);
        lemma_pow10_positive(k);
        lemma_round_div_exact(d.mantissa() as int, pow10(k) as int, narrow);
        assert((e.scale() - d.scale()) as nat == k);
    }
}

/// Shortening is idempotent: the shortest form of a shortest form is itself,
/// so normalizing twice is normalizing once.
pub proof fn lemma_normalize_idempotent(d: Decimal)
    ensures
        strip_zeros(
            strip_zeros(d.mantissa() as int, d.scale() as nat).0,
            strip_zeros(d.mantissa() as int, d.scale() as nat).1,
        ) == strip_zeros(d.mantissa() as int, d.scale() as nat),
{
    lemma_strip_zeros(d.mantissa() as int, d.scale() as nat);
}

} // verus!

verus! {

/// The text of a currency code reads back as the same code: the UTF-8 bytes
/// of `ascii_chars(code)` are the code itself, so `Currency::from_code` on
/// `c.as_str()` gives back `c`'s bytes.
pub proof fn lemma_currency_text_roundtrip(code: Seq<u8>)
    requires
        is_currency_code(code),
    ensures
        encode_utf8(ascii_chars(code)) == code,
{
    let chars = ascii_chars(code);
    assert(is_ascii_chars(chars)) by {
        assert forall|i: int| 0 <= i < chars.len() implies '\0' <= #[trigger] chars[i] <= '\u{7f}' by {
            assert(is_upper_ascii(code[i]));
        }
    }
    is_ascii_chars_encode_utf8(chars);
    assert forall|i: int| 0 <= i < code.len() implies #[trigger] encode_utf8(chars)[i] == code[i] by {
        assert(is_upper_ascii(code[i]));
        assert(chars[i] as u8 == encode_utf8(chars)[i]);
    }
    assert(encode_utf8(chars) =~= code);
}


/// The serialized mantissa reads back: `Decimal::mantissa_from_text` on the
/// text `Decimal::mantissa_text` writes gives back the same mantissa, for
/// every `i128`.
pub proof fn lemma_mantissa_text_roundtrip(m: i128)
    ensures
        integer_text_value(integer_text(m as int)) == Some(m as int),
{
    let t = integer_text(m as int);
    if m < 0 {
        let d = digits_text((-m) as nat);
        lemma_digits_text((-m) as nat);
        assert(t[0] == '-');
        assert(unsigned_part(t) =~= d);
    } else {
        let d = digits_text(m as nat);
        lemma_digits_text(m as nat);
        assert(is_digit(d[0]));
        assert(unsigned_part(t) =~= d);
    }
}


/// A quotient is the exact quotient rounded at the result's scale: whenever
/// dividing `m1 × 10^(-s1)` by `m2 × 10^(-s2)` succeeds with `(q, t)`, the
/// scale `t` is the larger of `s1` and `s2`, and `q × 10^(-t)` lies within
/// one unit in the last place of `(m1 × 10^(-s1)) / (m2 × 10^(-s2))`:
/// `|q·m2·10^s1 − m1·10^(t+s2)| < |m2|·10^s1`.
pub proof fn lemma_quotient_within_one_unit(
    m1: int,
    s1: nat,
    m2: int,
    s2: nat,
    strategy: RoundingStrategy,
)
    ensures
        quotient_outcome(m1, s1, m2, s2, strategy) matches Ok(p) ==> {
            let q = p.0;
            let t = p.1;
            let e = q * m2 * pow10(s1) - m1 * pow10(t + s2);
            let bound = (if m2 < 0 {
                -m2
            } else {
                m2
            }) * pow10(s1);
            &&& t >= s1 && t >= s2
            &&& (t == s1 || t == s2)
            &&& -bound < e < bound
        },
{
    if quotient_outcome(m1, s1, m2, s2, strategy) is Ok {
        let t = max_nat(s1, s2);
        let k = (t - s1 + s2) as nat;
        let n = m1 * pow10(k);
        let q = round_div(n, m2, strategy);
        lemma_round_div_brackets(n, m2, strategy);
        let b = magnitude(m2);
        // |q·m2 − n| < |m2|
        assert(-b < q * m2 - n < b) by (nonlinear_arith)
            requires
                m2 != 0,
                b == (if m2 < 0 {
                    -m2
                } else {
                    m2
                }),
                -b < (if m2 < 0 {
                    -n
                } else {
                    n
                }) - q * b < b,
        ;
        let ps = pow10(s1);
        lemma_pow10_positive(s1);
        lemma_pow10_add(k, s1);
        assert(k + s1 == t + s2);
        assert(n * ps == m1 * pow10(t + s2)) by (nonlinear_arith)
            requires
                n == m1 * pow10(k),
                pow10(k + s1) == pow10(k) * ps,
                k + s1 == t + s2,
        ;
        assert(-(b * ps) < q * m2 * ps - n * ps < b * ps) by (nonlinear_arith)
            requires
                -b < q * m2 - n < b,
                ps > 0,
        ;
        assert(quotient_outcome(m1, s1, m2, s2, strategy) == Ok::<(int, nat), DecimalError>(
            (q, t),
        ));
        assert(b * ps == (if m2 < 0 {
            -m2
        } else {
            m2
        }) * pow10(s1));
        assert(t >= s1 && t >= s2 && (t == s1 || t == s2));
        assert(-(b * ps) < q * m2 * pow10(s1) - m1 * pow10(t + s2) < b * ps);
    }
}

/// Parsing ignores every Unicode `White_Space` character at either end of
/// the text, as `str::trim` does: the characters U+0009 to U+000D (tab, line
/// feed, vertical tab, form feed, carriage return), U+0020, U+0085, U+00A0,
/// U+1680, U+2000 to U+200A, U+2028, U+2029, U+202F, U+205F and U+3000.
/// Appending or prepending one of them to `s` leaves the trimmed text, and so
/// the result of `Decimal::from_str_exact`, unchanged.
pub proof fn lemma_parse_ignores_white_space(s: Seq<char>, c: char, res: Result<Decimal, DecimalError>)
    requires
        c == '\t' || c == '\n' || c == '\u{b}' || c == '\u{c}' || c == '\r' || c == ' '
            || c == '\u{85}' || c == '\u{a0}' || c == '\u{1680}' || c == '\u{2000}' || c
            == '\u{2001}' || c == '\u{2002}' || c == '\u{2003}' || c == '\u{2004}' || c
            == '\u{2005}' || c == '\u{2006}' || c == '\u{2007}' || c == '\u{2008}' || c
            == '\u{2009}' || c == '\u{200a}' || c == '\u{2028}' || c == '\u{2029}' || c
            == '\u{202f}' || c == '\u{205f}' || c == '\u{3000}',
    ensures
        trimmed(s.push(c)) == trimmed(s),
        trimmed(seq![c] + s) == trimmed(s),
        parsed_as(res, s.push(c)) == parsed_as(res, s),
        parsed_as(res, seq![c] + s) == parsed_as(res, s),
{
    assert(is_white_space(c));
    lemma_trim_start_push_white(s, c);
    let x = trim_start(s.push(c));
    if x.len() > 0 {
        assert(x.last() == c);
        assert(x.drop_last() =~= trim_start(s));
    }
    assert((seq![c] + s).drop_first() =~= s);
}

/// Trimming the front of `s` followed by white space `c`: `c` stays at the end,
/// unless everything is white space.
proof fn lemma_trim_start_push_white(s: Seq<char>, c: char)
    requires
        is_white_space(c),
    ensures
        trim_start(s.push(c)) == trim_start(s).push(c) || (trim_start(s.push(c)).len() == 0
            && trim_start(s).len() == 0),
    decreases s.len(),
{
    if s.len() == 0 {
        assert(s.push(c).drop_first() =~= Seq::<char>::empty());
        assert(trim_start(Seq::<char>::empty()) == Seq::<char>::empty());
        assert(trim_start(s.push(c)) == trim_start(s.push(c).drop_first()));
    } else if is_white_space(s[0]) {
        assert(s.push(c).drop_first() =~= s.drop_first().push(c));
        lemma_trim_start_push_white(s.drop_first(), c);
        assert(trim_start(s.push(c)) == trim_start(s.drop_first().push(c)));
        assert(trim_start(s) == trim_start(s.drop_first()));
    } else {
        assert(s.push(c)[0] == s[0]);
        assert(trim_start(s.push(c)) == s.push(c));
        assert(trim_start(s) == s);
    }
}

/// The currency codes are exactly the three-byte strings of the letters
/// `A` to `Z` (ASCII upper case), so `Currency::try_new`, `Currency::from_code`
/// and `FromStr` accept every such code, `Z` included, and refuse every other.
pub proof fn lemma_currency_codes_are_upper_case_letters(bytes: Seq<u8>)
    ensures
        is_currency_code(bytes) <==> (bytes.len() == 3 && forall|i: int|
            0 <= i < 3 ==> 'A' <= #[trigger] (bytes[i] as char) <= 'Z'),
{
    if bytes.len() == 3 {
        if is_currency_code(bytes) {
            assert forall|i: int| 0 <= i < 3 implies 'A' <= #[trigger] (bytes[i] as char) <= 'Z' by {
                assert(is_upper_ascii(bytes[i]));
            }
        }
        if forall|i: int| 0 <= i < 3 ==> 'A' <= #[trigger] (bytes[i] as char) <= 'Z' {
            assert forall|i: int| 0 <= i < 3 implies #[trigger] is_upper_ascii(bytes[i]) by {
                assert('A' <= (bytes[i] as char) <= 'Z');
            }
        }
    }
}

} // verus!
