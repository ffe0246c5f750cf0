//! Value objects around [`Decimal`]: price, quantity, ratio, currency and money.

use vstd::prelude::*;
use vstd::string::StringSliceAdditionalSpecFns;

use crate::decimal::Decimal;
use crate::error::DecimalError;

verus! {

/// A price: a validated [`Decimal`] behind a private field.
#[derive(Debug, Clone, Copy, PartialEq, Eq, PartialOrd, Hash)]
pub struct Price(Decimal);

impl Price {
    /// The wrapped decimal.
    pub closed spec fn spec_decimal(self) -> Decimal {
        self.0
    }

    /// Wraps a decimal.
    pub fn new(d: Decimal) -> (p: Self)
        ensures
            p.as_decimal() == d,
    {
        Price(d)
    }

    /// The wrapped decimal.
    #[verifier::when_used_as_spec(spec_decimal)]
    pub fn as_decimal(self) -> (d: Decimal)
        ensures
            d == self.spec_decimal(),
    {
        self.0
    }

    /// Unwraps the decimal.
    pub fn into_inner(self) -> (d: Decimal)
        ensures
            d == self.as_decimal(),
    {
        self.0
    }
}

/// A quantity: a validated [`Decimal`] behind a private field.
#[derive(Debug, Clone, Copy, PartialEq, Eq, PartialOrd, Hash)]
pub struct Qty(Decimal);

impl Qty {
    /// The wrapped decimal.
    pub closed spec fn spec_decimal(self) -> Decimal {
        self.0
    }

    /// Wraps a decimal.
    pub fn new(d: Decimal) -> (q: Self)
        ensures
            q.as_decimal() == d,
    {
        Qty(d)
    }

    /// The wrapped decimal.
    #[verifier::when_used_as_spec(spec_decimal)]
    pub fn as_decimal(self) -> (d: Decimal)
        ensures
            d == self.spec_decimal(),
    {
        self.0
    }

    /// Unwraps the decimal.
    pub fn into_inner(self) -> (d: Decimal)
        ensures
            d == self.as_decimal(),
    {
        self.0
    }
}

/// A ratio: a validated [`Decimal`] behind a private field.
#[derive(Debug, Clone, Copy, PartialEq, Eq, PartialOrd, Hash)]
pub struct Ratio(Decimal);

impl Ratio {
    /// The wrapped decimal.
    pub closed spec fn spec_decimal(self) -> Decimal {
        self.0
    }

    /// Wraps a decimal.
    pub fn new(d: Decimal) -> (r: Self)
        ensures
            r.as_decimal() == d,
    {
        Ratio(d)
    }

    /// The wrapped decimal.
    #[verifier::when_used_as_spec(spec_decimal)]
    pub fn as_decimal(self) -> (d: Decimal)
        ensures
            d == self.spec_decimal(),
    {
        self.0
    }

    /// Unwraps the decimal.
    pub fn into_inner(self) -> (d: Decimal)
        ensures
            d == self.as_decimal(),
    {
        self.0
    }
}

/// An upper-case ASCII letter.
pub open spec fn is_upper_ascii(b: u8) -> bool {
    65 <= b <= 90
}

/// Three upper-case ASCII letters, as an ISO 4217 style code.
pub open spec fn is_currency_code(bytes: Seq<u8>) -> bool {
    &&& bytes.len() == 3
    &&& forall|i: int| 0 <= i < 3 ==> #[trigger] is_upper_ascii(bytes[i])
}

/// The characters of ASCII bytes.
pub open spec fn ascii_chars(bytes: Seq<u8>) -> Seq<char> {
    bytes.map_values(|b: u8| b as char)
}

/// A currency code: three upper-case ASCII letters; only valid codes can be built.
#[derive(Debug, Clone, Copy, PartialEq, Eq, Hash)]
pub struct Currency([u8; 3]);

/// `std::str::from_utf8` on three ASCII bytes.
///
/// Claimed: for ASCII bytes, which are valid UTF-8, `from_utf8` succeeds and the
/// text holds one character per byte, with the byte's code.
#[verifier::external_body]
fn ascii_text(bytes: &[u8; 3]) -> (s: &str)
    requires
        forall|i: int| 0 <= i < 3 ==> #[trigger] bytes@[i] < 128,
    ensures
        s@ == ascii_chars(bytes@),
{
    match std::str::from_utf8(bytes) {
        Ok(s) => s,
        Err(_) => "",
    }
}

impl Currency {
    #[verifier::type_invariant]
    spec fn code_is_valid(self) -> bool {
        is_currency_code(self.0@)
    }

    /// The three bytes of the code.
    pub closed spec fn spec_bytes(self) -> [u8; 3] {
        self.0
    }

    /// The code as text; always three upper-case ASCII letters.
    pub fn as_str(&self) -> (s: &str)
        ensures
            s@ == ascii_chars(self.as_bytes()@),
    {
        proof {
            use_type_invariant(self);
            assert forall|i: int| 0 <= i < 3 implies #[trigger] self.0@[i] < 128 by {
                assert(is_upper_ascii(self.0@[i]));
            }
        }
        ascii_text(&self.0)
    }

    /// The three bytes of the code; always a valid code.
    #[verifier::when_used_as_spec(spec_bytes)]
    pub fn as_bytes(self) -> (b: [u8; 3])
        ensures
            b == self.spec_bytes(),
            is_currency_code(b@),
    {
        proof {
            use_type_invariant(&self);
        }
        self.0
    }

    /// Builds a currency from three bytes, all of which must be upper-case ASCII letters.
    pub fn try_new(bytes: [u8; 3]) -> (res: Result<Self, DecimalError>)
        ensures
            is_currency_code(bytes@) ==> (res matches Ok(c) && c.as_bytes() == bytes),
            !is_currency_code(bytes@) ==> res == Err::<Currency, DecimalError>(
                DecimalError::InvalidCurrency,
            ),
            res is Ok <==> (forall|i: int| 0 <= i < 3 ==> 'A' <= #[trigger] (bytes@[i] as char) <= 'Z'),
    {
        proof {
            crate::laws::lemma_currency_codes_are_upper_case_letters(bytes@);
            assert(bytes@.len() == 3);
        }
        let mut i: usize = 0;
        while i < 3
            invariant
                i <= 3,
                forall|j: int| 0 <= j < i ==> #[trigger] is_upper_ascii(bytes@[j]),
            decreases 3 - i,
        {
            let b = bytes[i];
            if !(65 <= b && b <= 90) {
                proof {
                    assert(!is_upper_ascii(bytes@[i as int]));
                    assert(!('A' <= (bytes@[i as int] as char) <= 'Z'));
                }
                return Err(DecimalError::InvalidCurrency);
            }
            i = i + 1;
        }
        Ok(Currency(bytes))
    }

    /// Whether the bytes are upper-case ASCII letters; true of every currency.
    pub fn is_valid(self) -> (b: bool)
        ensures
            b == is_currency_code(self.as_bytes()@),
            b,
    {
        proof {
            use_type_invariant(&self);
        }
        let mut i: usize = 0;
        while i < 3
            invariant
                i <= 3,
                is_currency_code(self.0@),
                forall|j: int| 0 <= j < i ==> #[trigger] is_upper_ascii(self.0@[j]),
            decreases 3 - i,
        {
            let b = self.0[i];
            if !(65 <= b && b <= 90) {
                proof {
                    assert(is_upper_ascii(self.0@[i as int]));
                }
                return false;
            }
            i = i + 1;
        }
        true
    }

    /// Checks the code and returns the currency itself.
    pub fn validate(self) -> (res: Result<Self, DecimalError>)
        ensures
            res == Ok::<Currency, DecimalError>(self),
    {
        proof {
            use_type_invariant(&self);
        }
        let r = Self::try_new(self.0);
        proof {
            if let Ok(c) = r {
                assert(c.0 == self.0);
            }
        }
        r
    }

    /// Parses a currency code from text: exactly three upper-case ASCII letters.
    pub fn from_code(s: &str) -> (res: Result<Self, DecimalError>)
        ensures
            is_currency_code(s.spec_bytes()) ==> (res matches Ok(c) && c.as_bytes()@
                == s.spec_bytes()),
            !is_currency_code(s.spec_bytes()) ==> res == Err::<Currency, DecimalError>(
                DecimalError::InvalidCurrency,
            ),
            res is Ok <==> (s.spec_bytes().len() == 3 && forall|i: int|
                0 <= i < 3 ==> 'A' <= #[trigger] (s.spec_bytes()[i] as char) <= 'Z'),
    {
        proof {
            crate::laws::lemma_currency_codes_are_upper_case_letters(s.spec_bytes());
        }
        let b = s.as_bytes();
        if b.len() != 3 {
            return Err(DecimalError::InvalidCurrency);
        }
        let arr = [b[0], b[1], b[2]];
        proof {
            assert(arr@ =~= b@);
        }
        Self::try_new(arr)
    }
}

impl std::str::FromStr for Currency {
    type Err = DecimalError;

    /// Parses a currency code; the same as [`Currency::from_code`].
    fn from_str(s: &str) -> (res: Result<Currency, DecimalError>)
        ensures
            is_currency_code(s.spec_bytes()) ==> (res matches Ok(c) && c.as_bytes()@
                == s.spec_bytes()),
            !is_currency_code(s.spec_bytes()) ==> res == Err::<Currency, DecimalError>(
                DecimalError::InvalidCurrency,
            ),
            res is Ok <==> (s.spec_bytes().len() == 3 && forall|i: int|
                0 <= i < 3 ==> 'A' <= #[trigger] (s.spec_bytes()[i] as char) <= 'Z'),
    {
        Currency::from_code(s)
    }
}

/// An amount in a currency; both parts are valid by construction.
#[derive(Debug, Clone, Copy, PartialEq, Eq)]
pub struct Money {
    amount: Decimal,
    currency: Currency,
}

impl Money {
    /// The amount.
    pub closed spec fn spec_amount(self) -> Decimal {
        self.amount
    }

    /// The currency.
    pub closed spec fn spec_currency(self) -> Currency {
        self.currency
    }

    /// Builds an amount in a currency after validating both; every decimal and
    /// every currency is valid, so this always succeeds.
    pub fn try_new(amount: Decimal, currency: Currency) -> (res: Result<Self, DecimalError>)
        ensures
            res matches Ok(m) && m.amount() == amount && m.currency() == currency,
    {
        let amount = amount.validate()?;
        let currency = currency.validate()?;
        Ok(Money { amount, currency })
    }

    /// The amount.
    #[verifier::when_used_as_spec(spec_amount)]
    pub fn amount(self) -> (d: Decimal)
        ensures
            d == self.spec_amount(),
    {
        self.amount
    }

    /// The currency.
    #[verifier::when_used_as_spec(spec_currency)]
    pub fn currency(self) -> (c: Currency)
        ensures
            c == self.spec_currency(),
    {
        self.currency
    }

    /// Validates both parts and returns the amount itself.
    pub fn validate(self) -> (res: Result<Self, DecimalError>)
        ensures
            res == Ok::<Money, DecimalError>(self),
    {
        Self::try_new(self.amount, self.currency)
    }
}

} // verus!
