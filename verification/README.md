# decimalx

Exact fixed-point decimals (`mantissa × 10^(-scale)`, scale at most 18),
currency and money value objects, and checked arithmetic, verified with Verus.

## Layout

- `src/` — the verified library.
  - `math.rs`: powers of ten, the value model, removal of trailing zeros.
  - `decimal.rs`: `Decimal`, its constructors and checked arithmetic
    (`checked_add`, `checked_sub`, `checked_mul`, `checked_div`,
    `checked_rescale`, `normalize`, `checked_sum`), each specified by the
    exact outcome it yields, error included.
  - `rounding.rs`: rounding strategies and the rounding of a truncated quotient.
  - `order.rs`: comparison and equality by value.
  - `text.rs`, `parse.rs`: the canonical text of a decimal and the parser.
  - `types.rs`: `Price`, `Qty`, `Ratio`, `Currency`, `Money`.
  - `laws.rs`: properties relating several operations (text round trip,
    hashing of equal values, total order, inverse operations, …).
- `tests/` — executable tests of the library.
- `app/` — serde support, `Display`, `std::error::Error` and `Sum` on copies
  of the library's types.

## Checking

Verus verifies `src/`; the tests run against the compiled library.
