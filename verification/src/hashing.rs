//! Hashing of decimals by value: equal values hash alike.

use vstd::prelude::*;

use crate::decimal::Decimal;

verus! {

/// `<i128 as Hash>::hash`: feeds the integer to the hasher.
#[verifier::external_body]
fn feed_i128<H: std::hash::Hasher>(value: i128, state: &mut H) {
    std::hash::Hash::hash(&value, state)
}

/// `<u8 as Hash>::hash`: feeds the byte to the hasher.
#[verifier::external_body]
fn feed_u8<H: std::hash::Hasher>(value: u8, state: &mut H) {
    std::hash::Hash::hash(&value, state)
}

impl std::hash::Hash for Decimal {
    /// Hashes the shortest form of the value, so `1.0` and `1.00` hash alike.
    fn hash<H: std::hash::Hasher>(&self, state: &mut H) {
        let (m, s) = self.canonical();
        feed_i128(m, state);
        feed_u8(s, state);
    }
}

} // verus!
