//! Decimal digits, as the numerals are written place by place.

use vstd::prelude::*;

verus! {

/// The decimal digits of an integer that is not negative, the thousands taken
/// as one digit however large.
pub proof fn lemma_decimal_digits(n: int)
    requires
        0 <= n,
    ensures
        0 <= n / 1000,
        0 <= (n / 100) % 10 <= 9,
        0 <= (n / 10) % 10 <= 9,
        0 <= n % 10 <= 9,
        1000 * (n / 1000) + 100 * ((n / 100) % 10) + 10 * ((n / 10) % 10) + n % 10 == n,
{
    assert(n / 1000 == (n / 100) / 10);
    assert(n / 100 == (n / 10) / 10);
}

/// Four digits that make up an integer are its decimal digits.
pub proof fn lemma_digits_are_decimal(n: int, thousands: int, hundreds: int, tens: int, units: int)
    requires
        0 <= thousands,
        0 <= hundreds <= 9,
        0 <= tens <= 9,
        0 <= units <= 9,
        1000 * thousands + 100 * hundreds + 10 * tens + units == n,
    ensures
        thousands == n / 1000,
        hundreds == (n / 100) % 10,
        tens == (n / 10) % 10,
        units == n % 10,
{
    assert(n / 1000 == thousands);
    assert(n / 100 == 10 * thousands + hundreds);
    assert(n / 10 == 100 * thousands + 10 * hundreds + tens);
}

} // verus!
