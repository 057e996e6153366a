//! Arbitrary-precision integers, as `num_bigint` holds them.

use crate::bytes::le_value;
use num_bigint::BigInt;
use num_bigint::Sign;
use vstd::prelude::*;

verus! {

/// `num_bigint::BigInt`, carried through as it is.
#[verifier::external_type_specification]
#[verifier::external_body]
pub struct ExBigInt(num_bigint::BigInt);

/// The integer that a `BigInt` holds. Nothing is known of it but what the
/// two trusted contracts below say.
pub uninterp spec fn big_int_value(n: BigInt) -> int;

/// `BigInt`'s `clone`. Trusted: the copy holds the same integer.
pub assume_specification[ <BigInt as Clone>::clone ](n: &BigInt) -> (r: BigInt)
    ensures
        big_int_value(r) == big_int_value(*n),
;

/// The integer with the given sign whose absolute value `magnitude` spells,
/// least significant byte first.
pub open spec fn signed_magnitude(negative: bool, magnitude: Seq<u8>) -> int {
    if negative {
        -(le_value(magnitude) as int)
    } else {
        le_value(magnitude) as int
    }
}

/// Calls `BigInt::from_bytes_le`, with `Sign::Minus` for a negative number
/// and `Sign::Plus` otherwise. Trusted: the number that comes back has the
/// little-endian magnitude and the sign that went in; a zero magnitude gives
/// zero under either sign.
#[verifier::external_body]
pub(crate) fn big_int_from_bytes_le(negative: bool, magnitude: &[u8]) -> (n: BigInt)
    ensures
        big_int_value(n) == signed_magnitude(negative, magnitude@),
{
    BigInt::from_bytes_le(if negative { Sign::Minus } else { Sign::Plus }, magnitude)
}

} // verus!
