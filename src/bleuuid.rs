use vstd::prelude::*;

use crate::error::Error;
use uuid::Error as UuidError;

verus! {

/// The Bluetooth base UUID `00000000-0000-1000-8000-00805F9B34FB`.
pub const BLUETOOTH_BASE_UUID: u128 = 0x0000_0000_0000_1000_8000_0080_5F9B_34FB;

/// The value of a 16-bit assigned number within the Bluetooth base UUID.
pub open spec fn spec_uuid_from_u16(short: u16) -> u128 {
    (short as u128 * 0x1_0000_0000_0000_0000_0000_0000 + BLUETOOTH_BASE_UUID) as u128
}

/// The full 128-bit UUID of a 16-bit Bluetooth assigned number.
pub fn uuid_from_u16(short: u16) -> (r: u128)
    ensures
        r == spec_uuid_from_u16(short),
{
    short as u128 * 0x1_0000_0000_0000_0000_0000_0000 + BLUETOOTH_BASE_UUID
}

/// The 128-bit value of UUID text, if the `uuid` crate accepts it.
pub uninterp spec fn uuid_text_value(s: Seq<char>) -> Option<u128>;

/// Relies on `uuid::Uuid::parse_str`: it accepts the simple, hyphenated,
/// braced and URN forms and reports an error otherwise; `Uuid::as_u128`
/// gives the value, most significant byte first.
#[verifier::external_body]
fn parse_uuid_text(s: &str) -> (r: Result<u128, UuidError>)
    ensures
        r is Ok <==> uuid_text_value(s@) is Some,
        r is Ok ==> uuid_text_value(s@) == Some(r->Ok_0),
{
    match uuid::Uuid::parse_str(s) {
        Ok(u) => Ok(u.as_u128()),
        Err(e) => Err(e),
    }
}

/// Parses UUID text into its 128-bit value; fails with `Error::Uuid` on
/// text that is not a UUID.
pub fn parse_uuid(s: &str) -> (r: Result<u128, Error>)
    ensures
        r is Ok <==> uuid_text_value(s@) is Some,
        r is Ok ==> uuid_text_value(s@) == Some(r->Ok_0),
        r is Err ==> r->Err_0 is Uuid,
{
    match parse_uuid_text(s) {
        Ok(u) => Ok(u),
        Err(e) => Err(Error::Uuid(e)),
    }
}

} // verus!
