//! GLL: position and time only.
use vstd::prelude::*;

use crate::fields::{Decimal, degrees_of};
use crate::nmea::{decimal_field, degrees_field, field, field_decimal, field_equals, field_is, views};

verus! {

/// One decoded GLL sentence.
#[derive(Clone, Copy, Debug, PartialEq, Eq)]
pub struct GllData {
    pub latitude: Option<Decimal>,
    pub longitude: Option<Decimal>,
    pub utc: Option<Decimal>,
    pub is_valid: bool,
}

/// The GLL record that fields `f` hold: position in fields 1 to 4, time in field 5, status `A`
/// in field 6 for a valid fix. Missing or malformed values are absent.
pub open spec fn gll_of(f: Seq<Seq<u8>>) -> GllData {
    GllData {
        latitude: degrees_of(field(f, 1), field(f, 2)),
        longitude: degrees_of(field(f, 3), field(f, 4)),
        utc: field_decimal(f, 5),
        is_valid: field_is(f, 6, 0x41),
    }
}

/// Decodes the fields of a GLL sentence (header first).
pub fn parse_gll(args: Vec<&str>) -> (r: GllData)
    ensures
        r == gll_of(views(args@)),
{
    GllData {
        latitude: degrees_field(&args, 1),
        longitude: degrees_field(&args, 3),
        utc: decimal_field(&args, 5),
        is_valid: field_equals(&args, 6, 0x41),
    }
}

} // verus!
