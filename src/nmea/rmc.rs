//! RMC: the recommended minimum: time, status, position, speed, course, date and magnetic
//! variation.
use vstd::prelude::*;

use crate::fields::{Date, Decimal, date_of, degrees_of, parse_ddmmyy};
use crate::nmea::{decimal_field, degrees_field, field, field_decimal, field_equals, field_is, views};

verus! {

/// One decoded RMC sentence. The magnetic variation is positive to the east.
#[derive(Clone, Copy, Debug, PartialEq, Eq)]
pub struct RmcData {
    pub utc: Option<Decimal>,
    pub fix_status: bool,
    pub latitude: Option<Decimal>,
    pub longitude: Option<Decimal>,
    pub speed: Option<Decimal>,
    pub course: Option<Decimal>,
    pub date: Option<Date>,
    pub mag_var: Option<Decimal>,
}

/// The magnetic variation: the value of field 10, negated when field 11 is `W`, absent when
/// field 11 is neither `E` nor `W`.
pub open spec fn mag_var_of(f: Seq<Seq<u8>>) -> Option<Decimal> {
    if field_is(f, 11, 0x45) {
        field_decimal(f, 10)
    } else if field_is(f, 11, 0x57) {
        match field_decimal(f, 10) {
            Some(d) => Some(Decimal { mantissa: (-d.mantissa) as i64, scale: d.scale }),
            None => None,
        }
    } else {
        None
    }
}

/// The RMC record that fields `f` hold: status `A` is a valid fix; the date (field 9) is
/// `ddmmyy` in the 21st century. Missing or malformed values are absent.
pub open spec fn rmc_of(f: Seq<Seq<u8>>) -> RmcData {
    RmcData {
        utc: field_decimal(f, 1),
        fix_status: field_is(f, 2, 0x41),
        latitude: degrees_of(field(f, 3), field(f, 4)),
        longitude: degrees_of(field(f, 5), field(f, 6)),
        speed: field_decimal(f, 7),
        course: field_decimal(f, 8),
        date: date_of(field(f, 9)),
        mag_var: mag_var_of(f),
    }
}

/// Decodes the fields of an RMC sentence (header first).
pub fn parse_rmc(args: Vec<&str>) -> (r: RmcData)
    ensures
        r == rmc_of(views(args@)),
{
    let date = if 9 < args.len() {
        parse_ddmmyy(args[9])
    } else {
        None
    };
    let mag_var = if field_equals(&args, 11, 0x45) {
        decimal_field(&args, 10)
    } else if field_equals(&args, 11, 0x57) {
        match decimal_field(&args, 10) {
            Some(d) => Some(Decimal { mantissa: -d.mantissa, scale: d.scale }),
            None => None,
        }
    } else {
        None
    };
    RmcData {
        utc: decimal_field(&args, 1),
        fix_status: field_equals(&args, 2, 0x41),
        latitude: degrees_field(&args, 3),
        longitude: degrees_field(&args, 5),
        speed: decimal_field(&args, 7),
        course: decimal_field(&args, 8),
        date,
        mag_var,
    }
}

} // verus!
