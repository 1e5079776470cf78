//! GGA: time, position, fix quality, satellites used, horizontal dilution of precision,
//! altitude, geoidal separation and age of the differential correction.
use vstd::prelude::*;

use crate::fields::{Decimal, degrees_of};
use crate::nmea::{decimal_field, degrees_field, field, field_decimal, field_equals, field_i32, field_is, i32_field, views};

verus! {

/// Quality of the position fix.
#[derive(Clone, Copy, Debug, PartialEq, Eq)]
pub enum SatFix {
    NoFix,
    GpsFix,
    DgpsFix,
}

impl Default for SatFix {
    fn default() -> (r: SatFix)
        ensures
            r == SatFix::NoFix,
    {
        SatFix::NoFix
    }
}

/// One decoded GGA sentence. Coordinates are decimal degrees, negative to the south and west.
#[derive(Clone, Copy, Debug, PartialEq, Eq)]
pub struct GgaData {
    pub utc: Decimal,
    pub lat: Option<Decimal>,
    pub long: Option<Decimal>,
    pub sat_fix: SatFix,
    pub satellites_used: i32,
    pub hdop: Option<Decimal>,
    pub msl_alt: Option<Decimal>,
    pub geoidal_sep: Option<Decimal>,
    pub age_diff_corr: Option<Decimal>,
}

/// A GGA header: `GG` right after the `$` and the two-letter talker.
pub open spec fn is_gga_header(h: Seq<u8>) -> bool {
    h.len() >= 5 && h[3] == 0x47 && h[4] == 0x47
}

/// Fix quality `1` is a GPS fix, `2` a differential fix, anything else no fix.
pub open spec fn sat_fix_of(f: Seq<Seq<u8>>, i: int) -> SatFix {
    if field_is(f, i, 0x31) {
        SatFix::GpsFix
    } else if field_is(f, i, 0x32) {
        SatFix::DgpsFix
    } else {
        SatFix::NoFix
    }
}

/// The GGA record that fields `f` hold. The time (field 1) and the number of satellites used
/// (field 7) are required; without them there is no record. Every other field that is missing
/// or malformed is absent.
pub open spec fn gga_of(f: Seq<Seq<u8>>) -> Option<GgaData> {
    match (field_decimal(f, 1), field_i32(f, 7)) {
        (Some(utc), Some(n)) => Some(
            GgaData {
                utc,
                lat: degrees_of(field(f, 2), field(f, 3)),
                long: degrees_of(field(f, 4), field(f, 5)),
                sat_fix: sat_fix_of(f, 6),
                satellites_used: n,
                hdop: field_decimal(f, 8),
                msl_alt: field_decimal(f, 9),
                geoidal_sep: field_decimal(f, 11),
                age_diff_corr: field_decimal(f, 13),
            },
        ),
        _ => None,
    }
}

/// Decodes the fields of a GGA sentence (header first, as `parse_sentence` gives them).
/// `None` when the time or the satellite count is missing or malformed.
pub fn parse_gga(args: Vec<&str>) -> (r: Option<GgaData>)
    requires
        is_gga_header(field(views(args@), 0)),
    ensures
        r == gga_of(views(args@)),
{
    let utc = decimal_field(&args, 1);
    let used = i32_field(&args, 7);
    match (utc, used) {
        (Some(utc), Some(satellites_used)) => {
            let sat_fix = if field_equals(&args, 6, 0x31) {
                SatFix::GpsFix
            } else if field_equals(&args, 6, 0x32) {
                SatFix::DgpsFix
            } else {
                SatFix::NoFix
            };
            Some(
                GgaData {
                    utc,
                    lat: degrees_field(&args, 2),
                    long: degrees_field(&args, 4),
                    sat_fix,
                    satellites_used,
                    hdop: decimal_field(&args, 8),
                    msl_alt: decimal_field(&args, 9),
                    geoidal_sep: decimal_field(&args, 11),
                    age_diff_corr: decimal_field(&args, 13),
                },
            )
        },
        _ => None,
    }
}

} // verus!
