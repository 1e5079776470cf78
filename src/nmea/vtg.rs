//! VTG: course over ground and ground speed.
use vstd::prelude::*;

use crate::fields::Decimal;
use crate::nmea::{decimal_field, field_decimal, field_equals, field_is, views};

verus! {

/// How the fix was obtained.
#[derive(Clone, Copy, Debug, PartialEq, Eq)]
pub enum Mode {
    Autonomous,
    Differential,
    Estimated,
    Unknown,
}

/// One decoded VTG sentence.
#[derive(Clone, Copy, Debug, PartialEq, Eq)]
pub struct VtgData {
    pub true_course: Option<Decimal>,
    pub magnetic_course: Option<Decimal>,
    pub speed_knots: Option<Decimal>,
    pub speed_kph: Option<Decimal>,
    pub mode: Mode,
}

/// The VTG record that fields `f` hold: courses in fields 1 and 3, speeds in fields 5 (knots)
/// and 7 (km/h), mode in field 9 (`A`, `D`, `E`, anything else unknown).
pub open spec fn vtg_of(f: Seq<Seq<u8>>) -> VtgData {
    VtgData {
        true_course: field_decimal(f, 1),
        magnetic_course: field_decimal(f, 3),
        speed_knots: field_decimal(f, 5),
        speed_kph: field_decimal(f, 7),
        mode: if field_is(f, 9, 0x41) {
            Mode::Autonomous
        } else if field_is(f, 9, 0x44) {
            Mode::Differential
        } else if field_is(f, 9, 0x45) {
            Mode::Estimated
        } else {
            Mode::Unknown
        },
    }
}

/// Decodes the fields of a VTG sentence (header first).
pub fn parse_vtg(args: Vec<&str>) -> (r: VtgData)
    ensures
        r == vtg_of(views(args@)),
{
    let mode = if field_equals(&args, 9, 0x41) {
        Mode::Autonomous
    } else if field_equals(&args, 9, 0x44) {
        Mode::Differential
    } else if field_equals(&args, 9, 0x45) {
        Mode::Estimated
    } else {
        Mode::Unknown
    };
    VtgData {
        true_course: decimal_field(&args, 1),
        magnetic_course: decimal_field(&args, 3),
        speed_knots: decimal_field(&args, 5),
        speed_kph: decimal_field(&args, 7),
        mode,
    }
}

} // verus!
