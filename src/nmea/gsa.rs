//! GSA: fix mode, the satellites used for the fix, and the dilutions of precision.
use vstd::prelude::*;

use crate::fields::Decimal;
use crate::nmea::{decimal_field, field, field_decimal, field_equals, field_i32, field_is, i32_field, views};

verus! {

/// Whether the receiver is forced to 2D or 3D (`M`) or switches by itself (`A`).
#[derive(Clone, Copy, Debug, PartialEq, Eq)]
pub enum Mode {
    Manual,
    Automatic,
}

/// Dimension of the fix.
#[derive(Clone, Copy, Debug, PartialEq, Eq)]
pub enum DimentionFix {
    NotAvaliable,
    Dimention2d,
    Dimention3d,
}

/// One decoded GSA sentence.
#[derive(Clone, Copy, Debug, PartialEq, Eq)]
pub struct GsaData {
    pub mode: Mode,
    pub dimention_fix: DimentionFix,
    pub sat1: Option<i32>,
    pub sat2: Option<i32>,
    pub sat3: Option<i32>,
    pub sat4: Option<i32>,
    pub sat5: Option<i32>,
    pub sat6: Option<i32>,
    pub sat7: Option<i32>,
    pub sat8: Option<i32>,
    pub sat9: Option<i32>,
    pub sat10: Option<i32>,
    pub sat11: Option<i32>,
    pub sat12: Option<i32>,
    pub pdop: Option<Decimal>,
    pub hdop: Option<Decimal>,
    pub vdop: Option<Decimal>,
}

/// A GSA header: `GSA` right after the `$` and the two-letter talker.
pub open spec fn is_gsa_header(h: Seq<u8>) -> bool {
    h.len() >= 6 && h[3] == 0x47 && h[4] == 0x53 && h[5] == 0x41
}

/// The GSA record that fields `f` hold: `A` is automatic mode and anything else manual; `2`
/// and `3` are 2D and 3D fixes and anything else no fix; fields 3 to 14 are the satellites
/// used, then PDOP, HDOP and VDOP. Missing or malformed values are absent.
pub open spec fn gsa_of(f: Seq<Seq<u8>>) -> GsaData {
    GsaData {
        mode: if field_is(f, 1, 0x41) {
            Mode::Automatic
        } else {
            Mode::Manual
        },
        dimention_fix: if field_is(f, 2, 0x32) {
            DimentionFix::Dimention2d
        } else if field_is(f, 2, 0x33) {
            DimentionFix::Dimention3d
        } else {
            DimentionFix::NotAvaliable
        },
        sat1: field_i32(f, 3),
        sat2: field_i32(f, 4),
        sat3: field_i32(f, 5),
        sat4: field_i32(f, 6),
        sat5: field_i32(f, 7),
        sat6: field_i32(f, 8),
        sat7: field_i32(f, 9),
        sat8: field_i32(f, 10),
        sat9: field_i32(f, 11),
        sat10: field_i32(f, 12),
        sat11: field_i32(f, 13),
        sat12: field_i32(f, 14),
        pdop: field_decimal(f, 15),
        hdop: field_decimal(f, 16),
        vdop: field_decimal(f, 17),
    }
}

/// Decodes the fields of a GSA sentence (header first).
pub fn parse_gsa(args: Vec<&str>) -> (r: GsaData)
    requires
        is_gsa_header(field(views(args@), 0)),
    ensures
        r == gsa_of(views(args@)),
{
    let mode = if field_equals(&args, 1, 0x41) {
        Mode::Automatic
    } else {
        Mode::Manual
    };
    let dimention_fix = if field_equals(&args, 2, 0x32) {
        DimentionFix::Dimention2d
    } else if field_equals(&args, 2, 0x33) {
        DimentionFix::Dimention3d
    } else {
        DimentionFix::NotAvaliable
    };
    GsaData {
        mode,
        dimention_fix,
        sat1: i32_field(&args, 3),
        sat2: i32_field(&args, 4),
        sat3: i32_field(&args, 5),
        sat4: i32_field(&args, 6),
        sat5: i32_field(&args, 7),
        sat6: i32_field(&args, 8),
        sat7: i32_field(&args, 9),
        sat8: i32_field(&args, 10),
        sat9: i32_field(&args, 11),
        sat10: i32_field(&args, 12),
        sat11: i32_field(&args, 13),
        sat12: i32_field(&args, 14),
        pdop: decimal_field(&args, 15),
        hdop: decimal_field(&args, 16),
        vdop: decimal_field(&args, 17),
    }
}

} // verus!
