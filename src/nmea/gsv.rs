//! GSV: satellites in view, at most four per sentence.
use vstd::prelude::*;

use crate::fields::Decimal;
use crate::nmea::{decimal_field, field, field_decimal, field_i32, i32_field, views};

verus! {

/// One satellite in view.
#[derive(Clone, Copy, Debug, PartialEq, Eq)]
pub struct Satellites {
    pub id: Option<i32>,
    pub elevation: Option<Decimal>,
    pub azimuth: Option<Decimal>,
    pub snr: Option<Decimal>,
}

/// A GSV header: `GSV` right after the `$` and the two-letter talker.
pub open spec fn is_gsv_header(h: Seq<u8>) -> bool {
    h.len() >= 6 && h[3] == 0x47 && h[4] == 0x53 && h[5] == 0x56
}

/// The satellite whose four fields start at field `i`.
pub open spec fn satellite_at(f: Seq<Seq<u8>>, i: int) -> Satellites {
    Satellites {
        id: field_i32(f, i),
        elevation: field_decimal(f, i + 1),
        azimuth: field_decimal(f, i + 2),
        snr: field_decimal(f, i + 3),
    }
}

/// How many complete four-field satellite groups follow the four leading fields (header,
/// message count, message index, satellites in view); at most four.
pub open spec fn satellite_count(f: Seq<Seq<u8>>) -> nat {
    if f.len() >= 20 {
        4
    } else if f.len() >= 16 {
        3
    } else if f.len() >= 12 {
        2
    } else if f.len() >= 8 {
        1
    } else {
        0
    }
}

/// The satellites that one GSV sentence reports, in order.
pub open spec fn gsv_of(f: Seq<Seq<u8>>) -> Seq<Satellites> {
    Seq::new(satellite_count(f), |g: int| satellite_at(f, 4 + 4 * g))
}

fn parse_sat(args: &Vec<&str>, i: usize) -> (r: Satellites)
    requires
        i + 3 < usize::MAX,
    ensures
        r == satellite_at(views(args@), i as int),
{
    Satellites {
        id: i32_field(args, i),
        elevation: decimal_field(args, i + 1),
        azimuth: decimal_field(args, i + 2),
        snr: decimal_field(args, i + 3),
    }
}

/// Decodes the satellites of one GSV sentence (header first). A group of four fields is taken
/// only when all four are there.
pub fn parse_gsv(args: Vec<&str>) -> (r: Vec<Satellites>)
    requires
        is_gsv_header(field(views(args@), 0)),
    ensures
        r@ == gsv_of(views(args@)),
{
    let mut values: Vec<Satellites> = Vec::new();
    let mut g: usize = 0;
    while g < 4 && 8 + 4 * g <= args.len()
        invariant
            g <= 4,
            g <= satellite_count(views(args@)),
            values@ =~= gsv_of(views(args@)).subrange(0, g as int),
        decreases 4 - g,
    {
        values.push(parse_sat(&args, 4 + 4 * g));
        g = g + 1;
    }
    assert(g == satellite_count(views(args@)));
    assert(values@ =~= gsv_of(views(args@)));
    values
}

} // verus!
