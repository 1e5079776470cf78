use adafruit_gps::gga::{parse_gga, GgaData, SatFix};
use adafruit_gps::gll::parse_gll;
use adafruit_gps::gsa::{self, parse_gsa};
use adafruit_gps::gsv::parse_gsv;
use adafruit_gps::rmc::parse_rmc;
use adafruit_gps::vtg::{self, parse_vtg};
use adafruit_gps::{Date, Decimal, _format_hhmmss, _parse_degrees};

fn f32_of(d: Decimal) -> f32 {
    (d.mantissa as f64 / 10f64.powi(d.scale as i32)) as f32
}

fn f64_of(d: Decimal) -> f64 {
    d.mantissa as f64 / 10f64.powi(d.scale as i32)
}

fn opt_f32(d: Option<Decimal>) -> Option<f32> {
    d.map(f32_of)
}

#[test]
fn gga_normal() {
    let gga: GgaData = parse_gga(vec![
        "$GPGGA",
        "19294.00",
        "29343.543",
        "N",
        "29343.543",
        "E",
        "1",
        "10",
        "1.01",
        "47.7",
        "M",
        "10.0",
        "M",
        "0.1",
    ])
    .unwrap();
    assert_eq!(f64_of(gga.utc), 19294.00);
    // `29343.543` is 293 degrees and 43.543 minutes.
    assert_eq!(gga.lat, Some(Decimal { mantissa: 293_725_717, scale: 6 }));
    assert_eq!(gga.long, Some(Decimal { mantissa: 293_725_717, scale: 6 }));
    assert_eq!(opt_f32(gga.lat), Some(293.725717));
    assert_eq!(gga.sat_fix, SatFix::GpsFix);
    assert_eq!(gga.satellites_used, 10);
    assert_eq!(opt_f32(gga.hdop), Some(1.01));
    assert_eq!(opt_f32(gga.msl_alt), Some(47.7));
    assert_eq!(opt_f32(gga.geoidal_sep), Some(10.0));
    assert_eq!(opt_f32(gga.age_diff_corr), Some(0.1));
}

#[test]
fn gsa_normal() {
    let gsa = parse_gsa(vec![
        "$GPGSA", "M", "2", "01", "02", "03", "04", "05", "06", "07", "08", "09", "10", "11", "12",
        "1.0", "2.04", "32.04",
    ]);
    assert_eq!(gsa.mode, gsa::Mode::Manual);
    assert_eq!(gsa.dimention_fix, gsa::DimentionFix::Dimention2d);
    let sats = [
        gsa.sat1, gsa.sat2, gsa.sat3, gsa.sat4, gsa.sat5, gsa.sat6, gsa.sat7, gsa.sat8, gsa.sat9,
        gsa.sat10, gsa.sat11, gsa.sat12,
    ];
    for (i, s) in sats.iter().enumerate() {
        assert_eq!(*s, Some(i as i32 + 1));
    }
    assert_eq!(opt_f32(gsa.pdop), Some(1.0));
    assert_eq!(opt_f32(gsa.hdop), Some(2.04));
    assert_eq!(opt_f32(gsa.vdop), Some(32.04));
}

#[test]
fn gga_fix_satellites_and_hdop() {
    let gga = parse_gga(vec![
        "$GPGGA", "123519", "4807.038", "N", "01131.000", "E", "1", "8", "1.38", "545.4", "M",
        "46.9", "M", "",
    ])
    .unwrap();
    assert_eq!(gga.sat_fix, SatFix::GpsFix);
    assert_eq!(gga.satellites_used, 8);
    assert_eq!(gga.hdop, Some(Decimal { mantissa: 138, scale: 2 }));
    assert_eq!(gga.age_diff_corr, None);
}

#[test]
fn gga_without_time_or_count_is_rejected() {
    let mut fields = vec![
        "$GNGGA", "", "5132.7378", "N", "00005.9192", "W", "1", "7", "1.93", "34.4", "M", "47.0",
        "M", "",
    ];
    assert_eq!(parse_gga(fields.clone()), None);
    fields[1] = "165419.000";
    fields[7] = "";
    assert_eq!(parse_gga(fields), None);
}

#[test]
fn gga_short_vector_leaves_optional_fields_absent() {
    let gga = parse_gga(vec!["$GNGGA", "165419.000", "", "", "", "", "2", "7"]).unwrap();
    assert_eq!(gga.sat_fix, SatFix::DgpsFix);
    assert_eq!(gga.lat, None);
    assert_eq!(gga.hdop, None);
    assert_eq!(gga.age_diff_corr, None);
}

#[test]
fn degrees_round_to_six_places() {
    assert_eq!(
        _parse_degrees("3218.0489", "N"),
        Some(Decimal { mantissa: 32_300_815, scale: 6 })
    );
    assert_eq!(
        _parse_degrees("6447.5086", "N"),
        Some(Decimal { mantissa: 64_791_810, scale: 6 })
    );
    let v = f32_of(_parse_degrees("3218.0489", "N").unwrap());
    assert!((v - 32.300815).abs() < 1e-5);
}

#[test]
fn degrees_take_every_digit_before_the_minutes() {
    assert_eq!(
        _parse_degrees("12345.6789", "E"),
        Some(Decimal { mantissa: 123_761_315, scale: 6 })
    );
    assert_eq!(
        _parse_degrees("01131.000", "E"),
        Some(Decimal { mantissa: 11_516_667, scale: 6 })
    );
    assert_eq!(_parse_degrees("05.5", "N"), Some(Decimal { mantissa: 91_667, scale: 6 }));
    assert_eq!(_parse_degrees("3218", "N"), Some(Decimal { mantissa: 32_300_000, scale: 6 }));
    assert_eq!(_parse_degrees("5.5", "N"), None);
    assert_eq!(_parse_degrees("123456.7", "E"), None);
}

#[test]
fn degrees_south_and_west_are_negative() {
    assert_eq!(
        _parse_degrees("5132.7378", "S"),
        Some(Decimal { mantissa: -51_545_630, scale: 6 })
    );
    assert_eq!(
        _parse_degrees("00005.9192", "W"),
        Some(Decimal { mantissa: -98_653, scale: 6 })
    );
    assert_eq!(
        _parse_degrees("00005.9192", "E"),
        Some(Decimal { mantissa: 98_653, scale: 6 })
    );
}

#[test]
fn degrees_absent_when_empty_or_malformed() {
    assert_eq!(_parse_degrees("", "N"), None);
    assert_eq!(_parse_degrees("", "X"), None);
    assert_eq!(_parse_degrees("3218.0489", "X"), None);
    assert_eq!(_parse_degrees("3218.04a9", "N"), None);
    assert_eq!(_parse_degrees("3", "N"), None);
}

#[test]
fn clock_formatting() {
    assert_eq!(_format_hhmmss("205530"), "20:55:30");
    assert_eq!(_format_hhmmss("205530.123"), "20:55:30");
    assert_eq!(_format_hhmmss("20553"), "");
    assert_eq!(_format_hhmmss(""), "");
}

#[test]
fn gsv_groups_of_four() {
    let sats = parse_gsv(vec![
        "$GPGSV", "4", "4", "14", "32", "01", "215", "", "41", "", "", "",
    ]);
    assert_eq!(sats.len(), 2);
    assert_eq!(sats[0].id, Some(32));
    assert_eq!(sats[0].elevation, Some(Decimal { mantissa: 1, scale: 0 }));
    assert_eq!(sats[0].azimuth, Some(Decimal { mantissa: 215, scale: 0 }));
    assert_eq!(sats[0].snr, None);
    assert_eq!(sats[1].id, Some(41));
    assert_eq!(sats[1].elevation, None);
}

#[test]
fn gsv_incomplete_group_is_dropped() {
    let sats = parse_gsv(vec!["$GPGSV", "1", "1", "01", "07", "10"]);
    assert!(sats.is_empty());
}

#[test]
fn rmc_fields() {
    let rmc = parse_rmc(vec![
        "$GPRMC", "123519", "A", "4807.038", "N", "01131.000", "E", "022.4", "084.4", "230394",
        "003.1", "W",
    ]);
    assert_eq!(rmc.utc, Some(Decimal { mantissa: 123519, scale: 0 }));
    assert!(rmc.fix_status);
    assert_eq!(rmc.latitude, Some(Decimal { mantissa: 48_117_300, scale: 6 }));
    assert_eq!(rmc.longitude, Some(Decimal { mantissa: 11_516_667, scale: 6 }));
    assert_eq!(rmc.course, Some(Decimal { mantissa: 844, scale: 1 }));
    assert_eq!(rmc.speed, Some(Decimal { mantissa: 224, scale: 1 }));
    assert_eq!(rmc.date, Some(Date { year: 2094, month: 3, day: 23 }));
    assert_eq!(rmc.mag_var, Some(Decimal { mantissa: -31, scale: 1 }));
}

#[test]
fn rmc_missing_time_is_absent() {
    let rmc = parse_rmc(vec!["$GPRMC", "", "V"]);
    assert_eq!(rmc.utc, None);
    assert!(!rmc.fix_status);
    assert_eq!(rmc.date, None);
    assert_eq!(rmc.mag_var, None);
}

#[test]
fn vtg_fields() {
    let v = parse_vtg(vec![
        "$GPVTG", "054.7", "T", "034.4", "M", "005.5", "N", "010.2", "K", "D",
    ]);
    assert_eq!(v.true_course, Some(Decimal { mantissa: 547, scale: 1 }));
    assert_eq!(v.speed_kph, Some(Decimal { mantissa: 102, scale: 1 }));
    assert_eq!(v.mode, vtg::Mode::Differential);
    assert_eq!(parse_vtg(vec!["$GPVTG"]).mode, vtg::Mode::Unknown);
}

#[test]
fn gll_fields() {
    let g = parse_gll(vec!["$GPGLL", "4916.45", "N", "12311.12", "W", "225444", "A"]);
    assert_eq!(g.latitude, Some(Decimal { mantissa: 49_274_167, scale: 6 }));
    assert_eq!(g.longitude, Some(Decimal { mantissa: -123_185_333, scale: 6 }));
    assert_eq!(g.utc, Some(Decimal { mantissa: 225444, scale: 0 }));
    assert!(g.is_valid);
    let short = parse_gll(vec!["$GPGLL", "", "", "", ""]);
    assert_eq!(short.utc, None);
    assert!(!short.is_valid);
}

#[test]
fn numbers_with_signs() {
    let gsa = parse_gsa(vec!["$GPGSA", "A", "3", "-5", "+7", "x"]);
    assert_eq!(gsa.mode, gsa::Mode::Automatic);
    assert_eq!(gsa.dimention_fix, gsa::DimentionFix::Dimention3d);
    assert_eq!(gsa.sat1, Some(-5));
    assert_eq!(gsa.sat2, Some(7));
    assert_eq!(gsa.sat3, None);
    assert_eq!(gsa.pdop, None);
}

#[test]
fn numbers_that_do_not_fit_are_absent() {
    let gga = parse_gga(vec![
        "$GPGGA", "1", "", "", "", "", "1", "99999999999", "123456789012345678901",
    ]);
    assert_eq!(gga, None);
    let gga = parse_gga(vec!["$GPGGA", "1", "", "", "", "", "1", "3", "123456789012345678901"])
        .unwrap();
    assert_eq!(gga.hdop, None);
    let gga = parse_gga(vec!["$GPGGA", "1", "", "", "", "", "1", "3", "9223372036854775807"])
        .unwrap();
    assert_eq!(gga.hdop, Some(Decimal { mantissa: i64::MAX, scale: 0 }));
}

#[test]
fn decimal_forms() {
    let hdop = |t: &str| parse_gga(vec!["$GPGGA", "1", "", "", "", "", "1", "3", t]).unwrap().hdop;
    assert_eq!(hdop(".5"), Some(Decimal { mantissa: 5, scale: 1 }));
    assert_eq!(hdop("5."), Some(Decimal { mantissa: 5, scale: 0 }));
    assert_eq!(hdop("-0.25"), Some(Decimal { mantissa: -25, scale: 2 }));
    assert_eq!(hdop("."), None);
    assert_eq!(hdop("1.2.3"), None);
    assert_eq!(hdop("1e3"), None);
    assert_eq!(hdop(""), None);
}
