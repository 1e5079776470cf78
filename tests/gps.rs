use adafruit_gps::baud::{baud_candidate, BaudProbe, ProbeStep};
use adafruit_gps::gga::SatFix;
use adafruit_gps::gps::line_to_connection;
use adafruit_gps::{
    add_checksum, Category, Snapshot, continue_update, start_update, GpsSentence, LineFramer, PortConnection,
    UpdateStep,
};

fn valid(line: &str) -> PortConnection {
    PortConnection::Valid(line.to_string())
}

fn framed(body: &str) -> PortConnection {
    valid(&add_checksum(body.to_string()))
}

fn run_update(lines: Vec<PortConnection>) -> GpsSentence {
    let mut it = lines.into_iter();
    let mut step = start_update(&it.next().unwrap());
    loop {
        match step {
            UpdateStep::Done(s) => return s,
            UpdateStep::Collecting(c) => step = continue_update(c, &it.next().unwrap()),
        }
    }
}

#[test]
fn framer_assembles_a_line_and_drops_leading_noise() {
    let mut f = LineFramer::new();
    let mut out = None;
    for b in b"xx\n$PMTK001,220,3*30\r\n" {
        if let Some(c) = f.step(0, Some(*b)) {
            out = Some(c);
            break;
        }
    }
    assert_eq!(out, Some(valid("$PMTK001,220,3*30\r\n")));
}

#[test]
fn framer_reports_invalid_bytes() {
    let mut f = LineFramer::new();
    let mut out = None;
    for b in [b'$', 0xff, 0xfe, b'\n'] {
        if let Some(c) = f.step(10, Some(b)) {
            out = Some(c);
        }
    }
    assert_eq!(out, Some(PortConnection::InvalidBytes(vec![b'$', 0xff, 0xfe, b'\n'])));
}

#[test]
fn framer_gives_up_after_silence() {
    // A transport that keeps sending bytes but never completes a line.
    let mut f = LineFramer::new();
    let mut elapsed = 0u64;
    let mut first = true;
    let result = loop {
        let b = if first { b'$' } else { b'A' };
        first = false;
        if let Some(c) = f.step(elapsed, Some(b)) {
            break c;
        }
        elapsed += 20;
        if elapsed > 10_000 {
            panic!("the framer kept waiting");
        }
    };
    assert_eq!(result, PortConnection::NoConnection);
    // A transport that sends nothing at all.
    let mut f = LineFramer::new();
    let mut elapsed = 0u64;
    let result = loop {
        if let Some(c) = f.step(elapsed, None) {
            break c;
        }
        elapsed += 100;
    };
    assert_eq!(result, PortConnection::NoConnection);
    assert!(elapsed > 1000);
}

#[test]
fn framer_cuts_long_lines() {
    let mut f = LineFramer::new();
    let mut n = 0;
    let line = loop {
        n += 1;
        if let Some(c) = f.step(0, Some(if n == 1 { b'$' } else { b'A' })) {
            break c;
        }
    };
    assert_eq!(n, 256);
    match line {
        PortConnection::Valid(s) => assert_eq!(s.len(), 256),
        other => panic!("unexpected {:?}", other),
    }
}

#[test]
fn line_to_connection_decodes_text() {
    assert_eq!(line_to_connection(b"$GPGLL\n".to_vec()), valid("$GPGLL\n"));
    assert_eq!(
        line_to_connection(vec![b'$', 0xc3]),
        PortConnection::InvalidBytes(vec![b'$', 0xc3])
    );
}

#[test]
fn update_routes_by_kind() {
    match run_update(vec![valid(
        "$GNGGA,165419.000,5132.7378,N,00005.9192,W,1,7,1.93,34.4,M,47.0,M,,*6A",
    )]) {
        GpsSentence::GGA(d) => {
            assert_eq!(d.sat_fix, SatFix::GpsFix);
            assert_eq!(d.satellites_used, 7);
        }
        other => panic!("unexpected {:?}", other),
    }
    assert!(matches!(run_update(vec![framed("GPVTG,054.7,T,034.4,M,005.5,N,010.2,K,A")]), GpsSentence::VTG(_)));
    assert!(matches!(run_update(vec![framed("GNGSA,A,3,29,02,,,,,,,,,,,1.42,1.17,0.80")]), GpsSentence::GSA(_)));
    assert!(matches!(run_update(vec![framed("GPGLL,4916.45,N,12311.12,W,225444,A")]), GpsSentence::GLL(_)));
    assert!(matches!(run_update(vec![framed("GPRMC,123519,A,4807.038,N,01131.000,E,022.4,084.4,230394,003.1,W")]), GpsSentence::RMC(_)));
}

#[test]
fn update_reports_failures() {
    assert_eq!(run_update(vec![PortConnection::NoConnection]), GpsSentence::NoConnection);
    assert_eq!(
        run_update(vec![PortConnection::InvalidBytes(vec![0xff])]),
        GpsSentence::InvalidBytes
    );
    assert_eq!(
        run_update(vec![valid("$GNGGA,165419.000,5132.7378,N,00005.9192,W,1,7,1.93,34.4,M,47.0,M,,*6B")]),
        GpsSentence::InvalidSentence
    );
    assert_eq!(run_update(vec![framed("GPXYZ,1,2,3")]), GpsSentence::InvalidSentence);
    assert_eq!(run_update(vec![framed("GPGGA,,,,,,0,,,,,,,")]), GpsSentence::InvalidSentence);
}

#[test]
fn gsv_fragments_combine_in_order() {
    let lines = vec![
        valid("$GPGSV,3,1,10,01,10,100,20,02,20,200,30,03,30,300,40,04,40,040,10*7A"),
        valid("$GPGSV,3,2,10,05,50,050,25,06,60,060,35,07,70,070,45,08,80,080,15*71"),
        valid("$GPGSV,3,3,10,09,15,150,22,10,25,250,33*70"),
    ];
    match run_update(lines) {
        GpsSentence::GSV(sats) => {
            let ids: Vec<Option<i32>> = sats.iter().map(|s| s.id).collect();
            assert_eq!(ids, (1..=10).map(Some).collect::<Vec<_>>());
        }
        other => panic!("unexpected {:?}", other),
    }
}

#[test]
fn gsv_continuation_skips_other_lines() {
    let lines = vec![
        valid("$GPGSV,2,1,05,01,10,100,20,02,20,200,30,03,30,300,40,04,40,040,10*7F"),
        PortConnection::NoConnection,
    ];
    match run_update(lines) {
        GpsSentence::GSV(sats) => assert_eq!(sats.len(), 4),
        other => panic!("unexpected {:?}", other),
    }
}

#[test]
fn single_gsv_needs_no_more_lines() {
    match run_update(vec![valid("$GPGSV,1,1,00*79")]) {
        GpsSentence::GSV(sats) => assert!(sats.is_empty()),
        other => panic!("unexpected {:?}", other),
    }
}

#[test]
fn baud_probe_walks_the_rates() {
    let mut p = BaudProbe::new();
    assert_eq!(p.rate(), 4800);
    for _ in 0..4 {
        assert_eq!(p.observe(&GpsSentence::NoConnection), ProbeStep::ReadAgain);
    }
    assert_eq!(p.observe(&GpsSentence::InvalidBytes), ProbeStep::Reopen(9600));
    assert_eq!(p.rate(), 9600);
    assert_eq!(p.observe(&GpsSentence::GSV(vec![])), ProbeStep::Found(9600));
}

#[test]
fn baud_probe_fails_after_every_rate() {
    let mut p = BaudProbe::new();
    let mut last = ProbeStep::ReadAgain;
    for _ in 0..35 {
        last = p.observe(&GpsSentence::InvalidSentence);
        if last == ProbeStep::Fail {
            break;
        }
    }
    assert_eq!(last, ProbeStep::Fail);
    assert_eq!(baud_candidate(6), 115200);
}

#[test]
fn snapshot_fills_until_every_category_arrives() {
    let mut snap = Snapshot::new(vec![Category::Position, Category::Satellites]);
    assert!(!snap.is_complete());
    snap.absorb(run_update(vec![framed("GPVTG,054.7,T,034.4,M,005.5,N,010.2,K,A")]));
    assert!(!snap.is_complete());
    assert!(snap.course.is_some());
    snap.absorb(GpsSentence::NoConnection);
    snap.absorb(run_update(vec![valid(
        "$GNGGA,165419.000,5132.7378,N,00005.9192,W,1,7,1.93,34.4,M,47.0,M,,*6A",
    )]));
    assert_eq!(snap.pending, vec![Category::Satellites]);
    snap.absorb(run_update(vec![valid("$GPGSV,1,1,00*79")]));
    assert!(snap.is_complete());
    assert_eq!(snap.satellites, Some(vec![]));
    assert_eq!(snap.position.unwrap().satellites_used, 7);
}
