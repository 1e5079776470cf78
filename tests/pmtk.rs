use adafruit_gps::pmtk::{
    ack_scan_line, ack_search, ack_search_step, datum_of, dgps_mode_of, easy_enabled_of,
    epo_data_of, nav_threshold_of, nmea_output_of, release_of, reply_search_step, sbas_mode_of,
    sbas_of, startup_search_step, Scan, Search, ACK_DEPTH,
};
use adafruit_gps::{
    add_checksum, Decimal, DgpsMode, EpoData, NmeaOutput, Pmtk001Ack, PmtkCommand, PortConnection,
    ReplyKind, Sbas, SbasMode,
};

fn valid(line: &str) -> PortConnection {
    PortConnection::Valid(line.to_string())
}

fn await_ack(depth: i32, lines: Vec<PortConnection>) -> Pmtk001Ack {
    let mut it = lines.into_iter();
    let mut s = ack_search(depth);
    loop {
        match s {
            Search::Found(a) => return a,
            Search::Reading(n) => s = ack_search_step(n, &it.next().unwrap()),
        }
    }
}

fn position() -> PortConnection {
    valid("$GNGGA,165419.000,5132.7378,N,00005.9192,W,1,7,1.93,34.4,M,47.0,M,,*6A\r\n")
}

#[test]
fn ack_success_after_update_rate_command() {
    let cmd = PmtkCommand::SetNmeaUpdateRate(1000).body().unwrap();
    assert_eq!(add_checksum(cmd), "$PMTK220,1000*1F\r\n");
    let reply = valid("$PMTK001,PMTK220,3*32\r\n");
    assert_eq!(await_ack(ACK_DEPTH, vec![position(), position(), reply]), Pmtk001Ack::Success);
}

#[test]
fn ack_line_with_wrong_checksum_is_skipped() {
    assert_eq!(ack_scan_line(&valid("$PMTK001,PMTK220,3*2F")), Scan::Skip);
    assert_eq!(await_ack(1, vec![valid("$PMTK001,PMTK220,3*2F")]), Pmtk001Ack::NoPacket);
}

#[test]
fn ack_flags() {
    assert_eq!(ack_scan_line(&valid("$PMTK001,220,0*33")), Scan::Stop(Pmtk001Ack::Invalid));
    assert_eq!(ack_scan_line(&valid("$PMTK001,220,1*32")), Scan::Stop(Pmtk001Ack::Unsupported));
    assert_eq!(ack_scan_line(&valid("$PMTK001,220,2*31")), Scan::Stop(Pmtk001Ack::Failed));
    assert_eq!(ack_scan_line(&valid("$PMTK001,220,3*30")), Scan::Stop(Pmtk001Ack::Success));
    assert_eq!(ack_scan_line(&valid("$PMTK001,220,7*34")), Scan::Stop(Pmtk001Ack::NoPacket));
    assert_eq!(ack_scan_line(&position()), Scan::Skip);
    assert_eq!(ack_scan_line(&PortConnection::NoConnection), Scan::Stop(Pmtk001Ack::NoPacket));
}

#[test]
fn ack_search_depth_runs_out() {
    let lines = (0..10).map(|_| position()).collect();
    assert_eq!(await_ack(10, lines), Pmtk001Ack::NoPacket);
    assert_eq!(await_ack(0, vec![]), Pmtk001Ack::NoPacket);
    let mut late: Vec<PortConnection> = (0..10).map(|_| position()).collect();
    late.push(valid("$PMTK001,220,3*30"));
    assert_eq!(await_ack(10, late), Pmtk001Ack::NoPacket);
}

#[test]
fn ack_search_stops_on_silence() {
    assert_eq!(
        await_ack(10, vec![position(), PortConnection::InvalidBytes(vec![0xff])]),
        Pmtk001Ack::NoPacket
    );
}

#[test]
fn startup_message_is_found() {
    assert_eq!(startup_search_step(10, &position()), Search::Reading(9));
    assert_eq!(startup_search_step(10, &valid("$PMTK011,MTKGPS*08\r\n")), Search::Found(true));
    assert_eq!(startup_search_step(1, &position()), Search::Found(false));
    assert_eq!(startup_search_step(5, &PortConnection::NoConnection), Search::Found(false));
}

#[test]
fn query_reply_is_returned_without_checksum() {
    assert_eq!(reply_search_step(10, &position()), Search::Reading(9));
    assert_eq!(
        reply_search_step(10, &valid("$PMTK501,2*28\r\n")),
        Search::Found(Some("$PMTK501,2".to_string()))
    );
    assert_eq!(reply_search_step(3, &PortConnection::NoConnection), Search::Found(None));
    assert_eq!(reply_search_step(1, &position()), Search::Found(None));
}

#[test]
fn query_replies_decode() {
    assert_eq!(dgps_mode_of(Some("$PMTK501,2")), DgpsMode::WAAS);
    assert_eq!(dgps_mode_of(Some("$PMTK501,0")), DgpsMode::NoDgps);
    assert_eq!(dgps_mode_of(Some("$PMTK501,12")), DgpsMode::Unknown);
    assert_eq!(dgps_mode_of(None), DgpsMode::Unknown);
    assert_eq!(sbas_of(Some("$PMTK513,1")), Sbas::Enabled);
    assert_eq!(sbas_of(Some("$PMTK513,0")), Sbas::Disabled);
    assert_eq!(sbas_mode_of(Some("$PMTK519,1")), SbasMode::Integrity);
    assert_eq!(sbas_mode_of(Some("$PMTK519,0")), SbasMode::Testing);
    assert_eq!(sbas_mode_of(None), SbasMode::Unknown);
    assert_eq!(
        nmea_output_of(Some("$PMTK514,0,1,1,1,1,5,0,0,0,0,0,0,0,0,0,0,0,0,0")),
        NmeaOutput { gll: 0, rmc: 1, vtg: 1, gga: 1, gsa: 1, gsv: 5, pmtkchn_interval: 0 }
    );
    assert_eq!(
        nmea_output_of(None),
        NmeaOutput { gll: -1, rmc: -1, vtg: -1, gga: -1, gsa: -1, gsv: -1, pmtkchn_interval: -1 }
    );
    assert_eq!(
        release_of(Some("$PMTK705,AXN_5.1.7_3333_19020118,0027,PA1010D,1.0")),
        "AXN_5.1.7_3333_19020118,0027,PA1010D,1.0".to_string()
    );
    assert_eq!(release_of(None), "");
    assert_eq!(
        epo_data_of(Some("$PMTK707,0,0,0,0,0,0,0,0,0")),
        EpoData {
            set: 0,
            fwn_ftow_week_number: 0,
            fwn_ftow_tow: 0,
            lwn_ltow_week_number: 0,
            lwn_ltow_tow: 0,
            fcwn_fctow_week_number: 0,
            fcwn_fctow_tow: 0,
            lcwn_lctow_week_number: 0,
            lcwn_lctow_tow: 0,
        }
    );
    assert_eq!(epo_data_of(None).set, -1);
    assert_eq!(nav_threshold_of(Some("$PMTK527,0.40")), Some(Decimal { mantissa: 40, scale: 2 }));
    assert_eq!(easy_enabled_of(Some("$PMTK869,2,1,3")), true);
    assert_eq!(easy_enabled_of(Some("$PMTK869,2,0,3")), false);
    assert_eq!(datum_of(Some("$PMTK530,2")), 2);
    assert_eq!(datum_of(None), 0);
}

#[test]
fn command_bodies() {
    let body = |c: PmtkCommand| c.body().unwrap();
    assert_eq!(body(PmtkCommand::HotStart), "PMTK101");
    assert_eq!(body(PmtkCommand::SetDgpsMode(DgpsMode::WAAS)), "PMTK301,2");
    assert_eq!(PmtkCommand::SetDgpsMode(DgpsMode::Unknown).body(), None);
    assert_eq!(
        body(PmtkCommand::SetNmeaOutput(NmeaOutput {
            gll: 0,
            rmc: 1,
            vtg: 1,
            gga: 1,
            gsa: 1,
            gsv: 5,
            pmtkchn_interval: -1
        })),
        "PMTK314,0,1,1,1,1,5,0,0,0,0,0,0,0,0,0,0,0,0,-1"
    );
    assert_eq!(body(PmtkCommand::SetNavSpeedThreshold(4)), "PMTK397,0.4");
    assert_eq!(body(PmtkCommand::SetNavSpeedThresholdMt3339(15)), "PMTK386,1.5");
    assert_eq!(
        body(PmtkCommand::SetAlDeeCfg { sv: 1, snr: 30, ext_threshold: 180000, ext_gap: 60000 }),
        "PMTK223,1,30,180000,60000"
    );
    assert_eq!(
        body(PmtkCommand::PeriodicMode {
            run_type: 1,
            run_time: 3000,
            sleep_time: 12000,
            second_run_time: 18000,
            second_sleep_time: 72000
        }),
        "PMTK225,1,3000,12000,18000,72000"
    );
    assert_eq!(body(PmtkCommand::EasyEnable(true)), "PMTK869,1,1");
    assert_eq!(body(PmtkCommand::StopQzss(true)), "PMTK352,0");
    assert_eq!(body(PmtkCommand::LocusConfig(15)), "PMTK187,1,15");
    assert_eq!(body(PmtkCommand::SetBaudRate(57600)), "PMTK251,57600");
    assert_eq!(add_checksum(body(PmtkCommand::SetBaudRate(57600))), "$PMTK251,57600*2C\r\n");
}

#[test]
fn reply_kinds() {
    assert_eq!(PmtkCommand::ColdStart.reply(), ReplyKind::Startup);
    assert_eq!(PmtkCommand::QueryDatum.reply(), ReplyKind::Query);
    assert_eq!(PmtkCommand::ClearEpo.reply(), ReplyKind::Ack(50));
    assert_eq!(PmtkCommand::SetDatum(0).reply(), ReplyKind::Ack(10));
    assert_eq!(PmtkCommand::SetBaudRate(9600).reply(), ReplyKind::Nothing);
}

#[test]
fn output_rates_command_lays_out_fields_as_the_query_reads_them() {
    let rates = NmeaOutput { gll: 0, rmc: 1, vtg: 2, gga: 3, gsa: 4, gsv: 5, pmtkchn_interval: 7 };
    let body = PmtkCommand::SetNmeaOutput(rates).body().unwrap();
    assert_eq!(body.split(',').count(), 20);
    let as_reply = format!("${}", body);
    assert_eq!(nmea_output_of(Some(&as_reply)), rates);
}
