//! The PMTK commands this library sends, each as a code, its arguments, and the kind of reply
//! to wait for.
use vstd::prelude::*;

use crate::pmtk::{ACK_DEPTH, CLEAR_EPO_DEPTH, DgpsMode, NmeaOutput, Sbas, SbasMode};
use crate::text::{all_ascii, ascii_chars, ascii_string};

verus! {

/// A configuration command for the receiver.
#[derive(Clone, Copy, Debug, PartialEq, Eq)]
pub enum PmtkCommand {
    /// Restart with all data kept.
    HotStart,
    /// Restart without ephemeris data.
    WarmStart,
    /// Restart without navigation data.
    ColdStart,
    /// Restart with every setting back to its default.
    FullColdStart,
    /// Position fix interval in milliseconds (100 to 10000).
    SetNmeaUpdateRate(u32),
    SetDgpsMode(DgpsMode),
    QueryDgpsMode,
    SetSbasEnabled(Sbas),
    QuerySbasEnabled,
    /// Output rates: the six sentence rates, twelve reserved zero fields, then the channel
    /// interval, nineteen fields in all, as the output rate query reports them.
    SetNmeaOutput(NmeaOutput),
    QueryNmeaOutput,
    SetSbasMode(SbasMode),
    QuerySbasMode,
    QueryRelease,
    QueryEpoInfo,
    ClearEpo,
    /// Navigation speed threshold in tenths of a metre per second, for MT3318 and MT3329 chips.
    SetNavSpeedThreshold(u8),
    /// Navigation speed threshold in tenths of a metre per second, for MT3339 chips.
    SetNavSpeedThresholdMt3339(u8),
    QueryNavThreshold,
    StandbyMode,
    SetAlDeeCfg { sv: i8, snr: i8, ext_threshold: i32, ext_gap: i32 },
    PeriodicMode {
        run_type: u8,
        run_time: u32,
        sleep_time: u32,
        second_run_time: u32,
        second_sleep_time: u32,
    },
    AicMode(bool),
    EasyEnable(bool),
    EasyQuery,
    LocusConfig(i8),
    SetDatum(u16),
    QueryDatum,
    SupportQzssNmea(bool),
    /// Whether QZSS stays in use.
    StopQzss(bool),
    /// Baud rate to switch the receiver to.
    SetBaudRate(u32),
}

/// What to wait for after sending a command.
#[derive(Clone, Copy, Debug, PartialEq, Eq)]
pub enum ReplyKind {
    /// A `$PMTK001` answer, searched for over this many lines.
    Ack(i32),
    /// The start-up message.
    Startup,
    /// A query reply.
    Query,
    /// Nothing.
    Nothing,
}

/// Decimal digits of `n`.
pub open spec fn nat_text(n: nat) -> Seq<u8>
    decreases n,
{
    if n < 10 {
        seq![(0x30 + n) as u8]
    } else {
        nat_text(n / 10).push((0x30 + n % 10) as u8)
    }
}

/// Decimal text of `v`, with `-` where it is negative.
pub open spec fn int_text(v: int) -> Seq<u8> {
    if v < 0 {
        seq![0x2du8] + nat_text((-v) as nat)
    } else {
        nat_text(v as nat)
    }
}

/// Tenths `t` written with one decimal: `t / 10`, `.`, `t % 10`.
pub open spec fn tenths_text(t: nat) -> Seq<u8> {
    nat_text(t / 10) + seq![0x2eu8] + nat_text(t % 10)
}

/// Each argument after a comma.
pub open spec fn args_text(args: Seq<Seq<u8>>) -> Seq<u8>
    decreases args.len(),
{
    if args.len() == 0 {
        Seq::empty()
    } else {
        args_text(args.drop_last()) + seq![0x2cu8] + args.last()
    }
}

/// A command body: `PMTK`, the code, then each argument after a comma.
pub open spec fn command_text(code: nat, args: Seq<Seq<u8>>) -> Seq<u8> {
    seq![0x50u8, 0x4du8, 0x54u8, 0x4bu8] + nat_text(code) + args_text(args)
}

/// `1` for true, `0` for false.
pub open spec fn flag_text(b: bool) -> Seq<u8> {
    if b {
        nat_text(1)
    } else {
        nat_text(0)
    }
}

/// The code and arguments of a command; none for a setting to an unknown value, which is not
/// sent.
pub open spec fn command_parts(c: PmtkCommand) -> Option<(nat, Seq<Seq<u8>>)> {
    match c {
        PmtkCommand::HotStart => Some((101, seq![])),
        PmtkCommand::WarmStart => Some((102, seq![])),
        PmtkCommand::ColdStart => Some((103, seq![])),
        PmtkCommand::FullColdStart => Some((104, seq![])),
        PmtkCommand::SetNmeaUpdateRate(ms) => Some((220, seq![nat_text(ms as nat)])),
        PmtkCommand::SetDgpsMode(m) => match m {
            DgpsMode::NoDgps => Some((301, seq![nat_text(0)])),
            DgpsMode::RTCM => Some((301, seq![nat_text(1)])),
            DgpsMode::WAAS => Some((301, seq![nat_text(2)])),
            DgpsMode::Unknown => None,
        },
        PmtkCommand::QueryDgpsMode => Some((401, seq![])),
        PmtkCommand::SetSbasEnabled(s) => match s {
            Sbas::Enabled => Some((313, seq![nat_text(1)])),
            Sbas::Disabled => Some((313, seq![nat_text(0)])),
            Sbas::Unknown => None,
        },
        PmtkCommand::QuerySbasEnabled => Some((413, seq![])),
        PmtkCommand::SetNmeaOutput(o) => Some(
            (
                314,
                seq![
                    int_text(o.gll as int),
                    int_text(o.rmc as int),
                    int_text(o.vtg as int),
                    int_text(o.gga as int),
                    int_text(o.gsa as int),
                    int_text(o.gsv as int),
                    nat_text(0),
                    nat_text(0),
                    nat_text(0),
                    nat_text(0),
                    nat_text(0),
                    nat_text(0),
                    nat_text(0),
                    nat_text(0),
                    nat_text(0),
                    nat_text(0),
                    nat_text(0),
                    nat_text(0),
                    int_text(o.pmtkchn_interval as int),
                ],
            ),
        ),
        PmtkCommand::QueryNmeaOutput => Some((414, seq![])),
        PmtkCommand::SetSbasMode(m) => match m {
            SbasMode::Testing => Some((319, seq![nat_text(0)])),
            SbasMode::Integrity => Some((319, seq![nat_text(1)])),
            SbasMode::Unknown => None,
        },
        PmtkCommand::QuerySbasMode => Some((419, seq![])),
        PmtkCommand::QueryRelease => Some((605, seq![])),
        PmtkCommand::QueryEpoInfo => Some((607, seq![])),
        PmtkCommand::ClearEpo => Some((127, seq![])),
        PmtkCommand::SetNavSpeedThreshold(t) => Some((397, seq![tenths_text(t as nat)])),
        PmtkCommand::SetNavSpeedThresholdMt3339(t) => Some((386, seq![tenths_text(t as nat)])),
        PmtkCommand::QueryNavThreshold => Some((447, seq![])),
        PmtkCommand::StandbyMode => Some((161, seq![nat_text(0)])),
        PmtkCommand::SetAlDeeCfg { sv, snr, ext_threshold, ext_gap } => Some(
            (
                223,
                seq![
                    int_text(sv as int),
                    int_text(snr as int),
                    int_text(ext_threshold as int),
                    int_text(ext_gap as int),
                ],
            ),
        ),
        PmtkCommand::PeriodicMode {
            run_type,
            run_time,
            sleep_time,
            second_run_time,
            second_sleep_time,
        } => Some(
            (
                225,
                seq![
                    nat_text(run_type as nat),
                    nat_text(run_time as nat),
                    nat_text(sleep_time as nat),
                    nat_text(second_run_time as nat),
                    nat_text(second_sleep_time as nat),
                ],
            ),
        ),
        PmtkCommand::AicMode(on) => Some((286, seq![flag_text(on)])),
        PmtkCommand::EasyEnable(on) => Some((869, seq![nat_text(1), flag_text(on)])),
        PmtkCommand::EasyQuery => Some((869, seq![nat_text(0)])),
        PmtkCommand::LocusConfig(interval) => Some((187, seq![nat_text(1), int_text(interval as int)])),
        PmtkCommand::SetDatum(d) => Some((330, seq![nat_text(d as nat)])),
        PmtkCommand::QueryDatum => Some((430, seq![])),
        PmtkCommand::SupportQzssNmea(on) => Some((351, seq![flag_text(on)])),
        PmtkCommand::StopQzss(keep) => Some((352, seq![flag_text(!keep)])),
        PmtkCommand::SetBaudRate(baud) => Some((251, seq![nat_text(baud as nat)])),
    }
}

/// The arguments of a command (none for one that is not sent).
pub open spec fn command_args(c: PmtkCommand) -> Seq<Seq<u8>> {
    match command_parts(c) {
        Some((_, args)) => args,
        None => Seq::empty(),
    }
}

/// What to wait for after a command: the start-up message after a restart or a change of
/// augmentation mode; a query reply after a query; nothing after a baud-rate change; otherwise
/// a `$PMTK001` answer, over more lines for clearing the orbit data.
pub open spec fn reply_kind(c: PmtkCommand) -> ReplyKind {
    match c {
        PmtkCommand::HotStart | PmtkCommand::WarmStart | PmtkCommand::ColdStart
        | PmtkCommand::FullColdStart | PmtkCommand::SetSbasMode(_) => ReplyKind::Startup,
        PmtkCommand::QueryDgpsMode | PmtkCommand::QuerySbasEnabled | PmtkCommand::QueryNmeaOutput
        | PmtkCommand::QuerySbasMode | PmtkCommand::QueryRelease | PmtkCommand::QueryEpoInfo
        | PmtkCommand::QueryNavThreshold | PmtkCommand::EasyQuery | PmtkCommand::QueryDatum =>
            ReplyKind::Query,
        PmtkCommand::SetBaudRate(_) => ReplyKind::Nothing,
        PmtkCommand::ClearEpo => ReplyKind::Ack(CLEAR_EPO_DEPTH),
        _ => ReplyKind::Ack(ACK_DEPTH),
    }
}

/// Appends the digits of `n`.
fn push_nat(out: &mut Vec<u8>, n: u64)
    requires
        all_ascii(old(out)@),
    ensures
        final(out)@ == old(out)@ + nat_text(n as nat),
        all_ascii(final(out)@),
    decreases n,
{
    if n >= 10 {
        push_nat(out, n / 10);
    }
    out.push(0x30 + (n % 10) as u8);
    assert(final(out)@ =~= old(out)@ + nat_text(n as nat));
}

/// Appends the text of `v`.
fn push_int(out: &mut Vec<u8>, v: i64)
    requires
        all_ascii(old(out)@),
    ensures
        final(out)@ == old(out)@ + int_text(v as int),
        all_ascii(final(out)@),
{
    if v < 0 {
        out.push(0x2d);
        push_nat(out, (-(v as i128)) as u64);
        assert(out@ =~= old(out)@ + int_text(v as int));
    } else {
        push_nat(out, v as u64);
    }
}

/// The start of a command body: `PMTK` and the code.
fn start_command(code: u64) -> (r: Vec<u8>)
    ensures
        r@ == command_text(code as nat, seq![]),
        all_ascii(r@),
{
    let mut out: Vec<u8> = Vec::new();
    out.push(0x50);
    out.push(0x4d);
    out.push(0x54);
    out.push(0x4b);
    push_nat(&mut out, code);
    assert(out@ =~= command_text(code as nat, seq![]));
    out
}

/// Adds an argument, given as the text that `add` will append, after a comma.
fn add_comma(out: &mut Vec<u8>, Ghost(code): Ghost<nat>, Ghost(args): Ghost<Seq<Seq<u8>>>)
    requires
        old(out)@ == command_text(code, args),
        all_ascii(old(out)@),
    ensures
        final(out)@ == command_text(code, args) + seq![0x2cu8],
        all_ascii(final(out)@),
{
    out.push(0x2c);
}

fn add_nat(out: &mut Vec<u8>, Ghost(code): Ghost<nat>, Ghost(args): Ghost<Seq<Seq<u8>>>, n: u64)
    requires
        old(out)@ == command_text(code, args),
        all_ascii(old(out)@),
    ensures
        final(out)@ == command_text(code, args.push(nat_text(n as nat))),
        all_ascii(final(out)@),
        args.len() == 0 ==> final(out)@ == command_text(code, seq![nat_text(n as nat)]),
{
    add_comma(out, Ghost(code), Ghost(args));
    push_nat(out, n);
    assert(args.len() == 0 ==> args.push(nat_text(n as nat)) =~= seq![nat_text(n as nat)]);
    assert(args.push(nat_text(n as nat)).drop_last() =~= args);
    assert(final(out)@ =~= command_text(code, args.push(nat_text(n as nat))));
}

fn add_int(out: &mut Vec<u8>, Ghost(code): Ghost<nat>, Ghost(args): Ghost<Seq<Seq<u8>>>, v: i64)
    requires
        old(out)@ == command_text(code, args),
        all_ascii(old(out)@),
    ensures
        final(out)@ == command_text(code, args.push(int_text(v as int))),
        all_ascii(final(out)@),
        args.len() == 0 ==> final(out)@ == command_text(code, seq![int_text(v as int)]),
{
    add_comma(out, Ghost(code), Ghost(args));
    push_int(out, v);
    assert(args.len() == 0 ==> args.push(int_text(v as int)) =~= seq![int_text(v as int)]);
    assert(args.push(int_text(v as int)).drop_last() =~= args);
    assert(final(out)@ =~= command_text(code, args.push(int_text(v as int))));
}

fn add_tenths(out: &mut Vec<u8>, Ghost(code): Ghost<nat>, Ghost(args): Ghost<Seq<Seq<u8>>>, t: u8)
    requires
        old(out)@ == command_text(code, args),
        all_ascii(old(out)@),
    ensures
        final(out)@ == command_text(code, args.push(tenths_text(t as nat))),
        all_ascii(final(out)@),
        args.len() == 0 ==> final(out)@ == command_text(code, seq![tenths_text(t as nat)]),
{
    add_comma(out, Ghost(code), Ghost(args));
    push_nat(out, (t / 10) as u64);
    out.push(0x2e);
    push_nat(out, (t % 10) as u64);
    assert(args.len() == 0 ==> args.push(tenths_text(t as nat)) =~= seq![tenths_text(t as nat)]);
    assert(args.push(tenths_text(t as nat)).drop_last() =~= args);
    assert(final(out)@ =~= command_text(code, args.push(tenths_text(t as nat))));
}

fn flag_value(b: bool) -> (r: u64)
    ensures
        nat_text(r as nat) == flag_text(b),
{
    if b {
        1
    } else {
        0
    }
}

impl PmtkCommand {
    /// The command body to frame and send; `None` for a setting to an unknown value.
    pub fn body(&self) -> (r: Option<String>)
        ensures
            match command_parts(*self) {
                Some((code, args)) => r matches Some(s) && s@ == ascii_chars(command_text(code, args)),
                None => r is None,
            },
    {
        let ghost e0: Seq<Seq<u8>> = seq![];
        let out: Vec<u8> = match *self {
            PmtkCommand::HotStart => start_command(101),
            PmtkCommand::WarmStart => start_command(102),
            PmtkCommand::ColdStart => start_command(103),
            PmtkCommand::FullColdStart => start_command(104),
            PmtkCommand::SetNmeaUpdateRate(ms) => {
                let mut o = start_command(220);
                add_nat(&mut o, Ghost(220), Ghost(e0), ms as u64);
                o
            },
            PmtkCommand::SetDgpsMode(m) => {
                let v: u64 = match m {
                    DgpsMode::NoDgps => 0,
                    DgpsMode::RTCM => 1,
                    DgpsMode::WAAS => 2,
                    DgpsMode::Unknown => {
                        return None;
                    },
                };
                let mut o = start_command(301);
                add_nat(&mut o, Ghost(301), Ghost(e0), v);
                o
            },
            PmtkCommand::QueryDgpsMode => start_command(401),
            PmtkCommand::SetSbasEnabled(s) => {
                let v: u64 = match s {
                    Sbas::Enabled => 1,
                    Sbas::Disabled => 0,
                    Sbas::Unknown => {
                        return None;
                    },
                };
                let mut o = start_command(313);
                add_nat(&mut o, Ghost(313), Ghost(e0), v);
                o
            },
            PmtkCommand::QuerySbasEnabled => start_command(413),
            PmtkCommand::SetNmeaOutput(n) => {
                let mut o = start_command(314);
                let ghost c: nat = 314;
                add_int(&mut o, Ghost(c), Ghost(e0), n.gll as i64);
                let ghost a1 = seq![int_text(n.gll as int)];
                add_int(&mut o, Ghost(c), Ghost(a1), n.rmc as i64);
                let ghost a2 = a1.push(int_text(n.rmc as int));
                add_int(&mut o, Ghost(c), Ghost(a2), n.vtg as i64);
                let ghost a3 = a2.push(int_text(n.vtg as int));
                add_int(&mut o, Ghost(c), Ghost(a3), n.gga as i64);
                let ghost a4 = a3.push(int_text(n.gga as int));
                add_int(&mut o, Ghost(c), Ghost(a4), n.gsa as i64);
                let ghost a5 = a4.push(int_text(n.gsa as int));
                add_int(&mut o, Ghost(c), Ghost(a5), n.gsv as i64);
                let ghost a6 = a5.push(int_text(n.gsv as int));
                let ghost mut args = a6;
                let mut z: usize = 0;
                while z < 12
                    invariant
                        z <= 12,
                        o@ == command_text(c, args),
                        all_ascii(o@),
                        args == a6 + Seq::new(z as nat, |i: int| nat_text(0)),
                    decreases 12 - z,
                {
                    add_nat(&mut o, Ghost(c), Ghost(args), 0);
                    proof {
                        args = args.push(nat_text(0));
                    }
                    assert(args =~= a6 + Seq::new((z + 1) as nat, |i: int| nat_text(0)));
                    z = z + 1;
                }
                add_int(&mut o, Ghost(c), Ghost(args), n.pmtkchn_interval as i64);
                let ghost a19 = args.push(int_text(n.pmtkchn_interval as int));
                assert(seq![int_text(n.gll as int)] =~= e0.push(int_text(n.gll as int)));
                assert(a19 =~= command_args(*self));
                o
            },
            PmtkCommand::QueryNmeaOutput => start_command(414),
            PmtkCommand::SetSbasMode(m) => {
                let v: u64 = match m {
                    SbasMode::Testing => 0,
                    SbasMode::Integrity => 1,
                    SbasMode::Unknown => {
                        return None;
                    },
                };
                let mut o = start_command(319);
                add_nat(&mut o, Ghost(319), Ghost(e0), v);
                o
            },
            PmtkCommand::QuerySbasMode => start_command(419),
            PmtkCommand::QueryRelease => start_command(605),
            PmtkCommand::QueryEpoInfo => start_command(607),
            PmtkCommand::ClearEpo => start_command(127),
            PmtkCommand::SetNavSpeedThreshold(t) => {
                let mut o = start_command(397);
                add_tenths(&mut o, Ghost(397), Ghost(e0), t);
                o
            },
            PmtkCommand::SetNavSpeedThresholdMt3339(t) => {
                let mut o = start_command(386);
                add_tenths(&mut o, Ghost(386), Ghost(e0), t);
                o
            },
            PmtkCommand::QueryNavThreshold => start_command(447),
            PmtkCommand::StandbyMode => {
                let mut o = start_command(161);
                add_nat(&mut o, Ghost(161), Ghost(e0), 0);
                o
            },
            PmtkCommand::SetAlDeeCfg { sv, snr, ext_threshold, ext_gap } => {
                let mut o = start_command(223);
                let ghost c: nat = 223;
                add_int(&mut o, Ghost(c), Ghost(e0), sv as i64);
                let ghost a1 = seq![int_text(sv as int)];
                assert(a1 =~= e0.push(int_text(sv as int)));
                add_int(&mut o, Ghost(c), Ghost(a1), snr as i64);
                let ghost a2 = a1.push(int_text(snr as int));
                add_int(&mut o, Ghost(c), Ghost(a2), ext_threshold as i64);
                let ghost a3 = a2.push(int_text(ext_threshold as int));
                add_int(&mut o, Ghost(c), Ghost(a3), ext_gap as i64);
                let ghost a4 = a3.push(int_text(ext_gap as int));
                assert(a4 =~= command_args(*self));
                o
            },
            PmtkCommand::PeriodicMode {
                run_type,
                run_time,
                sleep_time,
                second_run_time,
                second_sleep_time,
            } => {
                let mut o = start_command(225);
                let ghost c: nat = 225;
                add_nat(&mut o, Ghost(c), Ghost(e0), run_type as u64);
                let ghost a1 = seq![nat_text(run_type as nat)];
                assert(a1 =~= e0.push(nat_text(run_type as nat)));
                add_nat(&mut o, Ghost(c), Ghost(a1), run_time as u64);
                let ghost a2 = a1.push(nat_text(run_time as nat));
                add_nat(&mut o, Ghost(c), Ghost(a2), sleep_time as u64);
                let ghost a3 = a2.push(nat_text(sleep_time as nat));
                add_nat(&mut o, Ghost(c), Ghost(a3), second_run_time as u64);
                let ghost a4 = a3.push(nat_text(second_run_time as nat));
                add_nat(&mut o, Ghost(c), Ghost(a4), second_sleep_time as u64);
                let ghost a5 = a4.push(nat_text(second_sleep_time as nat));
                assert(a5 =~= command_args(*self));
                o
            },
            PmtkCommand::AicMode(on) => {
                let mut o = start_command(286);
                add_nat(&mut o, Ghost(286), Ghost(e0), flag_value(on));
                o
            },
            PmtkCommand::EasyEnable(on) => {
                let mut o = start_command(869);
                add_nat(&mut o, Ghost(869), Ghost(e0), 1);
                let ghost a1 = seq![nat_text(1)];
                assert(a1 =~= e0.push(nat_text(1)));
                let f = flag_value(on);
                add_nat(&mut o, Ghost(869), Ghost(a1), f);
                assert(a1.push(nat_text(f as nat)) =~= command_args(*self));
                o
            },
            PmtkCommand::EasyQuery => {
                let mut o = start_command(869);
                add_nat(&mut o, Ghost(869), Ghost(e0), 0);
                o
            },
            PmtkCommand::LocusConfig(interval) => {
                let mut o = start_command(187);
                add_nat(&mut o, Ghost(187), Ghost(e0), 1);
                let ghost a1 = seq![nat_text(1)];
                assert(a1 =~= e0.push(nat_text(1)));
                add_int(&mut o, Ghost(187), Ghost(a1), interval as i64);
                assert(a1.push(int_text(interval as int)) =~= command_args(*self));
                o
            },
            PmtkCommand::SetDatum(d) => {
                let mut o = start_command(330);
                add_nat(&mut o, Ghost(330), Ghost(e0), d as u64);
                o
            },
            PmtkCommand::QueryDatum => start_command(430),
            PmtkCommand::SupportQzssNmea(on) => {
                let mut o = start_command(351);
                add_nat(&mut o, Ghost(351), Ghost(e0), flag_value(on));
                o
            },
            PmtkCommand::StopQzss(keep) => {
                let mut o = start_command(352);
                add_nat(&mut o, Ghost(352), Ghost(e0), flag_value(!keep));
                o
            },
            PmtkCommand::SetBaudRate(baud) => {
                let mut o = start_command(251);
                add_nat(&mut o, Ghost(251), Ghost(e0), baud as u64);
                o
            },
        };
        Some(ascii_string(out))
    }

    /// What to wait for after sending this command.
    pub fn reply(&self) -> (r: ReplyKind)
        ensures
            r == reply_kind(*self),
    {
        match *self {
            PmtkCommand::HotStart | PmtkCommand::WarmStart | PmtkCommand::ColdStart
            | PmtkCommand::FullColdStart | PmtkCommand::SetSbasMode(_) => ReplyKind::Startup,
            PmtkCommand::QueryDgpsMode | PmtkCommand::QuerySbasEnabled
            | PmtkCommand::QueryNmeaOutput | PmtkCommand::QuerySbasMode
            | PmtkCommand::QueryRelease | PmtkCommand::QueryEpoInfo
            | PmtkCommand::QueryNavThreshold | PmtkCommand::EasyQuery | PmtkCommand::QueryDatum =>
                ReplyKind::Query,
            PmtkCommand::SetBaudRate(_) => ReplyKind::Nothing,
            PmtkCommand::ClearEpo => ReplyKind::Ack(CLEAR_EPO_DEPTH),
            _ => ReplyKind::Ack(ACK_DEPTH),
        }
    }
}

} // verus!
