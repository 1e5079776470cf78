//! PMTK: the receiver's configuration protocol.
//!
//! A command is a body such as `PMTK220,1000`, framed by [`add_checksum`](crate::command::add_checksum).
//! The receiver answers a setting with `$PMTK001,<command>,<flag>` and a query with a
//! `$PMTK5xx`-style line whose fields depend on the query. While it answers it keeps sending
//! position reports, so the caller reads a bounded number of lines and hands each to a search
//! defined here, which skips unrelated lines and decides when the answer has been found.
use vstd::prelude::*;
use vstd::string::StringSliceAdditionalSpecFns;
use vstd::utf8::*;

use crate::checksum::{frame_valid, frame_valid_range, trim, trim_bounds};
use crate::fields::{Decimal, int_of, parse_int};
use crate::gps::{PortConnection, connection_fields};
use crate::nmea::{decimal_field, field, field_bytes, field_decimal, field_equals, field_is, parse_sentence, split_fields, split_range, views};
use crate::text::sub_str;

verus! {

broadcast use encode_utf8_valid_utf8;

/// How the receiver answered a setting.
#[derive(Clone, Copy, Debug, PartialEq, Eq)]
pub enum Pmtk001Ack {
    /// Flag `0`: no such command.
    Invalid,
    /// Flag `1`: the chip does not support the command.
    Unsupported,
    /// Flag `2`: the command failed.
    Failed,
    /// Flag `3`: the command was carried out.
    Success,
    /// No answer within the lines searched, or an answer with another flag.
    NoPacket,
}

/// Differential GPS mode.
#[derive(Clone, Copy, Debug, PartialEq, Eq)]
pub enum DgpsMode {
    NoDgps,
    RTCM,
    WAAS,
    Unknown,
}

/// Whether satellite-based augmentation is on.
#[derive(Clone, Copy, Debug, PartialEq, Eq)]
pub enum Sbas {
    Enabled,
    Disabled,
    Unknown,
}

/// Satellite-based augmentation mode.
#[derive(Clone, Copy, Debug, PartialEq, Eq)]
pub enum SbasMode {
    Testing,
    Integrity,
    Unknown,
}

/// How often each sentence kind is sent: 0 never, `n` once every `n` fixes; -1 where unknown.
#[derive(Clone, Copy, Debug, PartialEq, Eq)]
pub struct NmeaOutput {
    pub gll: i8,
    pub rmc: i8,
    pub vtg: i8,
    pub gga: i8,
    pub gsa: i8,
    pub gsv: i8,
    pub pmtkchn_interval: i8,
}

/// The extended prediction orbit data the receiver holds; -1 where unknown.
#[derive(Clone, Copy, Debug, PartialEq, Eq)]
pub struct EpoData {
    pub set: i8,
    pub fwn_ftow_week_number: i8,
    pub fwn_ftow_tow: i8,
    pub lwn_ltow_week_number: i8,
    pub lwn_ltow_tow: i8,
    pub fcwn_fctow_week_number: i8,
    pub fcwn_fctow_tow: i8,
    pub lcwn_lctow_week_number: i8,
    pub lcwn_lctow_tow: i8,
}

/// The outcome of a baud-rate change: the rate the receiver was found at, or none found.
#[derive(Clone, Copy, Debug, PartialEq, Eq)]
pub enum BaudRateResults {
    Success(u32),
    Fail,
}

// ---------------------------------------------------------------------------------------------
// Recognising replies
// ---------------------------------------------------------------------------------------------

/// `$PMTK`, the start of every reply.
pub open spec fn pmtk_prefix() -> Seq<u8> {
    seq![0x24u8, 0x50u8, 0x4du8, 0x54u8, 0x4bu8]
}

/// `$PMTK001`, the header of the answer to a setting.
pub open spec fn ack_header() -> Seq<u8> {
    pmtk_prefix() + seq![0x30u8, 0x30u8, 0x31u8]
}

/// `$PMTK011`, the system message sent on start-up.
pub open spec fn startup_prefix() -> Seq<u8> {
    pmtk_prefix() + seq![0x30u8, 0x31u8, 0x31u8]
}

/// Whether `t` begins with `p`.
pub open spec fn starts_with(t: Seq<u8>, p: Seq<u8>) -> bool {
    t.len() >= p.len() && t.subrange(0, p.len() as int) == p
}

/// The trimmed line, where the line was read as text and is a valid frame.
pub open spec fn valid_frame_of(c: &PortConnection) -> Option<Seq<u8>> {
    match c {
        PortConnection::Valid(s) => {
            let t = trim(encode_utf8(s@));
            if frame_valid(t) {
                Some(t)
            } else {
                None
            }
        },
        _ => None,
    }
}

/// The answer that a flag gives: `0` invalid, `1` unsupported, `2` failed, `3` success,
/// anything else no answer.
pub open spec fn ack_of_flag(t: Seq<u8>) -> Pmtk001Ack {
    if t == seq![0x30u8] {
        Pmtk001Ack::Invalid
    } else if t == seq![0x31u8] {
        Pmtk001Ack::Unsupported
    } else if t == seq![0x32u8] {
        Pmtk001Ack::Failed
    } else if t == seq![0x33u8] {
        Pmtk001Ack::Success
    } else {
        Pmtk001Ack::NoPacket
    }
}

/// What one line means to a search: nothing (read on), or the end of the search with a value.
#[derive(Debug, PartialEq, Eq)]
pub enum Scan<T> {
    Skip,
    Stop(T),
}

/// What a line means to the search for the answer to a setting: a valid sentence whose header
/// is `$PMTK001` ends it with the answer its third field gives; a line that did not arrive or is
/// not text ends it without an answer; any other line is skipped.
pub open spec fn ack_scan(c: &PortConnection) -> Scan<Pmtk001Ack> {
    match c {
        PortConnection::Valid(_) => match connection_fields(c) {
            Some(f) => if field(f, 0) == ack_header() {
                Scan::Stop(ack_of_flag(field(f, 2)))
            } else {
                Scan::Skip
            },
            None => Scan::Skip,
        },
        _ => Scan::Stop(Pmtk001Ack::NoPacket),
    }
}

/// What a line means to the search for a start-up message: a valid frame that begins with
/// `$PMTK011` ends it with success; a line that did not arrive or is not text ends it without;
/// any other line is skipped.
pub open spec fn startup_scan(c: &PortConnection) -> Scan<bool> {
    match c {
        PortConnection::Valid(_) => match valid_frame_of(c) {
            Some(t) => if starts_with(t, startup_prefix()) {
                Scan::Stop(true)
            } else {
                Scan::Skip
            },
            None => Scan::Skip,
        },
        _ => Scan::Stop(false),
    }
}

/// What a line means to the search for the reply to a query: a valid frame that begins with
/// `$PMTK` ends it with that line, checksum removed; a line that did not arrive or is not text
/// ends it without a reply; any other line is skipped.
pub open spec fn reply_scan(c: &PortConnection) -> Scan<Option<Seq<u8>>> {
    match c {
        PortConnection::Valid(_) => match valid_frame_of(c) {
            Some(t) => if starts_with(t, pmtk_prefix()) {
                Scan::Stop(Some(t.subrange(0, t.len() - 3)))
            } else {
                Scan::Skip
            },
            None => Scan::Skip,
        },
        _ => Scan::Stop(None),
    }
}

/// Whether `b[at..]` begins with `p`.
fn prefix_at(b: &[u8], at: usize, end: usize, p: &Vec<u8>) -> (r: bool)
    requires
        at <= end <= b@.len(),
    ensures
        r == starts_with(b@.subrange(at as int, end as int), p@),
{
    let ghost t = b@.subrange(at as int, end as int);
    if end - at < p.len() {
        return false;
    }
    let mut i: usize = 0;
    while i < p.len()
        invariant
            i <= p@.len() <= end - at,
            at <= end <= b@.len(),
            t == b@.subrange(at as int, end as int),
            t.subrange(0, i as int) == p@.subrange(0, i as int),
        decreases p@.len() - i,
    {
        if b[at + i] != p[i] {
            assert(t.subrange(0, p@.len() as int)[i as int] != p@[i as int]);
            return false;
        }
        assert(t.subrange(0, i + 1) =~= p@.subrange(0, i + 1)) by {
            assert(t.subrange(0, i + 1) =~= t.subrange(0, i as int).push(t[i as int]));
            assert(p@.subrange(0, i + 1) =~= p@.subrange(0, i as int).push(p@[i as int]));
        }
        i = i + 1;
    }
    assert(p@.subrange(0, p@.len() as int) =~= p@);
    true
}

fn pmtk_prefix_bytes() -> (r: Vec<u8>)
    ensures
        r@ == pmtk_prefix(),
{
    let r: Vec<u8> = vec![0x24, 0x50, 0x4d, 0x54, 0x4b];
    assert(r@ =~= pmtk_prefix());
    r
}

/// Classifies one line for the search for the answer to a setting.
pub fn ack_scan_line(c: &PortConnection) -> (r: Scan<Pmtk001Ack>)
    ensures
        r == ack_scan(c),
{
    match c {
        PortConnection::Valid(s) => {
            let text = s.as_str();
            assert(text.spec_bytes() == encode_utf8(s@));
            match parse_sentence(text) {
                None => Scan::Skip,
                Some(f) => {
                    let is_ack = match field_bytes(&f, 0) {
                        Some(h) => {
                            let mut header = pmtk_prefix_bytes();
                            header.push(0x30);
                            header.push(0x30);
                            header.push(0x31);
                            assert(header@ =~= ack_header());
                            let yes = h.len() == 8 && prefix_at(h, 0, h.len(), &header);
                            assert(h@.subrange(0, h@.len() as int) =~= h@);
                            assert(yes == (h@ == ack_header()));
                            yes
                        },
                        None => {
                            assert(field(views(f@), 0) =~= Seq::<u8>::empty());
                            false
                        },
                    };
                    if is_ack {
                        let flag = if field_equals(&f, 2, 0x30) {
                            Pmtk001Ack::Invalid
                        } else if field_equals(&f, 2, 0x31) {
                            Pmtk001Ack::Unsupported
                        } else if field_equals(&f, 2, 0x32) {
                            Pmtk001Ack::Failed
                        } else if field_equals(&f, 2, 0x33) {
                            Pmtk001Ack::Success
                        } else {
                            Pmtk001Ack::NoPacket
                        };
                        Scan::Stop(flag)
                    } else {
                        Scan::Skip
                    }
                },
            }
        },
        _ => Scan::Stop(Pmtk001Ack::NoPacket),
    }
}

/// Classifies one line for the search for a start-up message.
pub fn startup_scan_line(c: &PortConnection) -> (r: Scan<bool>)
    ensures
        r == startup_scan(c),
{
    match c {
        PortConnection::Valid(s) => {
            let b = s.as_str().as_bytes();
            let (a, e) = trim_bounds(b);
            if !frame_valid_range(b, a, e) {
                return Scan::Skip;
            }
            let mut p = pmtk_prefix_bytes();
            p.push(0x30);
            p.push(0x31);
            p.push(0x31);
            assert(p@ =~= startup_prefix());
            if prefix_at(b, a, e, &p) {
                Scan::Stop(true)
            } else {
                Scan::Skip
            }
        },
        _ => Scan::Stop(false),
    }
}

/// Whether `r` stands for `s`: a reply as text, `s` as its bytes.
pub open spec fn reply_is(r: Option<String>, s: Option<Seq<u8>>) -> bool {
    match (r, s) {
        (Some(text), Some(b)) => encode_utf8(text@) == b,
        (None, None) => true,
        _ => false,
    }
}

/// Classifies one line for the search for the reply to a query.
pub fn reply_scan_line(c: &PortConnection) -> (r: Scan<Option<String>>)
    ensures
        match (r, reply_scan(c)) {
            (Scan::Skip, Scan::Skip) => true,
            (Scan::Stop(x), Scan::Stop(y)) => reply_is(x, y),
            _ => false,
        },
{
    match c {
        PortConnection::Valid(s) => {
            let text = s.as_str();
            let b = text.as_bytes();
            let (a, e) = trim_bounds(b);
            if !frame_valid_range(b, a, e) {
                return Scan::Skip;
            }
            let p = pmtk_prefix_bytes();
            if prefix_at(b, a, e, &p) {
                proof {
                    assert(b@[a as int] == 0x24) by {
                        assert(b@.subrange(a as int, e as int).subrange(0, 5)[0] == 0x24);
                    }
                    assert(b@[e - 3] == 0x2a);
                }
                let body = sub_str(text, a, e - 3);
                let owned = body.to_owned();
                assert(encode_utf8(owned@) == body.spec_bytes());
                assert(body.spec_bytes() =~= trim(b@).subrange(0, trim(b@).len() - 3));
                Scan::Stop(Some(owned))
            } else {
                Scan::Skip
            }
        },
        _ => Scan::Stop(None),
    }
}

// ---------------------------------------------------------------------------------------------
// Bounded searches
// ---------------------------------------------------------------------------------------------

/// A search through at most a given number of lines.
#[derive(Debug, PartialEq, Eq)]
pub enum Search<T> {
    /// This many lines may still be read.
    Reading(u32),
    /// The search is over.
    Found(T),
}

/// How many lines are searched for the answer to a setting.
pub const ACK_DEPTH: i32 = 10;

/// How many lines are searched for the answer to clearing the orbit data, which first sends a
/// line for each block it clears.
pub const CLEAR_EPO_DEPTH: i32 = 50;

/// How many lines are searched for a start-up message or the reply to a query.
pub const REPLY_DEPTH: u32 = 10;

/// The search that a scan of one line leaves, with `n` lines left before that line: the scan's
/// value where it stopped; `none` where it skipped the last line allowed; one line fewer
/// otherwise.
pub open spec fn search_after<T>(n: u32, scan: Scan<T>, none: T) -> Search<T> {
    match scan {
        Scan::Stop(v) => Search::Found(v),
        Scan::Skip => if n <= 1 {
            Search::Found(none)
        } else {
            Search::Reading((n - 1) as u32)
        },
    }
}

/// A search for the answer to a setting over at most `depth` lines; none is over at once.
pub fn ack_search(depth: i32) -> (r: Search<Pmtk001Ack>)
    ensures
        depth <= 0 ==> r == Search::Found(Pmtk001Ack::NoPacket),
        depth > 0 ==> r == Search::<Pmtk001Ack>::Reading(depth as u32),
{
    if depth <= 0 {
        Search::Found(Pmtk001Ack::NoPacket)
    } else {
        Search::Reading(depth as u32)
    }
}

/// Takes one more line into the search for the answer to a setting.
pub fn ack_search_step(lines_left: u32, c: &PortConnection) -> (r: Search<Pmtk001Ack>)
    ensures
        r == search_after(lines_left, ack_scan(c), Pmtk001Ack::NoPacket),
{
    match ack_scan_line(c) {
        Scan::Stop(a) => Search::Found(a),
        Scan::Skip => if lines_left <= 1 {
            Search::Found(Pmtk001Ack::NoPacket)
        } else {
            Search::Reading(lines_left - 1)
        },
    }
}

/// Takes one more line into the search for a start-up message.
pub fn startup_search_step(lines_left: u32, c: &PortConnection) -> (r: Search<bool>)
    ensures
        r == search_after(lines_left, startup_scan(c), false),
{
    match startup_scan_line(c) {
        Scan::Stop(a) => Search::Found(a),
        Scan::Skip => if lines_left <= 1 {
            Search::Found(false)
        } else {
            Search::Reading(lines_left - 1)
        },
    }
}

/// Takes one more line into the search for the reply to a query.
pub fn reply_search_step(lines_left: u32, c: &PortConnection) -> (r: Search<Option<String>>)
    ensures
        match (r, search_after(lines_left, reply_scan(c), None)) {
            (Search::Reading(a), Search::Reading(b)) => a == b,
            (Search::Found(x), Search::Found(y)) => reply_is(x, y),
            _ => false,
        },
{
    match reply_scan_line(c) {
        Scan::Stop(a) => Search::Found(a),
        Scan::Skip => if lines_left <= 1 {
            Search::Found(None)
        } else {
            Search::Reading(lines_left - 1)
        },
    }
}

/// The answer that a search for the answer to a setting ends with, over the lines `cs` as they
/// arrive, with `n` lines allowed.
pub open spec fn ack_outcome(n: nat, cs: Seq<PortConnection>) -> Pmtk001Ack
    decreases cs.len(),
{
    if n == 0 || cs.len() == 0 {
        Pmtk001Ack::NoPacket
    } else {
        match ack_scan(&cs[0]) {
            Scan::Stop(a) => a,
            Scan::Skip => ack_outcome((n - 1) as nat, cs.drop_first()),
        }
    }
}

/// The search steps compute [`ack_outcome`]: from `Reading(n)`, a line, then the outcome on
/// the rest.
pub proof fn lemma_ack_step_outcome(n: u32, cs: Seq<PortConnection>)
    requires
        n > 0,
        cs.len() > 0,
    ensures
        match search_after(n, ack_scan(&cs[0]), Pmtk001Ack::NoPacket) {
            Search::Found(a) => a == ack_outcome(n as nat, cs),
            Search::Reading(m) => ack_outcome(m as nat, cs.drop_first()) == ack_outcome(n as nat, cs),
        },
{
    if n == 1 {
        assert(ack_outcome(0, cs.drop_first()) == Pmtk001Ack::NoPacket);
    }
}

/// A search whose allowed lines hold no answer ends without one.
pub proof fn lemma_ack_exhausted(n: nat, cs: Seq<PortConnection>)
    requires
        forall|i: int| 0 <= i < n && i < cs.len() ==> #[trigger] ack_scan(&cs[i]) == Scan::<
            Pmtk001Ack,
        >::Skip,
    ensures
        ack_outcome(n, cs) == Pmtk001Ack::NoPacket,
    decreases cs.len(),
{
    if n > 0 && cs.len() > 0 {
        assert(ack_scan(&cs[0]) == Scan::<Pmtk001Ack>::Skip);
        assert forall|i: int| 0 <= i < n - 1 && i < cs.drop_first().len() implies #[trigger] ack_scan(
            &cs.drop_first()[i],
        ) == Scan::<Pmtk001Ack>::Skip by {
            assert(cs.drop_first()[i] == cs[i + 1]);
        }
        lemma_ack_exhausted((n - 1) as nat, cs.drop_first());
    }
}

/// Runs a search for the answer to a setting over the lines `cs` as they arrive, one
/// [`ack_search_step`] per line while it is reading. Gives the final state and how many lines
/// were taken.
pub open spec fn ack_search_run(s: Search<Pmtk001Ack>, cs: Seq<PortConnection>) -> (
    Search<Pmtk001Ack>,
    nat,
)
    decreases cs.len(),
{
    match s {
        Search::Reading(n) => if cs.len() == 0 {
            (s, 0)
        } else {
            let next = ack_search_run(
                search_after(n, ack_scan(&cs[0]), Pmtk001Ack::NoPacket),
                cs.drop_first(),
            );
            (next.0, next.1 + 1)
        },
        Search::Found(_) => (s, 0),
    }
}

proof fn lemma_ack_run_reading(n: u32, cs: Seq<PortConnection>)
    requires
        n > 0,
        cs.len() >= n,
    ensures
        ack_search_run(Search::Reading(n), cs).0 == Search::Found(ack_outcome(n as nat, cs)),
        1 <= ack_search_run(Search::Reading(n), cs).1 <= n,
        forall|i: int|
            0 <= i < ack_search_run(Search::Reading(n), cs).1 - 1 ==> #[trigger] ack_scan(&cs[i])
                == Scan::<Pmtk001Ack>::Skip,
    decreases n,
{
    reveal_with_fuel(ack_search_run, 2);
    let rest = cs.drop_first();
    match ack_scan(&cs[0]) {
        Scan::Stop(a) => {},
        Scan::Skip => {
            if n <= 1 {
                assert(ack_outcome(0, rest) == Pmtk001Ack::NoPacket);
            } else {
                lemma_ack_run_reading((n - 1) as u32, rest);
                let k = ack_search_run(Search::Reading(n), cs).1;
                assert forall|i: int| 0 <= i < k - 1 implies #[trigger] ack_scan(&cs[i])
                    == Scan::<Pmtk001Ack>::Skip by {
                    if i > 0 {
                        assert(cs[i] == rest[i - 1]);
                        assert(ack_scan(&rest[i - 1]) == Scan::<Pmtk001Ack>::Skip);
                    }
                }
            }
        },
    }
}

/// The search for the answer to a setting, started with [`ack_search`] and fed one line per
/// [`ack_search_step`], ends with [`ack_outcome`]: the answer that the first line which is a
/// valid `$PMTK001` sentence gives by its flag (`NoPacket` at the first line that did not
/// arrive or is not text), or `NoPacket` where none of the first `depth` lines is one. It
/// takes at most `max(depth, 0)` lines, every line before the last one taken is skipped, and
/// the last one taken is the one that decided, unless the search ran out.
pub proof fn lemma_ack_search(depth: i32, cs: Seq<PortConnection>)
    requires
        cs.len() >= depth,
    ensures
        ({
            let (end, taken) = if depth <= 0 {
                ack_search_run(Search::Found(Pmtk001Ack::NoPacket), cs)
            } else {
                ack_search_run(Search::Reading(depth as u32), cs)
            };
            &&& end == Search::Found(ack_outcome(if depth <= 0 { 0 } else { depth as nat }, cs))
            &&& taken <= if depth <= 0 { 0 } else { depth as nat }
            &&& forall|i: int| 0 <= i < taken - 1 ==> #[trigger] ack_scan(&cs[i]) == Scan::<
                Pmtk001Ack,
            >::Skip
            &&& taken > 0 && ack_scan(&cs[taken - 1]) is Stop ==> ack_scan(&cs[taken - 1])
                == Scan::Stop(ack_outcome(depth as nat, cs))
        }),
{
    if depth > 0 {
        lemma_ack_run_reading(depth as u32, cs);
        let taken = ack_search_run(Search::Reading(depth as u32), cs).1;
        lemma_ack_stop_decides(depth as nat, cs, taken - 1);
    }
}

/// Where every line before line `j` is skipped and line `j`, within the allowed lines, stops the
/// search, its value is the outcome.
proof fn lemma_ack_stop_decides(n: nat, cs: Seq<PortConnection>, j: int)
    requires
        0 <= j < n,
        j < cs.len(),
        forall|i: int| 0 <= i < j ==> #[trigger] ack_scan(&cs[i]) == Scan::<Pmtk001Ack>::Skip,
    ensures
        ack_scan(&cs[j]) is Stop ==> ack_scan(&cs[j]) == Scan::Stop(ack_outcome(n, cs)),
    decreases j,
{
    if j > 0 {
        let rest = cs.drop_first();
        assert(ack_scan(&cs[0]) == Scan::<Pmtk001Ack>::Skip);
        assert forall|i: int| 0 <= i < j - 1 implies #[trigger] ack_scan(&rest[i]) == Scan::<
            Pmtk001Ack,
        >::Skip by {
            assert(rest[i] == cs[i + 1]);
        }
        lemma_ack_stop_decides((n - 1) as nat, rest, j - 1);
        assert(rest[j - 1] == cs[j]);
    }
}

// ---------------------------------------------------------------------------------------------
// Decoding query replies
// ---------------------------------------------------------------------------------------------

/// The bytes of a reply, if there is one.
pub open spec fn bytes_of(r: Option<&str>) -> Option<Seq<u8>> {
    match r {
        Some(s) => Some(s.spec_bytes()),
        None => None,
    }
}

/// Whether the last byte of `b` is `c`.
pub open spec fn ends_with_byte(b: Seq<u8>, c: u8) -> bool {
    b.len() > 0 && b.last() == c
}

/// Field `i` read as an `i8`; -1 where it is missing or malformed.
pub open spec fn i8_or_unknown(f: Seq<Seq<u8>>, i: int) -> i8 {
    match int_of(field(f, i), -128, 127) {
        Some(v) => v as i8,
        None => -1i8,
    }
}

/// The differential GPS mode that a reply `$PMTK501,<mode>` gives: `0` none, `1` RTCM, `2`
/// WAAS; unknown for a reply of another length or none.
pub open spec fn dgps_mode_reply(r: Option<Seq<u8>>) -> DgpsMode {
    match r {
        Some(b) => if b.len() != 10 {
            DgpsMode::Unknown
        } else if ends_with_byte(b, 0x30) {
            DgpsMode::NoDgps
        } else if ends_with_byte(b, 0x31) {
            DgpsMode::RTCM
        } else if ends_with_byte(b, 0x32) {
            DgpsMode::WAAS
        } else {
            DgpsMode::Unknown
        },
        None => DgpsMode::Unknown,
    }
}

/// Whether augmentation is on, from a reply `$PMTK513,<flag>`: `1` on, `0` off; unknown for a
/// reply of another length or none.
pub open spec fn sbas_reply(r: Option<Seq<u8>>) -> Sbas {
    match r {
        Some(b) => if b.len() != 10 {
            Sbas::Unknown
        } else if ends_with_byte(b, 0x30) {
            Sbas::Disabled
        } else if ends_with_byte(b, 0x31) {
            Sbas::Enabled
        } else {
            Sbas::Unknown
        },
        None => Sbas::Unknown,
    }
}

/// The augmentation mode from a reply `$PMTK519,<mode>`: `0` testing, `1` integrity.
pub open spec fn sbas_mode_reply(r: Option<Seq<u8>>) -> SbasMode {
    match r {
        Some(b) => if ends_with_byte(b, 0x30) {
            SbasMode::Testing
        } else if ends_with_byte(b, 0x31) {
            SbasMode::Integrity
        } else {
            SbasMode::Unknown
        },
        None => SbasMode::Unknown,
    }
}

/// The output rates from a reply `$PMTK514,...`, laid out as the setting is: after the header,
/// fields 1 to 6 for GLL, RMC, VTG, GGA, GSA, GSV, twelve reserved fields, and field 19 for
/// the channel interval.
pub open spec fn nmea_output_reply(r: Option<Seq<u8>>) -> NmeaOutput {
    match r {
        Some(b) => {
            let f = split_fields(b);
            NmeaOutput {
                gll: i8_or_unknown(f, 1),
                rmc: i8_or_unknown(f, 2),
                vtg: i8_or_unknown(f, 3),
                gga: i8_or_unknown(f, 4),
                gsa: i8_or_unknown(f, 5),
                gsv: i8_or_unknown(f, 6),
                pmtkchn_interval: i8_or_unknown(f, 19),
            }
        },
        None => NmeaOutput {
            gll: -1i8,
            rmc: -1i8,
            vtg: -1i8,
            gga: -1i8,
            gsa: -1i8,
            gsv: -1i8,
            pmtkchn_interval: -1i8,
        },
    }
}

/// The firmware release from a reply `$PMTK705,<release>`: everything after the first nine
/// bytes; empty without a reply, or where the ninth byte does not end a character.
pub open spec fn release_reply(r: Option<Seq<u8>>) -> Seq<u8> {
    match r {
        Some(b) => if b.len() >= 9 && (b.len() == 9 || !is_continuation_byte(b[9])) {
            b.subrange(9, b.len() as int)
        } else {
            Seq::empty()
        },
        None => Seq::empty(),
    }
}

/// The orbit data from a reply `$PMTK707,...`: fields 1 to 9 in order.
pub open spec fn epo_reply(r: Option<Seq<u8>>) -> EpoData {
    let f = match r {
        Some(b) => split_fields(b),
        None => Seq::empty(),
    };
    EpoData {
        set: i8_or_unknown(f, 1),
        fwn_ftow_week_number: i8_or_unknown(f, 2),
        fwn_ftow_tow: i8_or_unknown(f, 3),
        lwn_ltow_week_number: i8_or_unknown(f, 4),
        lwn_ltow_tow: i8_or_unknown(f, 5),
        fcwn_fctow_week_number: i8_or_unknown(f, 6),
        fcwn_fctow_tow: i8_or_unknown(f, 7),
        lcwn_lctow_week_number: i8_or_unknown(f, 8),
        lcwn_lctow_tow: i8_or_unknown(f, 9),
    }
}

/// The navigation speed threshold from a reply `$PMTK527,<threshold>`.
pub open spec fn nav_threshold_reply(r: Option<Seq<u8>>) -> Option<Decimal> {
    match r {
        Some(b) => field_decimal(split_fields(b), 1),
        None => None,
    }
}

/// Whether EASY is on, from a reply `$PMTK869,2,<flag>`: off only for flag `0`.
pub open spec fn easy_reply(r: Option<Seq<u8>>) -> bool {
    match r {
        Some(b) => !field_is(split_fields(b), 2, 0x30),
        None => true,
    }
}

/// The datum from a reply `$PMTK530,<datum>`; 0 (WGS84) where it is missing or malformed.
pub open spec fn datum_reply(r: Option<Seq<u8>>) -> u16 {
    match r {
        Some(b) => match int_of(field(split_fields(b), 1), 0, 65535) {
            Some(v) => v as u16,
            None => 0,
        },
        None => 0,
    }
}

/// The comma-separated fields of `s`.
pub fn fields_of(s: &str) -> (r: Vec<&str>)
    ensures
        views(r@) == split_fields(s.spec_bytes()),
{
    proof {
        let b = s.spec_bytes();
        if b.len() > 0 {
            is_char_boundary_start_end_of_seq(b);
            is_char_boundary_iff_not_is_continuation_byte(b, 0);
        }
        assert(b.subrange(0, b.len() as int) =~= b);
    }
    let n = s.as_bytes().len();
    split_range(s, 0, n)
}

fn i8_field(args: &Vec<&str>, i: usize) -> (r: i8)
    ensures
        r == i8_or_unknown(views(args@), i as int),
{
    match field_bytes(args, i) {
        Some(b) => match parse_int(b, -128, 127) {
            Some(v) => v as i8,
            None => -1,
        },
        None => {
            assert(crate::fields::unsigned_text(Seq::<u8>::empty()) =~= Seq::<u8>::empty());
            -1
        },
    }
}

fn last_byte_is(b: &[u8], c: u8) -> (r: bool)
    ensures
        r == ends_with_byte(b@, c),
{
    b.len() > 0 && b[b.len() - 1] == c
}

/// Decodes the reply to the differential GPS mode query.
pub fn dgps_mode_of(reply: Option<&str>) -> (r: DgpsMode)
    ensures
        r == dgps_mode_reply(bytes_of(reply)),
{
    match reply {
        Some(s) => {
            let b = s.as_bytes();
            if b.len() != 10 {
                DgpsMode::Unknown
            } else if last_byte_is(b, 0x30) {
                DgpsMode::NoDgps
            } else if last_byte_is(b, 0x31) {
                DgpsMode::RTCM
            } else if last_byte_is(b, 0x32) {
                DgpsMode::WAAS
            } else {
                DgpsMode::Unknown
            }
        },
        None => DgpsMode::Unknown,
    }
}

/// Decodes the reply to the augmentation query.
pub fn sbas_of(reply: Option<&str>) -> (r: Sbas)
    ensures
        r == sbas_reply(bytes_of(reply)),
{
    match reply {
        Some(s) => {
            let b = s.as_bytes();
            if b.len() != 10 {
                Sbas::Unknown
            } else if last_byte_is(b, 0x30) {
                Sbas::Disabled
            } else if last_byte_is(b, 0x31) {
                Sbas::Enabled
            } else {
                Sbas::Unknown
            }
        },
        None => Sbas::Unknown,
    }
}

/// Decodes the reply to the augmentation mode query.
pub fn sbas_mode_of(reply: Option<&str>) -> (r: SbasMode)
    ensures
        r == sbas_mode_reply(bytes_of(reply)),
{
    match reply {
        Some(s) => {
            let b = s.as_bytes();
            if last_byte_is(b, 0x30) {
                SbasMode::Testing
            } else if last_byte_is(b, 0x31) {
                SbasMode::Integrity
            } else {
                SbasMode::Unknown
            }
        },
        None => SbasMode::Unknown,
    }
}

/// Decodes the reply to the output rate query.
pub fn nmea_output_of(reply: Option<&str>) -> (r: NmeaOutput)
    ensures
        r == nmea_output_reply(bytes_of(reply)),
{
    match reply {
        Some(s) => {
            let f = fields_of(s);
            NmeaOutput {
                gll: i8_field(&f, 1),
                rmc: i8_field(&f, 2),
                vtg: i8_field(&f, 3),
                gga: i8_field(&f, 4),
                gsa: i8_field(&f, 5),
                gsv: i8_field(&f, 6),
                pmtkchn_interval: i8_field(&f, 19),
            }
        },
        None => NmeaOutput {
            gll: -1,
            rmc: -1,
            vtg: -1,
            gga: -1,
            gsa: -1,
            gsv: -1,
            pmtkchn_interval: -1,
        },
    }
}

/// Decodes the reply to the firmware release query.
pub fn release_of(reply: Option<&str>) -> (r: String)
    ensures
        encode_utf8(r@) == release_reply(bytes_of(reply)),
{
    match reply {
        Some(s) => {
            let b = s.as_bytes();
            if b.len() >= 9 && (b.len() == 9 || !(0x80 <= b[9] && b[9] <= 0xbf)) {
                proof {
                    is_char_boundary_start_end_of_seq(b@);
                    if b@.len() > 0 {
                        is_char_boundary_iff_not_is_continuation_byte(b@, 0);
                    }
                }
                let rest = sub_str(s, 9, b.len());
                rest.to_owned()
            } else {
                String::new()
            }
        },
        None => String::new(),
    }
}

/// Decodes the reply to the orbit data query; -1 for every value without a reply.
pub fn epo_data_of(reply: Option<&str>) -> (r: EpoData)
    ensures
        r == epo_reply(bytes_of(reply)),
{
    let f: Vec<&str> = match reply {
        Some(s) => fields_of(s),
        None => Vec::new(),
    };
    assert(reply is None ==> views(f@) =~= Seq::<Seq<u8>>::empty());
    EpoData {
        set: i8_field(&f, 1),
        fwn_ftow_week_number: i8_field(&f, 2),
        fwn_ftow_tow: i8_field(&f, 3),
        lwn_ltow_week_number: i8_field(&f, 4),
        lwn_ltow_tow: i8_field(&f, 5),
        fcwn_fctow_week_number: i8_field(&f, 6),
        fcwn_fctow_tow: i8_field(&f, 7),
        lcwn_lctow_week_number: i8_field(&f, 8),
        lcwn_lctow_tow: i8_field(&f, 9),
    }
}

/// Decodes the reply to the navigation speed threshold query.
pub fn nav_threshold_of(reply: Option<&str>) -> (r: Option<Decimal>)
    ensures
        r == nav_threshold_reply(bytes_of(reply)),
{
    match reply {
        Some(s) => {
            let f = fields_of(s);
            decimal_field(&f, 1)
        },
        None => None,
    }
}

/// Decodes the reply to the EASY query.
pub fn easy_enabled_of(reply: Option<&str>) -> (r: bool)
    ensures
        r == easy_reply(bytes_of(reply)),
{
    match reply {
        Some(s) => {
            let f = fields_of(s);
            !field_equals(&f, 2, 0x30)
        },
        None => true,
    }
}

/// Decodes the reply to the datum query.
pub fn datum_of(reply: Option<&str>) -> (r: u16)
    ensures
        r == datum_reply(bytes_of(reply)),
{
    match reply {
        Some(s) => {
            let f = fields_of(s);
            match field_bytes(&f, 1) {
                Some(b) => match parse_int(b, 0, 65535) {
                    Some(v) => v as u16,
                    None => 0,
                },
                None => {
                    assert(crate::fields::unsigned_text(Seq::<u8>::empty()) =~= Seq::<u8>::empty());
                    0
                },
            }
        },
        None => 0,
    }
}

} // verus!
