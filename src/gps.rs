//! The receive path: framing bytes into lines, and routing each line to its decoder.
//!
//! Reading from the port is the caller's part. It hands each byte it reads, with the time
//! spent so far, to a [`LineFramer`], and each line it gets back to [`start_update`]; where a
//! satellites-in-view report spans several sentences, it reads one more line for each
//! [`continue_update`] that the returned step asks for.
use vstd::prelude::*;
use vstd::string::StringSliceAdditionalSpecFns;
use vstd::utf8::*;

use crate::nmea::gga::{GgaData, gga_of, is_gga_header, parse_gga};
use crate::nmea::gll::{GllData, gll_of, parse_gll};
use crate::nmea::gsa::{GsaData, gsa_of, parse_gsa};
use crate::nmea::gsv::{Satellites, gsv_of, parse_gsv};
use crate::nmea::rmc::{RmcData, parse_rmc, rmc_of};
use crate::nmea::vtg::{VtgData, parse_vtg, vtg_of};
use crate::nmea::{field, field_bytes, field_i32, i32_field, parse_sentence, sentence_fields, views};
use crate::text::string_from_utf8;

verus! {

/// A line is cut off once it holds more bytes than this.
pub const MAX_LINE: usize = 255;

/// A read that has waited longer than this many milliseconds without a complete line gives up.
pub const SILENCE_MS: u64 = 1000;

/// What one attempt to read a line from the port gave.
#[derive(Debug, PartialEq, Eq)]
pub enum PortConnection {
    /// A complete line, as text.
    Valid(String),
    /// A complete line that is not valid UTF-8, as it came.
    InvalidBytes(Vec<u8>),
    /// No complete line arrived in time.
    NoConnection,
}

/// The result of one update: a decoded sentence or the reason there is none.
#[derive(Debug, PartialEq, Eq)]
pub enum GpsSentence {
    GGA(GgaData),
    VTG(VtgData),
    GSA(GsaData),
    GSV(Vec<Satellites>),
    GLL(GllData),
    RMC(RmcData),
    NoConnection,
    InvalidBytes,
    InvalidSentence,
}

/// The model of a [`GpsSentence`]: the satellites as a sequence.
pub enum Reading {
    GGA(GgaData),
    VTG(VtgData),
    GSA(GsaData),
    GSV(Seq<Satellites>),
    GLL(GllData),
    RMC(RmcData),
    NoConnection,
    InvalidBytes,
    InvalidSentence,
}

impl View for GpsSentence {
    type V = Reading;

    open spec fn view(&self) -> Reading {
        match self {
            GpsSentence::GGA(d) => Reading::GGA(*d),
            GpsSentence::VTG(d) => Reading::VTG(*d),
            GpsSentence::GSA(d) => Reading::GSA(*d),
            GpsSentence::GSV(v) => Reading::GSV(v@),
            GpsSentence::GLL(d) => Reading::GLL(*d),
            GpsSentence::RMC(d) => Reading::RMC(*d),
            GpsSentence::NoConnection => Reading::NoConnection,
            GpsSentence::InvalidBytes => Reading::InvalidBytes,
            GpsSentence::InvalidSentence => Reading::InvalidSentence,
        }
    }
}

// ---------------------------------------------------------------------------------------------
// Framing
// ---------------------------------------------------------------------------------------------

/// The framing rule for one byte, given the bytes held so far: before a `$` bytes are dropped;
/// after it they are kept until a line feed, or until the line passes [`MAX_LINE`] bytes.
/// Gives the bytes held afterwards and the line completed, if any.
pub open spec fn frame_byte(held: Seq<u8>, b: u8) -> (Seq<u8>, Option<Seq<u8>>) {
    if held.len() == 0 && b != 0x24 {
        (held, None)
    } else {
        let line = held.push(b);
        if b == 0x0a || line.len() > MAX_LINE {
            (Seq::empty(), Some(line))
        } else {
            (line, None)
        }
    }
}

/// What a complete line becomes: text where it is valid UTF-8, otherwise its bytes.
pub open spec fn line_result(line: Seq<u8>, r: PortConnection) -> bool {
    if valid_utf8(line) {
        r matches PortConnection::Valid(s) && s@ == decode_utf8(line)
    } else {
        r matches PortConnection::InvalidBytes(v) && v@ == line
    }
}

/// Assembles lines from the bytes read from the port.
pub struct LineFramer {
    held: Vec<u8>,
}

impl View for LineFramer {
    type V = Seq<u8>;

    closed spec fn view(&self) -> Seq<u8> {
        self.held@
    }
}

impl LineFramer {
    /// Whether the bytes held are a line begun and not yet complete.
    pub open spec fn wf(&self) -> bool {
        self@.len() <= MAX_LINE && (self@.len() > 0 ==> self@[0] == 0x24)
    }

    /// A framer holding nothing.
    pub fn new() -> (r: LineFramer)
        ensures
            r@ == Seq::<u8>::empty(),
            r.wf(),
    {
        LineFramer { held: Vec::new() }
    }

    /// Takes one byte; gives the line it completes, if it completes one.
    pub fn push_byte(&mut self, b: u8) -> (r: Option<Vec<u8>>)
        requires
            old(self).wf(),
        ensures
            final(self).wf(),
            final(self)@ == frame_byte(old(self)@, b).0,
            match frame_byte(old(self)@, b).1 {
                Some(line) => r matches Some(v) && v@ == line,
                None => r is None,
            },
    {
        if self.held.len() == 0 && b != 0x24 {
            return None;
        }
        self.held.push(b);
        if b == 0x0a || self.held.len() > MAX_LINE {
            let line = self.held.clone();
            assert(line@ =~= self.held@);
            self.held = Vec::new();
            Some(line)
        } else {
            None
        }
    }

    /// One turn of reading a line: `elapsed_ms` is the time spent on this line so far and `byte`
    /// what the last read gave. Past [`SILENCE_MS`] the attempt ends with `NoConnection` and
    /// what was held is dropped; otherwise a byte that completes a line gives that line.
    pub fn step(&mut self, elapsed_ms: u64, byte: Option<u8>) -> (r: Option<PortConnection>)
        requires
            old(self).wf(),
        ensures
            final(self).wf(),
            elapsed_ms > SILENCE_MS ==> r == Some(PortConnection::NoConnection) && final(self)@
                == Seq::<u8>::empty(),
            elapsed_ms <= SILENCE_MS ==> match byte {
                None => r is None && final(self)@ == old(self)@,
                Some(b) => final(self)@ == frame_byte(old(self)@, b).0 && match frame_byte(
                    old(self)@,
                    b,
                ).1 {
                    Some(line) => r matches Some(c) && line_result(line, c),
                    None => r is None,
                },
            },
    {
        if elapsed_ms > SILENCE_MS {
            self.held = Vec::new();
            return Some(PortConnection::NoConnection);
        }
        match byte {
            None => None,
            Some(b) => match self.push_byte(b) {
                None => None,
                Some(line) => Some(line_to_connection(line)),
            },
        }
    }
}

/// A complete line as text, or as bytes where it is not valid UTF-8.
pub fn line_to_connection(line: Vec<u8>) -> (r: PortConnection)
    ensures
        line_result(line@, r),
{
    let copy = line.clone();
    assert(copy@ =~= line@);
    match string_from_utf8(line) {
        Some(s) => PortConnection::Valid(s),
        None => PortConnection::InvalidBytes(copy),
    }
}

// ---------------------------------------------------------------------------------------------
// Routing
// ---------------------------------------------------------------------------------------------

/// The kinds of sentence that are decoded.
#[derive(Clone, Copy, Debug, PartialEq, Eq)]
pub enum SentenceKind {
    Gga,
    Vtg,
    Gsa,
    Gll,
    Rmc,
    Gsv,
}

/// Whether `h[3..6]` is the three letters `a b c`.
pub open spec fn kind_letters(h: Seq<u8>, a: u8, b: u8, c: u8) -> bool {
    h.len() >= 6 && h[3] == a && h[4] == b && h[5] == c
}

/// The kind of a sentence by its header: the letters after `$` and the two-letter talker,
/// whatever the talker is. `GG` alone marks GGA.
pub open spec fn kind_of(h: Seq<u8>) -> Option<SentenceKind> {
    if is_gga_header(h) {
        Some(SentenceKind::Gga)
    } else if kind_letters(h, 0x56, 0x54, 0x47) {
        Some(SentenceKind::Vtg)
    } else if kind_letters(h, 0x47, 0x53, 0x41) {
        Some(SentenceKind::Gsa)
    } else if kind_letters(h, 0x47, 0x4c, 0x4c) {
        Some(SentenceKind::Gll)
    } else if kind_letters(h, 0x52, 0x4d, 0x43) {
        Some(SentenceKind::Rmc)
    } else if kind_letters(h, 0x47, 0x53, 0x56) {
        Some(SentenceKind::Gsv)
    } else {
        None
    }
}

fn letters_at(h: &[u8], a: u8, b: u8, c: u8) -> (r: bool)
    ensures
        r == kind_letters(h@, a, b, c),
{
    h.len() >= 6 && h[3] == a && h[4] == b && h[5] == c
}

/// Classifies a sentence by its header.
pub fn classify(h: &[u8]) -> (r: Option<SentenceKind>)
    ensures
        r == kind_of(h@),
{
    if h.len() >= 5 && h[3] == 0x47 && h[4] == 0x47 {
        Some(SentenceKind::Gga)
    } else if letters_at(h, 0x56, 0x54, 0x47) {
        Some(SentenceKind::Vtg)
    } else if letters_at(h, 0x47, 0x53, 0x41) {
        Some(SentenceKind::Gsa)
    } else if letters_at(h, 0x47, 0x4c, 0x4c) {
        Some(SentenceKind::Gll)
    } else if letters_at(h, 0x52, 0x4d, 0x43) {
        Some(SentenceKind::Rmc)
    } else if letters_at(h, 0x47, 0x53, 0x56) {
        Some(SentenceKind::Gsv)
    } else {
        None
    }
}

/// The fields of a line that was read as text and is a valid sentence.
pub open spec fn connection_fields(c: &PortConnection) -> Option<Seq<Seq<u8>>> {
    match c {
        PortConnection::Valid(s) => sentence_fields(encode_utf8(s@)),
        _ => None,
    }
}

/// The satellites of a line that is a valid GSV sentence; none for any other line.
pub open spec fn continuation_satellites(c: &PortConnection) -> Seq<Satellites> {
    match connection_fields(c) {
        Some(f) => if kind_of(field(f, 0)) == Some(SentenceKind::Gsv) {
            gsv_of(f)
        } else {
            Seq::empty()
        },
        None => Seq::empty(),
    }
}

/// A satellites-in-view report being collected over several sentences.
pub struct GsvCollect {
    pub satellites: Vec<Satellites>,
    pub remaining: u32,
}

/// Where an update stands: finished, or waiting for more GSV sentences.
pub enum UpdateStep {
    Done(GpsSentence),
    Collecting(GsvCollect),
}

/// The model of an [`UpdateStep`].
pub enum StepView {
    Done(Reading),
    Collecting(Seq<Satellites>, nat),
}

impl View for UpdateStep {
    type V = StepView;

    open spec fn view(&self) -> StepView {
        match self {
            UpdateStep::Done(s) => StepView::Done(s@),
            UpdateStep::Collecting(c) => StepView::Collecting(c.satellites@, c.remaining as nat),
        }
    }
}

/// What the first line of an update gives. A line that did not arrive or is not text is
/// reported as such; a line that is not a valid sentence of a known kind is an invalid
/// sentence, and so is a GGA sentence without time or satellite count, or a GSV sentence without
/// a message count. A GSV sentence that announces `n > 1` messages waits for `n - 1` more.
pub open spec fn start_view(c: &PortConnection) -> StepView {
    match c {
        PortConnection::NoConnection => StepView::Done(Reading::NoConnection),
        PortConnection::InvalidBytes(_) => StepView::Done(Reading::InvalidBytes),
        PortConnection::Valid(_) => match connection_fields(c) {
            None => StepView::Done(Reading::InvalidSentence),
            Some(f) => match kind_of(field(f, 0)) {
                None => StepView::Done(Reading::InvalidSentence),
                Some(SentenceKind::Gga) => match gga_of(f) {
                    Some(d) => StepView::Done(Reading::GGA(d)),
                    None => StepView::Done(Reading::InvalidSentence),
                },
                Some(SentenceKind::Vtg) => StepView::Done(Reading::VTG(vtg_of(f))),
                Some(SentenceKind::Gsa) => StepView::Done(Reading::GSA(gsa_of(f))),
                Some(SentenceKind::Gll) => StepView::Done(Reading::GLL(gll_of(f))),
                Some(SentenceKind::Rmc) => StepView::Done(Reading::RMC(rmc_of(f))),
                Some(SentenceKind::Gsv) => match field_i32(f, 1) {
                    None => StepView::Done(Reading::InvalidSentence),
                    Some(n) => if n <= 1 {
                        StepView::Done(Reading::GSV(gsv_of(f)))
                    } else {
                        StepView::Collecting(gsv_of(f), (n - 1) as nat)
                    },
                },
            },
        },
    }
}

/// What one more line gives to a report that waits for `remaining` more sentences: a valid GSV
/// sentence adds its satellites after those collected, any other line adds none; either way
/// one fewer sentence is awaited.
pub open spec fn continue_view(sats: Seq<Satellites>, remaining: nat, c: &PortConnection) -> StepView {
    let all = sats + continuation_satellites(c);
    if remaining <= 1 {
        StepView::Done(Reading::GSV(all))
    } else {
        StepView::Collecting(all, (remaining - 1) as nat)
    }
}

/// Decodes the first line of an update.
pub fn start_update(c: &PortConnection) -> (r: UpdateStep)
    ensures
        r@ == start_view(c),
{
    match c {
        PortConnection::NoConnection => UpdateStep::Done(GpsSentence::NoConnection),
        PortConnection::InvalidBytes(_) => UpdateStep::Done(GpsSentence::InvalidBytes),
        PortConnection::Valid(s) => {
            let text = s.as_str();
            assert(text.spec_bytes() == encode_utf8(s@));
            match parse_sentence(text) {
                None => UpdateStep::Done(GpsSentence::InvalidSentence),
                Some(f) => {
                    let kind = match field_bytes(&f, 0) {
                        Some(h) => classify(h),
                        None => {
                            assert(field(views(f@), 0) =~= Seq::<u8>::empty());
                            None
                        },
                    };
                    match kind {
                        None => UpdateStep::Done(GpsSentence::InvalidSentence),
                        Some(SentenceKind::Gga) => match parse_gga(f) {
                            Some(d) => UpdateStep::Done(GpsSentence::GGA(d)),
                            None => UpdateStep::Done(GpsSentence::InvalidSentence),
                        },
                        Some(SentenceKind::Vtg) => UpdateStep::Done(GpsSentence::VTG(parse_vtg(f))),
                        Some(SentenceKind::Gsa) => UpdateStep::Done(GpsSentence::GSA(parse_gsa(f))),
                        Some(SentenceKind::Gll) => UpdateStep::Done(GpsSentence::GLL(parse_gll(f))),
                        Some(SentenceKind::Rmc) => UpdateStep::Done(GpsSentence::RMC(parse_rmc(f))),
                        Some(SentenceKind::Gsv) => {
                            let count = i32_field(&f, 1);
                            match count {
                                None => UpdateStep::Done(GpsSentence::InvalidSentence),
                                Some(n) => {
                                    let sats = parse_gsv(f);
                                    if n <= 1 {
                                        UpdateStep::Done(GpsSentence::GSV(sats))
                                    } else {
                                        UpdateStep::Collecting(
                                            GsvCollect { satellites: sats, remaining: (n - 1) as u32 },
                                        )
                                    }
                                },
                            }
                        },
                    }
                },
            }
        },
    }
}

/// The satellites of a line that is a valid GSV sentence; none otherwise.
fn satellites_of_line(c: &PortConnection) -> (r: Vec<Satellites>)
    ensures
        r@ == continuation_satellites(c),
{
    match c {
        PortConnection::Valid(s) => {
            let text = s.as_str();
            assert(text.spec_bytes() == encode_utf8(s@));
            match parse_sentence(text) {
                None => Vec::new(),
                Some(f) => {
                    let is_gsv = match field_bytes(&f, 0) {
                        Some(h) => matches!(classify(h), Some(SentenceKind::Gsv)),
                        None => {
                            assert(field(views(f@), 0) =~= Seq::<u8>::empty());
                            false
                        },
                    };
                    if is_gsv {
                        parse_gsv(f)
                    } else {
                        Vec::new()
                    }
                },
            }
        },
        _ => Vec::new(),
    }
}

/// Adds one more line to a report being collected.
pub fn continue_update(collect: GsvCollect, c: &PortConnection) -> (r: UpdateStep)
    ensures
        r@ == continue_view(collect.satellites@, collect.remaining as nat, c),
{
    let mut satellites = collect.satellites;
    let mut more = satellites_of_line(c);
    let ghost before = satellites@;
    let ghost added = more@;
    satellites.append(&mut more);
    assert(satellites@ =~= before + added);
    if collect.remaining <= 1 {
        UpdateStep::Done(GpsSentence::GSV(satellites))
    } else {
        UpdateStep::Collecting(GsvCollect { satellites, remaining: collect.remaining - 1 })
    }
}

/// A satellites-in-view report sent as three sentences, each announcing three messages, comes
/// out as one list: the satellites of the first, then the second, then the third sentence.
pub proof fn lemma_gsv_three_fragments(a: &PortConnection, b: &PortConnection, c: &PortConnection)
    requires
        connection_fields(a) matches Some(f) && kind_of(field(f, 0)) == Some(SentenceKind::Gsv)
            && field_i32(f, 1) == Some(3i32),
        connection_fields(b) matches Some(f) && kind_of(field(f, 0)) == Some(SentenceKind::Gsv)
            && field_i32(f, 1) == Some(3i32),
        connection_fields(c) matches Some(f) && kind_of(field(f, 0)) == Some(SentenceKind::Gsv)
            && field_i32(f, 1) == Some(3i32),
    ensures
        ({
            let s1 = continuation_satellites(a);
            let s2 = continuation_satellites(b);
            let s3 = continuation_satellites(c);
            &&& start_view(a) == StepView::Collecting(s1, 2)
            &&& continue_view(s1, 2, b) == StepView::Collecting(s1 + s2, 1)
            &&& continue_view(s1 + s2, 1, c) == StepView::Done(Reading::GSV(s1 + s2 + s3))
        }),
{
}

} // verus!
