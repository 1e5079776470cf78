//! Finding the baud rate the receiver currently speaks.
//!
//! After a power cycle the rate is unknown. The caller opens the port at each candidate rate
//! in turn and reads a few sentences; the first genuine sentence shows the rate. The caller then
//! sends the baud-rate change and reopens the port at the new rate.
use vstd::prelude::*;

use crate::gps::{GpsSentence, Reading};

verus! {

/// How many readings are tried at each rate.
pub const PROBE_READS: u32 = 5;

/// The rates tried, in order.
pub open spec fn baud_candidates() -> Seq<u32> {
    seq![4800u32, 9600u32, 14400u32, 19200u32, 38400u32, 57600u32, 115200u32]
}

/// The rate at position `i` of the candidates.
pub fn baud_candidate(i: usize) -> (r: u32)
    requires
        i < 7,
    ensures
        r == baud_candidates()[i as int],
{
    match i {
        0 => 4800,
        1 => 9600,
        2 => 14400,
        3 => 19200,
        4 => 38400,
        5 => 57600,
        _ => 115200,
    }
}

/// Whether a reading is a real sentence, which shows that the port and receiver agree on the
/// rate.
pub open spec fn is_sentence(r: Reading) -> bool {
    !(r is NoConnection || r is InvalidBytes || r is InvalidSentence)
}

/// What to do next while probing.
#[derive(Clone, Copy, Debug, PartialEq, Eq)]
pub enum ProbeStep {
    /// Read another sentence at the same rate.
    ReadAgain,
    /// Reopen the port at this rate and read.
    Reopen(u32),
    /// The receiver speaks this rate.
    Found(u32),
    /// No candidate rate worked.
    Fail,
}

/// The probe: which candidate is being tried and how many readings at it failed.
pub struct BaudProbe {
    index: usize,
    failures: u32,
}

impl View for BaudProbe {
    type V = (nat, nat);

    closed spec fn view(&self) -> (nat, nat) {
        (self.index as nat, self.failures as nat)
    }
}

/// The probe after one reading, from candidate `i` with `k` failed readings: a genuine sentence
/// ends it at that rate; after the last failure allowed at a rate it moves to the next rate, and
/// after the last rate it fails.
pub open spec fn probe_after(i: nat, k: nat, genuine: bool) -> ((nat, nat), ProbeStep) {
    if genuine {
        ((i, k), ProbeStep::Found(baud_candidates()[i as int]))
    } else if k + 1 < PROBE_READS {
        ((i, k + 1), ProbeStep::ReadAgain)
    } else if i + 1 < 7 {
        ((i + 1, 0), ProbeStep::Reopen(baud_candidates()[i + 1 as int]))
    } else {
        ((7, 0), ProbeStep::Fail)
    }
}

impl BaudProbe {
    /// Whether the probe is still running.
    pub open spec fn running(&self) -> bool {
        self@.0 < 7 && self@.1 < PROBE_READS
    }

    /// A probe at the first candidate.
    pub fn new() -> (r: BaudProbe)
        ensures
            r@ == (0nat, 0nat),
            r.running(),
    {
        BaudProbe { index: 0, failures: 0 }
    }

    /// The rate being tried.
    pub fn rate(&self) -> (r: u32)
        requires
            self.running(),
        ensures
            r == baud_candidates()[self@.0 as int],
    {
        baud_candidate(self.index)
    }

    /// Takes the reading made at the current rate and says what to do next.
    pub fn observe(&mut self, reading: &GpsSentence) -> (r: ProbeStep)
        requires
            old(self).running(),
        ensures
            (final(self)@, r) == probe_after(old(self)@.0, old(self)@.1, is_sentence(reading@)),
            r is ReadAgain || r is Reopen ==> final(self).running(),
    {
        let genuine = match reading {
            GpsSentence::NoConnection | GpsSentence::InvalidBytes | GpsSentence::InvalidSentence =>
                false,
            _ => true,
        };
        if genuine {
            ProbeStep::Found(baud_candidate(self.index))
        } else if self.failures + 1 < PROBE_READS {
            self.failures = self.failures + 1;
            ProbeStep::ReadAgain
        } else if self.index + 1 < 7 {
            self.index = self.index + 1;
            self.failures = 0;
            ProbeStep::Reopen(baud_candidate(self.index))
        } else {
            self.index = 7;
            self.failures = 0;
            ProbeStep::Fail
        }
    }
}

} // verus!
