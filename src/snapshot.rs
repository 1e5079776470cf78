//! A snapshot of the receiver's state, filled sentence by sentence until every kind of data
//! asked for has arrived at least once.
//!
//! The caller seeds a [`Snapshot`] with the categories it wants and hands it each decoded
//! sentence; it reads on while [`Snapshot::is_complete`] is false. Each category leaves the
//! pending list the first time a sentence of it arrives, so a stream that carries every wanted
//! kind completes the snapshot.
use vstd::prelude::*;

use crate::gps::{GpsSentence, Reading};
use crate::nmea::gga::GgaData;
use crate::nmea::gsa::GsaData;
use crate::nmea::gsv::Satellites;
use crate::nmea::vtg::VtgData;

verus! {

/// The kinds of data a snapshot collects.
#[derive(Clone, Copy, Debug, PartialEq, Eq, Structural)]
pub enum Category {
    /// Position, from GGA.
    Position,
    /// Course and speed, from VTG.
    Course,
    /// Dilution of precision, from GSA.
    Precision,
    /// Satellites in view, from GSV.
    Satellites,
}

/// The category a reading fills, if any.
pub open spec fn category_of(r: Reading) -> Option<Category> {
    match r {
        Reading::GGA(_) => Some(Category::Position),
        Reading::VTG(_) => Some(Category::Course),
        Reading::GSA(_) => Some(Category::Precision),
        Reading::GSV(_) => Some(Category::Satellites),
        _ => None,
    }
}

/// `p` with every `c` removed, the rest in order.
pub open spec fn without(p: Seq<Category>, c: Category) -> Seq<Category>
    decreases p.len(),
{
    if p.len() == 0 {
        p
    } else if p.last() == c {
        without(p.drop_last(), c)
    } else {
        without(p.drop_last(), c).push(p.last())
    }
}

/// The latest value of each category, and the categories still awaited.
pub struct Snapshot {
    pub position: Option<GgaData>,
    pub course: Option<VtgData>,
    pub precision: Option<GsaData>,
    pub satellites: Option<Vec<Satellites>>,
    pub pending: Vec<Category>,
}

impl Snapshot {
    /// An empty snapshot awaiting the categories `wanted`.
    pub fn new(wanted: Vec<Category>) -> (r: Snapshot)
        ensures
            r.pending@ == wanted@,
            r.position is None,
            r.course is None,
            r.precision is None,
            r.satellites is None,
    {
        Snapshot { position: None, course: None, precision: None, satellites: None, pending: wanted }
    }

    /// Whether every category asked for has arrived.
    pub fn is_complete(&self) -> (r: bool)
        ensures
            r == (self.pending@.len() == 0),
    {
        self.pending.len() == 0
    }

    /// Takes one decoded sentence: it becomes the latest value of its category, which is no
    /// longer awaited. Sentences of other kinds, and failed reads, change nothing.
    pub fn absorb(&mut self, s: GpsSentence)
        ensures
            final(self).pending@ == match category_of(s@) {
                Some(c) => without(old(self).pending@, c),
                None => old(self).pending@,
            },
            final(self).position == match s {
                GpsSentence::GGA(d) => Some(d),
                _ => old(self).position,
            },
            final(self).course == match s {
                GpsSentence::VTG(d) => Some(d),
                _ => old(self).course,
            },
            final(self).precision == match s {
                GpsSentence::GSA(d) => Some(d),
                _ => old(self).precision,
            },
            match s {
                GpsSentence::GSV(v) => final(self).satellites == Some(v),
                _ => final(self).satellites == old(self).satellites,
            },
    {
        match s {
            GpsSentence::GGA(d) => {
                self.position = Some(d);
                self.remove(Category::Position);
            },
            GpsSentence::VTG(d) => {
                self.course = Some(d);
                self.remove(Category::Course);
            },
            GpsSentence::GSA(d) => {
                self.precision = Some(d);
                self.remove(Category::Precision);
            },
            GpsSentence::GSV(v) => {
                self.satellites = Some(v);
                self.remove(Category::Satellites);
            },
            _ => {},
        }
    }

    fn remove(&mut self, c: Category)
        ensures
            final(self).pending@ == without(old(self).pending@, c),
            final(self).position == old(self).position,
            final(self).course == old(self).course,
            final(self).precision == old(self).precision,
            final(self).satellites == old(self).satellites,
    {
        let mut kept: Vec<Category> = Vec::new();
        let mut i: usize = 0;
        while i < self.pending.len()
            invariant
                i <= self.pending@.len(),
                kept@ == without(self.pending@.subrange(0, i as int), c),
            decreases self.pending@.len() - i,
        {
            let x = self.pending[i];
            assert(self.pending@.subrange(0, i + 1).drop_last() =~= self.pending@.subrange(
                0,
                i as int,
            ));
            if x != c {
                kept.push(x);
            }
            i = i + 1;
        }
        assert(self.pending@.subrange(0, self.pending@.len() as int) =~= self.pending@);
        self.pending = kept;
    }
}

proof fn lemma_contains_push(s: Seq<Category>, a: Category, x: Category)
    ensures
        s.push(a).contains(x) <==> (s.contains(x) || a == x),
{
    if s.contains(x) {
        let k = choose|k: int| 0 <= k < s.len() && s[k] == x;
        assert(s.push(a)[k] == x);
    }
    if a == x {
        assert(s.push(a)[s.len() as int] == x);
    }
    if s.push(a).contains(x) {
        let k = choose|k: int| 0 <= k < s.push(a).len() && s.push(a)[k] == x;
        if k < s.len() {
            assert(s[k] == x);
        }
    }
}

/// Once a sentence of a category has arrived, that category is no longer awaited; the other
/// categories awaited stay so; and where the category was awaited, fewer categories remain.
/// So a stream that carries every wanted kind completes the snapshot.
pub proof fn lemma_without(p: Seq<Category>, c: Category)
    ensures
        !without(p, c).contains(c),
        forall|x: Category| x != c ==> (without(p, c).contains(x) <==> p.contains(x)),
        without(p, c).len() <= p.len(),
        p.contains(c) ==> without(p, c).len() < p.len(),
    decreases p.len(),
{
    if p.len() > 0 {
        let q = p.drop_last();
        let l = p.last();
        lemma_without(q, c);
        assert(p =~= q.push(l));
        assert forall|x: Category| x != c implies (without(p, c).contains(x) <==> p.contains(x)) by {
            lemma_contains_push(q, l, x);
            assert(without(q, c).contains(x) <==> q.contains(x));
            if l != c {
                lemma_contains_push(without(q, c), l, x);
            }
        }
        lemma_contains_push(q, l, c);
        if l != c {
            lemma_contains_push(without(q, c), l, c);
        }
    }
}

} // verus!
