//! NMEA-0183 sentences: splitting a validated line into its fields, and one decoder per
//! sentence kind.
//!
//! A sentence is `$<talker><kind>,<field>,...,<field>*HH`. Its fields are modelled as the byte
//! sequences between commas, the header (`$GPGGA`) first and the checksum left out.
use vstd::prelude::*;
use vstd::string::StringSliceAdditionalSpecFns;
use vstd::utf8::*;

use crate::checksum::{frame_valid, frame_valid_range, trim, trim_bounds};
use crate::fields::{Decimal, decimal_of, degrees_of, int_of, parse_decimal, parse_int, _parse_degrees};
use crate::text::{lemma_after_ascii, sub_str};

pub mod gga;
pub mod gll;
pub mod gsa;
pub mod gsv;
pub mod rmc;
pub mod vtg;

verus! {

broadcast use encode_utf8_valid_utf8;

/// The fields of `s`, split at commas, scanning from `i` inside a field that began at `start`.
pub open spec fn split_from(s: Seq<u8>, start: int, i: int) -> Seq<Seq<u8>>
    decreases s.len() - i,
{
    if i >= s.len() {
        seq![s.subrange(start, s.len() as int)]
    } else if s[i] == 0x2c {
        seq![s.subrange(start, i)] + split_from(s, i + 1, i + 1)
    } else {
        split_from(s, start, i + 1)
    }
}

/// `s` split at every comma: one more field than there are commas.
pub open spec fn split_fields(s: Seq<u8>) -> Seq<Seq<u8>> {
    split_from(s, 0, 0)
}

/// The fields of a line: once trimmed it must be a valid frame; its checksum is dropped and
/// the rest split at commas.
pub open spec fn sentence_fields(s: Seq<u8>) -> Option<Seq<Seq<u8>>> {
    let t = trim(s);
    if frame_valid(t) {
        Some(split_fields(t.subrange(0, t.len() - 3)))
    } else {
        None
    }
}

/// The bytes of each field.
pub open spec fn views(v: Seq<&str>) -> Seq<Seq<u8>> {
    v.map_values(|p: &str| p.spec_bytes())
}

/// Field `i`, or nothing where the sentence is shorter.
pub open spec fn field(f: Seq<Seq<u8>>, i: int) -> Seq<u8> {
    if 0 <= i < f.len() {
        f[i]
    } else {
        Seq::empty()
    }
}

/// Field `i` read as a decimal number.
pub open spec fn field_decimal(f: Seq<Seq<u8>>, i: int) -> Option<Decimal> {
    decimal_of(field(f, i))
}

/// Field `i` read as an `i32`.
pub open spec fn field_i32(f: Seq<Seq<u8>>, i: int) -> Option<i32> {
    match int_of(field(f, i), i32::MIN as int, i32::MAX as int) {
        Some(v) => Some(v as i32),
        None => None,
    }
}

/// Whether field `i` is exactly the one byte `c`.
pub open spec fn field_is(f: Seq<Seq<u8>>, i: int, c: u8) -> bool {
    field(f, i) == seq![c]
}

/// Validates a line and splits it into its fields: the header first, the checksum dropped.
/// `None` when the trimmed line is not a valid frame.
pub fn parse_sentence(sentence: &str) -> (r: Option<Vec<&str>>)
    ensures
        r is Some <==> sentence_fields(sentence.spec_bytes()) is Some,
        r matches Some(v) ==> views(v@) == sentence_fields(sentence.spec_bytes())->0,
{
    let b = sentence.as_bytes();
    let ghost bs = b@;
    let (a, e) = trim_bounds(b);
    if !frame_valid_range(b, a, e) {
        return None;
    }
    let end = e - 3;
    let ghost body = bs.subrange(a as int, end as int);
    assert(trim(bs).subrange(0, trim(bs).len() - 3) =~= body);
    proof {
        if a > 0 {
            assert(bs[a - 1] == 9 || bs[a - 1] == 10 || bs[a - 1] == 11 || bs[a - 1] == 12
                || bs[a - 1] == 13 || bs[a - 1] == 32) by {
                lemma_trim_start_space(bs, a as int);
            }
            lemma_after_ascii(bs, a - 1);
        }
        assert(bs[end as int] == 0x2a);
    }
    let pieces = split_range(sentence, a, end);
    Some(pieces)
}

/// The comma-separated fields of `s[from..to]`. Neither offset may fall inside a character's
/// encoding.
pub fn split_range<'a>(s: &'a str, from: usize, to: usize) -> (r: Vec<&'a str>)
    requires
        from <= to <= s.spec_bytes().len(),
        from < s.spec_bytes().len() ==> !is_continuation_byte(s.spec_bytes()[from as int]),
        to < s.spec_bytes().len() ==> !is_continuation_byte(s.spec_bytes()[to as int]),
    ensures
        views(r@) == split_fields(s.spec_bytes().subrange(from as int, to as int)),
{
    let b = s.as_bytes();
    let ghost bs = b@;
    let ghost body = bs.subrange(from as int, to as int);
    let mut pieces: Vec<&str> = Vec::new();
    let mut start = from;
    let mut i = from;
    while i < to
        invariant
            from <= start <= i <= to <= bs.len(),
            bs == s.spec_bytes(),
            b@ == bs,
            body == bs.subrange(from as int, to as int),
            to < bs.len() ==> !is_continuation_byte(bs[to as int]),
            start < bs.len() ==> !is_continuation_byte(bs[start as int]),
            views(pieces@) + split_from(body, start - from, i - from) == split_fields(body),
        decreases to - i,
    {
        let ghost rest = split_from(body, start - from, i - from);
        if b[i] == 0x2c {
            proof {
                lemma_after_ascii(bs, i as int);
            }
            let piece = sub_str(s, start, i);
            assert(body.subrange(start - from, i - from) =~= bs.subrange(start as int, i as int));
            assert(views(pieces@.push(piece)) =~= views(pieces@) + seq![piece.spec_bytes()]);
            pieces.push(piece);
            assert(rest == seq![body.subrange(start - from, i - from)] + split_from(
                body,
                i + 1 - from,
                i + 1 - from,
            ));
            assert(views(pieces@) + split_from(body, i + 1 - from, i + 1 - from) =~= views(
                pieces@.drop_last(),
            ) + rest);
            start = i + 1;
        } else {
            assert(rest == split_from(body, start - from, i + 1 - from));
        }
        i = i + 1;
    }
    let piece = sub_str(s, start, to);
    assert(body.subrange(start - from, to - from) =~= bs.subrange(start as int, to as int));
    assert(split_from(body, start - from, to - from) == seq![body.subrange(start - from, to - from)]);
    assert(views(pieces@.push(piece)) =~= views(pieces@) + seq![piece.spec_bytes()]);
    pieces.push(piece);
    pieces
}

proof fn lemma_trim_start_space(s: Seq<u8>, a: int)
    requires
        0 < a,
        a == crate::checksum::trim_start(s),
    ensures
        crate::checksum::is_space(s[a - 1]),
{
    lemma_skip_space_prefix(s, 0, a);
}

proof fn lemma_skip_space_prefix(s: Seq<u8>, i: int, a: int)
    requires
        0 <= i <= a,
        a == crate::checksum::skip_space(s, i),
        i < a,
    ensures
        crate::checksum::is_space(s[a - 1]),
    decreases a - i,
{
    if i + 1 < a {
        lemma_skip_space_prefix(s, i + 1, a);
    }
}

/// Field `i` of `args`, as bytes; `None` where `args` is shorter.
pub fn field_bytes<'a>(args: &Vec<&'a str>, i: usize) -> (r: Option<&'a [u8]>)
    ensures
        i < args@.len() ==> (r matches Some(b) && b@ == field(views(args@), i as int)),
        i >= args@.len() ==> r is None,
{
    if i < args.len() {
        Some(args[i].as_bytes())
    } else {
        None
    }
}

/// Field `i` of `args` read as a decimal number.
pub fn decimal_field(args: &Vec<&str>, i: usize) -> (r: Option<Decimal>)
    ensures
        r == field_decimal(views(args@), i as int),
{
    match field_bytes(args, i) {
        Some(b) => parse_decimal(b),
        None => {
            assert(crate::fields::int_part(Seq::<u8>::empty()) =~= Seq::<u8>::empty());
            assert(crate::fields::unsigned_text(Seq::<u8>::empty()) =~= Seq::<u8>::empty());
            None
        },
    }
}

/// Field `i` of `args` read as an `i32`.
pub fn i32_field(args: &Vec<&str>, i: usize) -> (r: Option<i32>)
    ensures
        r == field_i32(views(args@), i as int),
{
    match field_bytes(args, i) {
        Some(b) => match parse_int(b, i32::MIN as i64, i32::MAX as i64) {
            Some(v) => Some(v as i32),
            None => None,
        },
        None => {
            assert(crate::fields::unsigned_text(Seq::<u8>::empty()) =~= Seq::<u8>::empty());
            None
        },
    }
}

/// Whether field `i` of `args` is exactly the byte `c`.
pub fn field_equals(args: &Vec<&str>, i: usize, c: u8) -> (r: bool)
    ensures
        r == field_is(views(args@), i as int, c),
{
    match field_bytes(args, i) {
        Some(b) => {
            if b.len() == 1 && b[0] == c {
                assert(b@ =~= seq![c]);
                true
            } else {
                proof {
                    if b@ == seq![c] {
                        assert(b@.len() == 1 && b@[0] == c);
                    }
                }
                false
            }
        },
        None => {
            assert(field(views(args@), i as int).len() == 0);
            false
        },
    }
}

/// The coordinate in fields `i` (value) and `i + 1` (hemisphere) of `args`.
pub fn degrees_field(args: &Vec<&str>, i: usize) -> (r: Option<Decimal>)
    requires
        i < usize::MAX,
    ensures
        r == degrees_of(field(views(args@), i as int), field(views(args@), i + 1)),
{
    if i + 1 < args.len() {
        _parse_degrees(args[i], args[i + 1])
    } else {
        let ghost h = field(views(args@), i + 1);
        assert(h.len() == 0);
        assert(h != seq![0x4eu8] && h != seq![0x45u8] && h != seq![0x53u8] && h != seq![0x57u8]) by {
            assert(seq![0x4eu8].len() == 1);
            assert(seq![0x45u8].len() == 1);
            assert(seq![0x53u8].len() == 1);
            assert(seq![0x57u8].len() == 1);
        }
        None
    }
}

} // verus!
