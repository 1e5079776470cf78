//! The XOR checksum shared by NMEA sentences and PMTK commands.
use vstd::prelude::*;
use vstd::string::StringSliceAdditionalSpecFns;

verus! {

/// Running XOR of every byte of `s`.
pub open spec fn xor_bytes(s: Seq<u8>) -> u8
    decreases s.len(),
{
    if s.len() == 0 {
        0
    } else {
        xor_bytes(s.drop_last()) ^ s.last()
    }
}

/// Value of an ASCII hexadecimal digit of either case.
pub open spec fn hex_value(b: u8) -> Option<u8> {
    if 0x30 <= b <= 0x39 {
        Some((b - 0x30) as u8)
    } else if 0x41 <= b <= 0x46 {
        Some((b - 0x41 + 10) as u8)
    } else if 0x61 <= b <= 0x66 {
        Some((b - 0x61 + 10) as u8)
    } else {
        None
    }
}

/// ASCII whitespace: tab, line feed, vertical tab, form feed, carriage return, space.
pub open spec fn is_space(b: u8) -> bool {
    b == 9 || b == 10 || b == 11 || b == 12 || b == 13 || b == 32
}

/// Index of the first byte at or after `i` that is not whitespace.
pub open spec fn skip_space(s: Seq<u8>, i: int) -> int
    decreases s.len() - i,
{
    if 0 <= i < s.len() && is_space(s[i]) {
        skip_space(s, i + 1)
    } else {
        i
    }
}

/// End of `s[lo..j]` once trailing whitespace is dropped.
pub open spec fn drop_space(s: Seq<u8>, lo: int, j: int) -> int
    decreases j - lo,
{
    if lo < j && j <= s.len() && is_space(s[j - 1]) {
        drop_space(s, lo, j - 1)
    } else {
        j
    }
}

/// Start of `s` once leading whitespace is dropped.
pub open spec fn trim_start(s: Seq<u8>) -> int {
    skip_space(s, 0)
}

/// End of `s` once trailing whitespace is dropped.
pub open spec fn trim_end(s: Seq<u8>) -> int {
    drop_space(s, trim_start(s), s.len() as int)
}

/// `s` without leading and trailing ASCII whitespace.
pub open spec fn trim(s: Seq<u8>) -> Seq<u8> {
    s.subrange(trim_start(s), trim_end(s))
}

/// The checksum that the two hex digits at the end of a frame announce.
pub open spec fn announced_checksum(t: Seq<u8>) -> u8
    recommends
        t.len() >= 2,
        hex_value(t[t.len() - 2]) is Some,
        hex_value(t[t.len() - 1]) is Some,
{
    (hex_value(t[t.len() - 2])->0 * 16 + hex_value(t[t.len() - 1])->0) as u8
}

/// The body of a frame: what lies between the start marker and the `*`.
pub open spec fn frame_body(t: Seq<u8>) -> Seq<u8> {
    t.subrange(1, t.len() - 3)
}

/// A trimmed line `t` of the form `$<body>*HH` whose two hex digits give the XOR of the body.
/// The first byte is taken as the start marker and is not part of the checksum.
pub open spec fn frame_valid(t: Seq<u8>) -> bool {
    &&& t.len() >= 6
    &&& t[t.len() - 3] == 0x2a
    &&& hex_value(t[t.len() - 2]) is Some
    &&& hex_value(t[t.len() - 1]) is Some
    &&& xor_bytes(frame_body(t)) == announced_checksum(t)
}

/// A line whose trimmed form is a valid frame.
pub open spec fn line_valid(s: Seq<u8>) -> bool {
    frame_valid(trim(s))
}

/// XOR of the bytes `b[from..to]`.
pub fn xor_range(b: &[u8], from: usize, to: usize) -> (r: u8)
    requires
        from <= to <= b@.len(),
    ensures
        r == xor_bytes(b@.subrange(from as int, to as int)),
{
    let mut acc: u8 = 0;
    let mut i: usize = from;
    while i < to
        invariant
            from <= i <= to <= b@.len(),
            acc == xor_bytes(b@.subrange(from as int, i as int)),
        decreases to - i,
    {
        assert(b@.subrange(from as int, i + 1).drop_last() =~= b@.subrange(from as int, i as int));
        acc = acc ^ b[i];
        i = i + 1;
    }
    acc
}

/// Running XOR of every byte of `body`: the checksum of a sentence body.
pub fn checksum_of(body: &[u8]) -> (r: u8)
    ensures
        r == xor_bytes(body@),
{
    assert(body@.subrange(0, body@.len() as int) =~= body@);
    xor_range(body, 0, body.len())
}

/// Value of an ASCII hex digit.
pub fn hex_digit_value(b: u8) -> (r: Option<u8>)
    ensures
        r == hex_value(b),
{
    if 0x30 <= b && b <= 0x39 {
        Some(b - 0x30)
    } else if 0x41 <= b && b <= 0x46 {
        Some(b - 0x41 + 10)
    } else if 0x61 <= b && b <= 0x66 {
        Some(b - 0x61 + 10)
    } else {
        None
    }
}

/// Whether `b` is ASCII whitespace.
pub fn is_space_byte(b: u8) -> (r: bool)
    ensures
        r == is_space(b),
{
    b == 9 || b == 10 || b == 11 || b == 12 || b == 13 || b == 32
}

/// Bounds of `b` without its leading and trailing whitespace.
pub fn trim_bounds(b: &[u8]) -> (r: (usize, usize))
    ensures
        r.0 == trim_start(b@),
        r.1 == trim_end(b@),
        r.0 <= r.1 <= b@.len(),
{
    let n = b.len();
    let mut a: usize = 0;
    while a < n && is_space_byte(b[a])
        invariant
            a <= n == b@.len(),
            skip_space(b@, 0) == skip_space(b@, a as int),
        decreases n - a,
    {
        a = a + 1;
    }
    let mut e: usize = n;
    while e > a && is_space_byte(b[e - 1])
        invariant
            a <= e <= n == b@.len(),
            a == trim_start(b@),
            drop_space(b@, a as int, n as int) == drop_space(b@, a as int, e as int),
        decreases e - a,
    {
        e = e - 1;
    }
    (a, e)
}

/// Whether `b[from..to]` is a valid frame.
pub fn frame_valid_range(b: &[u8], from: usize, to: usize) -> (r: bool)
    requires
        from <= to <= b@.len(),
    ensures
        r == frame_valid(b@.subrange(from as int, to as int)),
{
    let ghost t = b@.subrange(from as int, to as int);
    if to - from < 6 {
        return false;
    }
    if b[to - 3] != 0x2a {
        return false;
    }
    let hi = hex_digit_value(b[to - 2]);
    let lo = hex_digit_value(b[to - 1]);
    match (hi, lo) {
        (Some(h), Some(l)) => {
            let expected: u8 = h * 16 + l;
            let actual = xor_range(b, from + 1, to - 3);
            assert(frame_body(t) =~= b@.subrange(from + 1, to - 3));
            actual == expected
        },
        _ => false,
    }
}

/// Whether a line's trimmed bytes are a valid frame.
pub fn line_is_valid(b: &[u8]) -> (r: bool)
    ensures
        r == line_valid(b@),
{
    let (a, e) = trim_bounds(b);
    frame_valid_range(b, a, e)
}

/// Checks that `s`, once trimmed, is a sentence `$<body>*HH` whose two hex digits give the XOR
/// of the body's bytes.
pub fn is_valid_checksum(s: &str) -> (r: bool)
    ensures
        r == line_valid(s.spec_bytes()),
{
    line_is_valid(s.as_bytes())
}

} // verus!

verus! {

/// A valid frame whose last checksum digit is replaced by a hex digit of another value is no
/// longer valid: the checksum catches a change of either digit.
pub proof fn lemma_changed_digit_invalid(t: Seq<u8>, d: u8)
    requires
        frame_valid(t),
        hex_value(d) is Some,
        hex_value(d)->0 != hex_value(t[t.len() - 1])->0,
    ensures
        !frame_valid(t.update(t.len() - 1, d)),
{
    let u = t.update(t.len() - 1, d);
    assert(frame_body(u) =~= frame_body(t));
    assert(u[u.len() - 2] == t[t.len() - 2]);
    let h = hex_value(t[t.len() - 2])->0;
    assert(h < 16);
    assert(hex_value(d)->0 < 16);
    assert(hex_value(t[t.len() - 1])->0 < 16);
}

} // verus!
