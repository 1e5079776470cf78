//! Framing of outbound PMTK commands: `$<BODY>*HH\r\n`.
use vstd::prelude::*;
use vstd::string::{StringExecFns, StringSliceAdditionalSpecFns};
use vstd::utf8::*;

use crate::checksum::{
    announced_checksum, checksum_of, drop_space, frame_body, hex_value, is_space, line_valid, skip_space,
    trim, trim_end, trim_start, xor_bytes,
};
use crate::text::{all_ascii, ascii_chars, ascii_string, lemma_ascii_utf8, lemma_encode_concat};

verus! {

/// ASCII upper case: the letters a to z become A to Z, every other character stays.
pub open spec fn ascii_upper(c: char) -> char {
    if 'a' <= c <= 'z' {
        ((c as u32) - 32) as char
    } else {
        c
    }
}

/// `s` with its ASCII letters in upper case.
pub open spec fn upper_chars(s: Seq<char>) -> Seq<char> {
    s.map_values(|c: char| ascii_upper(c))
}

/// The upper-case ASCII hex digit for a value below 16.
pub open spec fn hex_digit_byte(v: u8) -> u8 {
    if v < 10 {
        (0x30 + v) as u8
    } else {
        (0x41 + v - 10) as u8
    }
}

/// The checksum field and line end of a command: `*`, two upper-case hex digits, CR, LF.
pub open spec fn frame_tail(c: u8) -> Seq<u8> {
    seq![0x2au8, hex_digit_byte(c / 16), hex_digit_byte(c % 16), 13u8, 10u8]
}

/// The full command line for `body`: `$`, the body in upper case, `*`, the checksum of the
/// upper-cased body as two upper-case hex digits, CR, LF.
pub open spec fn command_frame(body: Seq<char>) -> Seq<char> {
    let u = upper_chars(body);
    seq!['$'] + u + ascii_chars(frame_tail(xor_bytes(encode_utf8(u))))
}

/// Relies on `str::to_ascii_uppercase`: ASCII letters a to z become A to Z, every other
/// character stays as it is.
#[verifier::external_body]
fn to_ascii_upper(s: &str) -> (r: String)
    ensures
        r@ == upper_chars(s@),
{
    s.to_ascii_uppercase()
}

/// The upper-case hex digit for `v`.
pub fn hex_digit(v: u8) -> (r: u8)
    requires
        v < 16,
    ensures
        r == hex_digit_byte(v),
        r < 0x80,
{
    if v < 10 {
        0x30 + v
    } else {
        0x41 + v - 10
    }
}

/// Frames a command body: adds the `$` start marker, upper-cases the body, and appends `*`,
/// the body's checksum as two upper-case hex digits, and CR LF.
pub fn add_checksum(sentence: String) -> (r: String)
    ensures
        r@ == command_frame(sentence@),
{
    let upper = to_ascii_upper(sentence.as_str());
    let c = checksum_of(upper.as_str().as_bytes());
    let mut tail: Vec<u8> = Vec::new();
    tail.push(0x2a);
    tail.push(hex_digit(c / 16));
    tail.push(hex_digit(c % 16));
    tail.push(13);
    tail.push(10);
    assert(tail@ =~= frame_tail(c));
    let tail_text = ascii_string(tail);
    let mut head: Vec<u8> = Vec::new();
    head.push(0x24);
    let mut out = ascii_string(head);
    assert(ascii_chars(seq![0x24u8]) =~= seq!['$']);
    out.append(upper.as_str());
    out.append(tail_text.as_str());
    out
}

/// Every framed command whose body has at least two characters passes validation: the encoder
/// and the validator agree. (A shorter body gives a line under the six bytes that validation
/// asks for.)
pub proof fn lemma_command_frame_valid(body: Seq<char>)
    requires
        body.len() >= 2,
    ensures
        line_valid(encode_utf8(command_frame(body))),
{
    lemma_encode_len(upper_chars(body));
    let u = upper_chars(body);
    let eu = encode_utf8(u);
    let c = xor_bytes(eu);
    let tail = frame_tail(c);
    assert(all_ascii(tail));
    assert(all_ascii(seq![0x24u8]));
    lemma_ascii_utf8(tail);
    lemma_ascii_utf8(seq![0x24u8]);
    assert(ascii_chars(seq![0x24u8]) =~= seq!['$']);
    lemma_encode_concat(seq!['$'] + u, ascii_chars(tail));
    lemma_encode_concat(seq!['$'], u);
    let s = encode_utf8(command_frame(body));
    assert(s =~= seq![0x24u8] + eu + tail);
    let n = s.len() as int;
    assert(!is_space(s[0]));
    assert(skip_space(s, 0) == 0);
    assert(trim_start(s) == 0);
    assert(is_space(s[n - 1]));
    assert(is_space(s[n - 2]));
    assert(!is_space(s[n - 3])) by {
        assert(s[n - 3] == hex_digit_byte(c % 16));
    }
    assert(drop_space(s, 0, n - 2) == n - 2);
    assert(drop_space(s, 0, n - 1) == n - 2);
    assert(drop_space(s, 0, n) == n - 2);
    assert(trim_end(s) == n - 2);
    let t = trim(s);
    assert(t =~= seq![0x24u8] + eu + seq![0x2au8, hex_digit_byte(c / 16), hex_digit_byte(c % 16)]);
    assert(frame_body(t) =~= eu);
    assert(hex_value(hex_digit_byte(c / 16)) == Some((c / 16) as u8));
    assert(hex_value(hex_digit_byte(c % 16)) == Some((c % 16) as u8));
    assert(announced_checksum(t) == c);
}

/// A character encodes to at least one byte.
pub proof fn lemma_encode_len(s: Seq<char>)
    ensures
        encode_utf8(s).len() >= s.len(),
    decreases s.len(),
{
    if s.len() > 0 {
        lemma_encode_len(s.drop_first());
        assert(encode_scalar(s[0] as u32).len() >= 1);
    }
}

} // verus!
