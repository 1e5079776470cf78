//! Moving between text and bytes: the engine works on bytes, its callers hold strings.
use vstd::prelude::*;
use vstd::string::StringSliceAdditionalSpecFns;
use vstd::utf8::*;

verus! {

broadcast use {encode_utf8_valid_utf8, encode_utf8_decode_utf8, decode_utf8_encode_utf8};

/// Every byte of `b` is ASCII.
pub open spec fn all_ascii(b: Seq<u8>) -> bool {
    forall|i: int| 0 <= i < b.len() ==> #[trigger] b[i] < 0x80
}

/// The characters that ASCII bytes stand for.
pub open spec fn ascii_chars(b: Seq<u8>) -> Seq<char> {
    b.map_values(|x: u8| x as char)
}

/// ASCII bytes are valid UTF-8 and decode one character per byte.
pub proof fn lemma_ascii_utf8(b: Seq<u8>)
    requires
        all_ascii(b),
    ensures
        valid_utf8(b),
        decode_utf8(b) == ascii_chars(b),
        encode_utf8(ascii_chars(b)) == b,
{
    let cs = ascii_chars(b);
    assert(is_ascii_chars(cs)) by {
        assert forall|i: int| 0 <= i < cs.len() implies '\0' <= #[trigger] cs[i] <= '\u{7f}' by {
            assert(b[i] < 0x80);
        }
    }
    is_ascii_chars_encode_utf8(cs);
    assert(encode_utf8(cs) =~= b) by {
        assert forall|i: int| 0 <= i < b.len() implies encode_utf8(cs)[i] == b[i] by {
            assert(cs[i] as u8 == encode_utf8(cs)[i]);
            assert(b[i] < 0x80);
        }
    }
}

/// The encoding of a concatenation is the concatenation of the encodings.
pub proof fn lemma_encode_concat(a: Seq<char>, b: Seq<char>)
    ensures
        encode_utf8(a + b) == encode_utf8(a) + encode_utf8(b),
    decreases a.len(),
{
    if a.len() == 0 {
        assert(a + b =~= b);
        assert(encode_utf8(a) + encode_utf8(b) =~= encode_utf8(b));
    } else {
        assert((a + b).drop_first() =~= a.drop_first() + b);
        lemma_encode_concat(a.drop_first(), b);
        assert(encode_utf8(a + b) =~= encode_utf8(a) + encode_utf8(b));
    }
}

/// Relies on `String::from_utf8`: it succeeds exactly on valid UTF-8, and the text then holds
/// the characters that the bytes encode.
#[verifier::external_body]
pub(crate) fn string_from_utf8(b: Vec<u8>) -> (r: Option<String>)
    ensures
        r is Some <==> valid_utf8(b@),
        r matches Some(s) ==> s@ == decode_utf8(b@),
{
    String::from_utf8(b).ok()
}

/// Text made of ASCII bytes.
pub fn ascii_string(b: Vec<u8>) -> (r: String)
    requires
        all_ascii(b@),
    ensures
        r@ == ascii_chars(b@),
        encode_utf8(r@) == b@,
{
    proof {
        lemma_ascii_utf8(b@);
    }
    match string_from_utf8(b) {
        Some(s) => s,
        None => String::new(),
    }
}

/// In valid UTF-8, the byte after an ASCII byte starts a character.
pub proof fn lemma_after_ascii(b: Seq<u8>, j: int)
    requires
        valid_utf8(b),
        0 <= j < b.len(),
        b[j] < 0x80,
    ensures
        j + 1 < b.len() ==> !is_continuation_byte(b[j + 1]),
    decreases b.len(),
{
    let l = length_of_first_scalar(b);
    let rest = pop_first_scalar(b);
    assert(valid_first_scalar(b));
    assert(valid_utf8(rest));
    if j < l {
        assert(j == 0);
        assert(l == 1);
        if b.len() > 1 {
            assert(rest.len() > 0);
            assert(valid_first_scalar(rest));
            assert(rest[0] == b[1]);
        }
    } else {
        assert(rest[j - l] == b[j]);
        lemma_after_ascii(rest, j - l);
        if j + 1 < b.len() {
            assert(rest[j - l + 1] == b[j + 1]);
        }
    }
}

/// The part of `s` between byte offsets `from` and `to`; neither offset may fall inside a
/// character's encoding.
pub fn sub_str<'a>(s: &'a str, from: usize, to: usize) -> (r: &'a str)
    requires
        from <= to <= s.spec_bytes().len(),
        from < s.spec_bytes().len() ==> !is_continuation_byte(s.spec_bytes()[from as int]),
        to < s.spec_bytes().len() ==> !is_continuation_byte(s.spec_bytes()[to as int]),
    ensures
        r.spec_bytes() == s.spec_bytes().subrange(from as int, to as int),
{
    proof {
        let b = s.spec_bytes();
        is_char_boundary_start_end_of_seq(b);
        if to < b.len() {
            is_char_boundary_iff_not_is_continuation_byte(b, to as int);
        }
    }
    let (head, _tail) = s.split_at(to);
    proof {
        let h = head.spec_bytes();
        assert(h =~= s.spec_bytes().subrange(0, to as int));
        is_char_boundary_start_end_of_seq(h);
        if from < h.len() {
            is_char_boundary_iff_not_is_continuation_byte(h, from as int);
        }
    }
    let (_front, r) = head.split_at(from);
    assert(r.spec_bytes() =~= s.spec_bytes().subrange(from as int, to as int));
    r
}

} // verus!
