//! Parsers for the fixed-form fields of NMEA sentences: decimal numbers, integers,
//! coordinates, clock times and dates.
//!
//! Numbers are kept exact: a decimal field becomes a [`Decimal`], an integer mantissa with a
//! count of fractional digits, and a coordinate becomes millionths of a degree.
use vstd::prelude::*;
use vstd::string::StringSliceAdditionalSpecFns;

use crate::text::{all_ascii, ascii_chars, ascii_string};

verus! {

/// An exact decimal number: `mantissa / 10^scale`.
#[derive(Clone, Copy, Debug, PartialEq, Eq)]
pub struct Decimal {
    pub mantissa: i64,
    pub scale: u32,
}

/// An ASCII decimal digit.
pub open spec fn is_digit(b: u8) -> bool {
    0x30 <= b <= 0x39
}

/// Every byte of `s` is a decimal digit.
pub open spec fn all_digits(s: Seq<u8>) -> bool {
    forall|i: int| 0 <= i < s.len() ==> is_digit(#[trigger] s[i])
}

/// The number that a run of decimal digits writes.
pub open spec fn digits_value(s: Seq<u8>) -> nat
    decreases s.len(),
{
    if s.len() == 0 {
        0
    } else {
        digits_value(s.drop_last()) * 10 + (s.last() - 0x30) as nat
    }
}

/// Index of the first `.` in `s` at or after `i`, or the length of `s`.
pub open spec fn dot_from(s: Seq<u8>, i: int) -> int
    decreases s.len() - i,
{
    if i < 0 || i >= s.len() {
        s.len() as int
    } else if s[i] == 0x2e {
        i
    } else {
        dot_from(s, i + 1)
    }
}

/// The digits before the first `.` of `s`.
pub open spec fn int_part(s: Seq<u8>) -> Seq<u8> {
    s.subrange(0, dot_from(s, 0))
}

/// The digits after the first `.` of `s` (none when there is no `.`).
pub open spec fn frac_part(s: Seq<u8>) -> Seq<u8> {
    let k = dot_from(s, 0);
    if k < s.len() {
        s.subrange(k + 1, s.len() as int)
    } else {
        Seq::empty()
    }
}

/// Unsigned decimal text: digits, optionally a `.` and more digits, at least one digit in all.
/// Its value is `(digits, scale)`: all its digits read as one number, and how many follow the
/// `.`.
pub open spec fn unsigned_decimal(s: Seq<u8>) -> Option<(nat, nat)> {
    let ip = int_part(s);
    let fp = frac_part(s);
    if all_digits(ip) && all_digits(fp) && ip.len() + fp.len() > 0 {
        Some((digits_value(ip + fp), fp.len()))
    } else {
        None
    }
}

/// Whether `s` opens with a sign, and whether that sign is `-`.
pub open spec fn has_sign(s: Seq<u8>) -> bool {
    s.len() > 0 && (s[0] == 0x2b || s[0] == 0x2d)
}

pub open spec fn is_negative(s: Seq<u8>) -> bool {
    s.len() > 0 && s[0] == 0x2d
}

/// `s` without its sign, if it has one.
pub open spec fn unsigned_text(s: Seq<u8>) -> Seq<u8> {
    if has_sign(s) {
        s.drop_first()
    } else {
        s
    }
}

/// The decimal number that `s` writes: an optional `+` or `-`, then unsigned decimal text.
/// Absent when the text has another form, or when its digits do not fit an `i64`.
pub open spec fn decimal_of(s: Seq<u8>) -> Option<Decimal> {
    match unsigned_decimal(unsigned_text(s)) {
        Some((v, k)) => if v <= i64::MAX && k <= u32::MAX {
            Some(
                Decimal {
                    mantissa: if is_negative(s) {
                        -v
                    } else {
                        v as int
                    } as i64,
                    scale: k as u32,
                },
            )
        } else {
            None
        },
        None => None,
    }
}

/// The integer that `s` writes: an optional sign, then at least one digit, within
/// `[min, max]`. A `-` is only taken where `min` is negative.
pub open spec fn int_of(s: Seq<u8>, min: int, max: int) -> Option<int> {
    let u = unsigned_text(s);
    if u.len() > 0 && all_digits(u) && (is_negative(s) ==> min < 0) {
        let v: int = if is_negative(s) {
            -digits_value(u)
        } else {
            digits_value(u) as int
        };
        if min <= v <= max {
            Some(v)
        } else {
            None
        }
    } else {
        None
    }
}

/// Appending digits never makes a number smaller.
proof fn lemma_digits_grow(a: Seq<u8>, b: Seq<u8>)
    ensures
        digits_value(a + b) >= digits_value(a),
    decreases b.len(),
{
    if b.len() == 0 {
        assert(a + b =~= a);
    } else {
        assert((a + b).drop_last() =~= a + b.drop_last());
        lemma_digits_grow(a, b.drop_last());
    }
}

/// Reads the digits `b[from..to]` on after those of `pre`, whose value is `acc`. Absent when a
/// byte is not a digit or the value passes `limit`.
fn extend_digits(
    b: &[u8],
    from: usize,
    to: usize,
    acc: u64,
    Ghost(pre): Ghost<Seq<u8>>,
    limit: u64,
) -> (r: Option<u64>)
    requires
        from <= to <= b@.len(),
        all_digits(pre),
        acc == digits_value(pre),
        acc <= limit,
    ensures
        r == if all_digits(b@.subrange(from as int, to as int)) && digits_value(
            pre + b@.subrange(from as int, to as int),
        ) <= limit {
            Some(digits_value(pre + b@.subrange(from as int, to as int)) as u64)
        } else {
            None
        },
{
    let mut v: u64 = acc;
    let mut over = false;
    let mut i: usize = from;
    while i < to
        invariant
            from <= i <= to <= b@.len(),
            all_digits(b@.subrange(from as int, i as int)),
            !over ==> v == digits_value(pre + b@.subrange(from as int, i as int)) && v <= limit,
            over ==> digits_value(pre + b@.subrange(from as int, i as int)) > limit,
        decreases to - i,
    {
        let c = b[i];
        if c < 0x30 || c > 0x39 {
            assert(!all_digits(b@.subrange(from as int, to as int))) by {
                assert(b@.subrange(from as int, to as int)[i - from] == c);
            }
            return None;
        }
        let d = (c - 0x30) as u64;
        let ghost before = pre + b@.subrange(from as int, i as int);
        let ghost after = pre + b@.subrange(from as int, i + 1);
        assert(after.drop_last() =~= before);
        assert(digits_value(after) == digits_value(before) * 10 + d);
        if !over {
            if d > limit || v > (limit - d) / 10 {
                over = true;
                assert(v * 10 + d > limit) by (nonlinear_arith)
                    requires
                        d > limit || v > (limit - d) / 10,
                        d <= 9,
                ;
            } else {
                assert(v * 10 + d <= limit) by (nonlinear_arith)
                    requires
                        v <= (limit - d) / 10,
                        d <= limit,
                ;
                v = v * 10 + d;
            }
        }
        assert(all_digits(b@.subrange(from as int, i + 1))) by {
            assert forall|j: int| 0 <= j < i + 1 - from implies is_digit(
                #[trigger] b@.subrange(from as int, i + 1)[j],
            ) by {
                if j < i - from {
                    assert(b@.subrange(from as int, i + 1)[j] == b@.subrange(
                        from as int,
                        i as int,
                    )[j]);
                }
            }
        }
        i = i + 1;
    }
    if over {
        None
    } else {
        Some(v)
    }
}

/// Index of the first `.` of `b[from..]`, or the length of `b`.
fn find_dot(b: &[u8], from: usize) -> (r: usize)
    requires
        from <= b@.len(),
    ensures
        r == dot_from(b@, from as int),
        from <= r <= b@.len(),
{
    let mut i = from;
    while i < b.len() && b[i] != 0x2e
        invariant
            from <= i <= b@.len(),
            dot_from(b@, from as int) == dot_from(b@, i as int),
        decreases b@.len() - i,
    {
        i = i + 1;
    }
    i
}

proof fn lemma_dot_shift(s: Seq<u8>, i: int)
    requires
        0 <= i <= s.len(),
    ensures
        dot_from(s, i) == i + dot_from(s.subrange(i, s.len() as int), 0),
    decreases s.len() - i,
{
    if i < s.len() && s[i] != 0x2e {
        lemma_dot_shift(s, i + 1);
        lemma_dot_shift_sub(s, i);
    }
}

proof fn lemma_dot_shift_sub(s: Seq<u8>, i: int)
    requires
        0 <= i < s.len(),
        s[i] != 0x2e,
    ensures
        dot_from(s.subrange(i, s.len() as int), 0) == 1 + dot_from(
            s.subrange(i + 1, s.len() as int),
            0,
        ),
{
    let t = s.subrange(i, s.len() as int);
    let u = s.subrange(i + 1, s.len() as int);
    assert(t.subrange(1, t.len() as int) =~= u);
    assert(t[0] != 0x2e);
    lemma_dot_from_drop_at(t, 1);
}

proof fn lemma_dot_from_drop_at(t: Seq<u8>, j: int)
    requires
        1 <= j <= t.len(),
    ensures
        dot_from(t, j) == 1 + dot_from(t.subrange(1, t.len() as int), j - 1),
    decreases t.len() - j,
{
    let u = t.subrange(1, t.len() as int);
    if j < t.len() {
        assert(u[j - 1] == t[j]);
        if t[j] != 0x2e {
            lemma_dot_from_drop_at(t, j + 1);
        }
    }
}

/// Unsigned decimal text `b[from..]`, as `(digits, scale)`, where its digits fit `i64`.
fn unsigned_decimal_at(b: &[u8], from: usize) -> (r: Option<(u64, usize)>)
    requires
        from <= b@.len(),
    ensures
        ({
            let s = b@.subrange(from as int, b@.len() as int);
            match unsigned_decimal(s) {
                Some((v, k)) => if v <= i64::MAX {
                    k <= s.len() && r == Some((v as u64, k as usize))
                } else {
                    r is None
                },
                None => r is None,
            }
        }),
        r matches Some((v, k)) ==> unsigned_decimal(b@.subrange(from as int, b@.len() as int))
            == Some((v as nat, k as nat)),
{
    let ghost s = b@.subrange(from as int, b@.len() as int);
    let n = b.len();
    let k = find_dot(b, from);
    proof {
        lemma_dot_shift(b@, from as int);
        assert(int_part(s) =~= b@.subrange(from as int, k as int));
    }
    let first = extend_digits(b, from, k, 0, Ghost(Seq::empty()), i64::MAX as u64);
    assert(Seq::<u8>::empty() + b@.subrange(from as int, k as int) =~= b@.subrange(
        from as int,
        k as int,
    ));
    match first {
        None => {
            proof {
                lemma_digits_grow(int_part(s), frac_part(s));
            }
            None
        },
        Some(iv) => {
            if k < b.len() {
                assert(frac_part(s) =~= b@.subrange(k + 1, b@.len() as int));
                let whole = extend_digits(
                    b,
                    k + 1,
                    b.len(),
                    iv,
                    Ghost(b@.subrange(from as int, k as int)),
                    i64::MAX as u64,
                );
                if k - from + (b.len() - (k + 1)) == 0 {
                    return None;
                }
                match whole {
                    None => None,
                    Some(v) => Some((v, b.len() - (k + 1))),
                }
            } else {
                assert(frac_part(s) =~= Seq::<u8>::empty());
                assert(int_part(s) + frac_part(s) =~= int_part(s));
                if k == from {
                    return None;
                }
                Some((iv, 0))
            }
        },
    }
}

/// Reads a decimal number: an optional sign, digits, optionally a `.` and more digits.
pub fn parse_decimal(b: &[u8]) -> (r: Option<Decimal>)
    ensures
        r == decimal_of(b@),
{
    let signed = b.len() > 0 && (b[0] == 0x2b || b[0] == 0x2d);
    let negative = b.len() > 0 && b[0] == 0x2d;
    let start: usize = if signed {
        1
    } else {
        0
    };
    assert(unsigned_text(b@) =~= b@.subrange(start as int, b@.len() as int));
    match unsigned_decimal_at(b, start) {
        None => None,
        Some((v, k)) => {
            if k > u32::MAX as usize {
                return None;
            }
            let m: i64 = if negative {
                -(v as i64)
            } else {
                v as i64
            };
            Some(Decimal { mantissa: m, scale: k as u32 })
        },
    }
}

/// Reads an integer: an optional sign and at least one digit, within `[min, max]`; a `-` only
/// where `min` is negative.
pub fn parse_int(b: &[u8], min: i64, max: i64) -> (r: Option<i64>)
    requires
        min <= 0 <= max,
    ensures
        r == match int_of(b@, min as int, max as int) {
            Some(v) => Some(v as i64),
            None => None,
        },
{
    let signed = b.len() > 0 && (b[0] == 0x2b || b[0] == 0x2d);
    let negative = b.len() > 0 && b[0] == 0x2d;
    let start: usize = if signed {
        1
    } else {
        0
    };
    assert(unsigned_text(b@) =~= b@.subrange(start as int, b@.len() as int));
    if start == b.len() {
        return None;
    }
    if negative && min >= 0 {
        return None;
    }
    let limit: u64 = if negative {
        (-(min as i128)) as u64
    } else {
        max as u64
    };
    let ghost u = b@.subrange(start as int, b@.len() as int);
    assert(Seq::<u8>::empty() + u =~= u);
    match extend_digits(b, start, b.len(), 0, Ghost(Seq::empty()), limit) {
        None => None,
        Some(v) => {
            if negative {
                Some(-(v as i128) as i64)
            } else {
                Some(v as i64)
            }
        },
    }
}

/// `10^k`.
pub open spec fn pow10(k: nat) -> nat
    decreases k,
{
    if k == 0 {
        1
    } else {
        10 * pow10((k - 1) as nat)
    }
}

/// `m / 10^k` minutes as millionths of a degree, rounded to the nearest with halves going up.
pub open spec fn minutes_micro(m: nat, k: nat) -> nat {
    (2 * m * 1_000_000 + 60 * pow10(k)) / (120 * pow10(k))
}

/// Whether a hemisphere letter negates a coordinate: `N` and `E` do not, `S` and `W` do; any
/// other text is no hemisphere.
pub open spec fn hemisphere_negates(h: Seq<u8>) -> Option<bool> {
    if h == seq![0x4eu8] || h == seq![0x45u8] {
        Some(false)
    } else if h == seq![0x53u8] || h == seq![0x57u8] {
        Some(true)
    } else {
        None
    }
}

/// A coordinate field `dddmm.mmmm` with its hemisphere letter, in decimal degrees with six
/// decimals. The two integer digits before the `.` (or before the end, where there is no `.`)
/// and the fraction after it are minutes; the zero to three digits before them are whole
/// degrees. The minutes add `minutes / 60`, rounded to the sixth decimal. Absent when the field
/// is empty or malformed, when the minutes carry more than 18 decimals, when the hemisphere is
/// not one of `N`, `S`, `E`, `W`, or when the result does not fit.
pub open spec fn degrees_of(d: Seq<u8>, h: Seq<u8>) -> Option<Decimal> {
    let k = dot_from(d, 0);
    if 2 <= k <= 5 && all_digits(d.subrange(0, k - 2)) {
        match (unsigned_decimal(d.subrange(k - 2, d.len() as int)), hemisphere_negates(h)) {
            (Some((m, f)), Some(neg)) => {
                let v = digits_value(d.subrange(0, k - 2)) * 1_000_000 + minutes_micro(m, f);
                if m <= i64::MAX && f <= 18 && v <= i64::MAX {
                    Some(
                        Decimal {
                            mantissa: if neg {
                                -v
                            } else {
                                v as int
                            } as i64,
                            scale: 6,
                        },
                    )
                } else {
                    None
                }
            },
            _ => None,
        }
    } else {
        None
    }
}

/// A run of digits writes a number below `10^len`.
proof fn lemma_digits_below(s: Seq<u8>)
    requires
        all_digits(s),
    ensures
        digits_value(s) < pow10(s.len()),
    decreases s.len(),
{
    if s.len() > 0 {
        let t = s.drop_last();
        assert(all_digits(t)) by {
            assert forall|i: int| 0 <= i < t.len() implies is_digit(#[trigger] t[i]) by {
                assert(t[i] == s[i]);
            }
        }
        lemma_digits_below(t);
        assert(is_digit(s[s.len() - 1]));
    }
}

proof fn lemma_pow10_mono(a: nat, b: nat)
    requires
        a <= b,
    ensures
        pow10(a) <= pow10(b),
    decreases b,
{
    if a < b {
        lemma_pow10_mono(a, (b - 1) as nat);
    }
}

fn pow10_exec(k: u32) -> (r: u128)
    requires
        k <= 18,
    ensures
        r == pow10(k as nat),
        1 <= r <= 1_000_000_000_000_000_000,
{
    proof {
        reveal_with_fuel(pow10, 19);
        assert(pow10(18) == 1_000_000_000_000_000_000);
    }
    let mut p: u128 = 1;
    let mut i: u32 = 0;
    while i < k
        invariant
            i <= k <= 18,
            p == pow10(i as nat),
            pow10(18) == 1_000_000_000_000_000_000,
        decreases k - i,
    {
        proof {
            lemma_pow10_mono((i + 1) as nat, 18);
        }
        p = p * 10;
        i = i + 1;
    }
    proof {
        lemma_pow10_mono(k as nat, 18);
        lemma_pow10_mono(0, k as nat);
    }
    p
}

/// Parses a coordinate `dddmm.mmmm` with its hemisphere letter into decimal degrees, rounded
/// to six decimals; `S` and `W` give negative values. An empty or malformed field gives `None`.
pub fn _parse_degrees(degrees: &str, compass_direction: &str) -> (r: Option<Decimal>)
    ensures
        r == degrees_of(degrees.spec_bytes(), compass_direction.spec_bytes()),
{
    let d = degrees.as_bytes();
    let h = compass_direction.as_bytes();
    let negative: bool;
    if h.len() == 1 && (h[0] == 0x4e || h[0] == 0x45) {
        negative = false;
        assert(h@ =~= seq![h@[0]]);
    } else if h.len() == 1 && (h[0] == 0x53 || h[0] == 0x57) {
        negative = true;
        assert(h@ =~= seq![h@[0]]);
    } else {
        assert(h@.len() != 1 ==> h@ != seq![0x4eu8] && h@ != seq![0x45u8] && h@ != seq![0x53u8]
            && h@ != seq![0x57u8]);
        return None;
    }
    let k = find_dot(d, 0);
    if k < 2 || k > 5 {
        return None;
    }
    let ghost prefix = d@.subrange(0, k - 2);
    assert(Seq::<u8>::empty() + prefix =~= prefix);
    let whole = match extend_digits(d, 0, k - 2, 0, Ghost(Seq::empty()), 999) {
        Some(w) => w,
        None => {
            proof {
                if all_digits(prefix) {
                    lemma_digits_below(prefix);
                    lemma_pow10_mono(prefix.len(), 3);
                    reveal_with_fuel(pow10, 4);
                }
            }
            return None;
        },
    };
    assert(hemisphere_negates(h@) == Some(negative));
    assert(dot_from(d@, 0) == k as int);
    match unsigned_decimal_at(d, k - 2) {
        None => {
            assert(degrees_of(d@, h@) is None);
            None
        },
        Some((m, f)) => {
            if f > 18 {
                assert(degrees_of(d@, h@) is None);
                return None;
            }
            let p = pow10_exec(f as u32);
            let num: u128 = 2 * (m as u128) * 1_000_000 + 60 * p;
            let den: u128 = 120 * p;
            let q = num / den;
            let v: u128 = (whole as u128) * 1_000_000 + q;
            assert(q == minutes_micro(m as nat, f as nat));
            assert(whole == digits_value(prefix));
            assert(all_digits(prefix));
            if v > i64::MAX as u128 {
                return None;
            }
            let mantissa: i64 = if negative {
                -(v as i64)
            } else {
                v as i64
            };
            assert(unsigned_decimal(d@.subrange(k - 2, d@.len() as int)) == Some((m as nat, f as nat)));
            assert(v == digits_value(prefix) * 1_000_000 + minutes_micro(m as nat, f as nat));
            Some(Decimal { mantissa, scale: 6 })
        },
    }
}

/// Clock text `hh:mm:ss` from the first six bytes of `t`; empty when `t` is shorter or those
/// bytes are not ASCII.
pub open spec fn clock_text(t: Seq<u8>) -> Seq<u8> {
    if t.len() >= 6 && all_ascii(t.subrange(0, 6)) {
        seq![t[0], t[1], 0x3au8, t[2], t[3], 0x3au8, t[4], t[5]]
    } else {
        Seq::empty()
    }
}

/// Formats `hhmmss[.sss]` as `hh:mm:ss`, dropping any fraction; shorter input gives an empty
/// string.
pub fn _format_hhmmss(time: &str) -> (r: String)
    ensures
        r@ == ascii_chars(clock_text(time.spec_bytes())),
{
    let t = time.as_bytes();
    let mut out: Vec<u8> = Vec::new();
    if t.len() >= 6 && t[0] < 0x80 && t[1] < 0x80 && t[2] < 0x80 && t[3] < 0x80 && t[4] < 0x80
        && t[5] < 0x80 {
        out.push(t[0]);
        out.push(t[1]);
        out.push(0x3a);
        out.push(t[2]);
        out.push(t[3]);
        out.push(0x3a);
        out.push(t[4]);
        out.push(t[5]);
        assert(all_ascii(t@.subrange(0, 6)));
        assert(out@ =~= clock_text(t@));
    } else {
        if t.len() >= 6 {
            assert(!all_ascii(t@.subrange(0, 6))) by {
                if !(t[0] < 0x80) {
                    assert(t@.subrange(0, 6)[0] == t[0]);
                } else if !(t[1] < 0x80) {
                    assert(t@.subrange(0, 6)[1] == t[1]);
                } else if !(t[2] < 0x80) {
                    assert(t@.subrange(0, 6)[2] == t[2]);
                } else if !(t[3] < 0x80) {
                    assert(t@.subrange(0, 6)[3] == t[3]);
                } else if !(t[4] < 0x80) {
                    assert(t@.subrange(0, 6)[4] == t[4]);
                } else {
                    assert(t@.subrange(0, 6)[5] == t[5]);
                }
            }
        }
        assert(out@ =~= clock_text(t@));
    }
    ascii_string(out)
}

/// The value of two ASCII digits.
pub open spec fn two_digits(a: u8, b: u8) -> nat {
    ((a - 0x30) * 10 + (b - 0x30)) as nat
}

/// A calendar date, with a four-digit year.
#[derive(Clone, Copy, Debug, PartialEq, Eq)]
pub struct Date {
    pub year: u16,
    pub month: u8,
    pub day: u8,
}

/// A date field `ddmmyy`, taken to lie in the 21st century (year `20yy`). Absent unless the
/// field is exactly six digits.
pub open spec fn date_of(t: Seq<u8>) -> Option<Date> {
    if t.len() == 6 && all_digits(t) {
        Some(
            Date {
                year: (2000 + two_digits(t[4], t[5])) as u16,
                month: two_digits(t[2], t[3]) as u8,
                day: two_digits(t[0], t[1]) as u8,
            },
        )
    } else {
        None
    }
}

/// Parses a date field `ddmmyy` into a date of the 21st century.
pub fn parse_ddmmyy(date: &str) -> (r: Option<Date>)
    ensures
        r == date_of(date.spec_bytes()),
{
    let t = date.as_bytes();
    if t.len() != 6 {
        return None;
    }
    let mut i: usize = 0;
    while i < 6
        invariant
            i <= 6 == t@.len(),
            t@ == date.spec_bytes(),
            forall|j: int| 0 <= j < i ==> is_digit(#[trigger] t@[j]),
        decreases 6 - i,
    {
        if t[i] < 0x30 || t[i] > 0x39 {
            assert(!is_digit(t@[i as int]));
            return None;
        }
        i = i + 1;
    }
    assert(all_digits(t@));
    let day = (t[0] - 0x30) * 10 + (t[1] - 0x30);
    let month = (t[2] - 0x30) * 10 + (t[3] - 0x30);
    let year = 2000 + ((t[4] - 0x30) * 10 + (t[5] - 0x30)) as u16;
    Some(Date { year, month, day })
}

} // verus!
