//! Reading a date and time out of the ISO 8601 style text that the date functions accept:
//! compact digit groups are expanded, the text is cut into numeric parts, and the parts
//! are checked and completed into a local date, or the text is read as an instant with a
//! time-zone designator.

use vstd::prelude::*;
use vstd::string::StringSliceAdditionalSpecFns;
use vstd::utf8::*;
use crate::text::{text_of, push_text, chars_vec, radix_value, read_i64_radix};
use crate::foreign::{
    regex_found, regex_is_match, regex_replaced, regex_replace,
    regex_pieces, regex_split, rfc3339_millis, parse_rfc3339_millis, string_from_chars,
};

verus! {

broadcast use vstd::utf8::encode_utf8_valid_utf8, vstd::utf8::encode_utf8_decode_utf8;

/// What a date text reads as.
#[derive(Debug, Clone, Copy, PartialEq, Eq)]
pub enum DateText {
    /// A local date and time: the month counted from zero, each part as written or its
    /// default (month and day 1, the time 0).
    Local { year: i64, month0: i64, day: i64, hour: i64, minute: i64, second: i64, ms: i64 },
    /// An instant given with a time-zone designator, in milliseconds since the Unix epoch.
    Zoned { millis: i64 },
    /// The text is not a date; the conversion is reported as failed.
    Refused,
    /// The year cannot be read as a number; there is no date and nothing is reported.
    Unreadable,
}

/// The largest value each part of a local date may take: year, month, day, hour, minute,
/// second and millisecond.
pub open spec fn date_limit(i: int) -> int {
    if i == 0 {
        99999
    } else if i == 1 {
        12
    } else if i == 2 {
        31
    } else if i == 3 {
        23
    } else if i == 4 || i == 5 {
        59
    } else {
        999
    }
}

/// The part at `i` where it is present and readable, else `d`.
pub open spec fn part_or(parts: Seq<Option<i64>>, i: int, d: i64) -> i64 {
    if i < parts.len() && parts[i] is Some {
        parts[i]->0
    } else {
        d
    }
}

/// The decision on the numeric parts of a date text: fewer than three parts, or an
/// unreadable one among at most three, is refused; without a time zone and with at most
/// seven parts, a part over its limit is refused, an unreadable year gives no date, and
/// otherwise the parts make a local date; with a time zone the instant `zoned` that the
/// text was read as is taken where there is one; anything else is refused.
pub open spec fn date_decision(parts: Seq<Option<i64>>, has_timezone: bool, zoned: Option<i64>) -> DateText {
    if parts.len() <= 3 && (parts.len() < 3 || exists|i: int| 0 <= i < parts.len() && parts[i] is None) {
        DateText::Refused
    } else if !has_timezone && parts.len() <= 7 {
        if exists|i: int| 0 <= i < parts.len() && parts[i] is Some && parts[i]->0 > date_limit(i) {
            DateText::Refused
        } else if parts[0] is None {
            DateText::Unreadable
        } else {
            DateText::Local {
                year: parts[0]->0,
                month0: (part_or(parts, 1, 1) - 1) as i64,
                day: part_or(parts, 2, 1),
                hour: part_or(parts, 3, 0),
                minute: part_or(parts, 4, 0),
                second: part_or(parts, 5, 0),
                ms: part_or(parts, 6, 0),
            }
        }
    } else if has_timezone && zoned is Some {
        DateText::Zoned { millis: zoned->0 }
    } else {
        DateText::Refused
    }
}

/// A local date is only ever made of parts within their limits: a year up to 99999, a
/// month up to 12 (11 counted from zero), a day up to 31, an hour up to 23, minutes and
/// seconds up to 59 and milliseconds up to 999.
pub proof fn law_local_parts_within_limits(parts: Seq<Option<i64>>, has_timezone: bool, zoned: Option<i64>)
    requires
        !(parts.len() > 1 && parts[1] == Some(i64::MIN)),
    ensures
        date_decision(parts, has_timezone, zoned) matches DateText::Local { year, month0, day, hour, minute, second, ms }
            ==> year <= 99999 && month0 <= 11 && day <= 31 && hour <= 23 && minute <= 59 && second <= 59 && ms <= 999,
{
    if date_decision(parts, has_timezone, zoned) is Local {
        assert forall|i: int| 0 <= i < parts.len() && #[trigger] parts[i] is Some implies parts[i]->0 <= date_limit(i) by {}
        if parts.len() > 1 && parts[1] is Some {
            assert(parts[1]->0 <= 12);
        }
        if parts.len() > 2 && parts[2] is Some {
            assert(parts[2]->0 <= 31);
        }
        if parts.len() > 3 && parts[3] is Some {
            assert(parts[3]->0 <= 23);
        }
        if parts.len() > 4 && parts[4] is Some {
            assert(parts[4]->0 <= 59);
        }
        if parts.len() > 5 && parts[5] is Some {
            assert(parts[5]->0 <= 59);
        }
        if parts.len() > 6 && parts[6] is Some {
            assert(parts[6]->0 <= 999);
        }
    }
}

/// The number a piece of digits is read as by `str::parse::<i64>`, if any.
pub open spec fn piece_value(p: Seq<char>) -> Option<i64> {
    match radix_value(p, 10) {
        Some(v) => Some(v as i64),
        None => None,
    }
}

/// The numbers read from the non-empty pieces `ps`, in order.
pub open spec fn part_values(ps: Seq<Seq<char>>) -> Seq<Option<i64>>
    decreases ps.len(),
{
    if ps.len() == 0 {
        seq![]
    } else if ps.last().len() == 0 {
        part_values(ps.drop_last())
    } else {
        part_values(ps.drop_last()).push(piece_value(ps.last()))
    }
}

/// The characters of strings.
pub open spec fn texts_of(v: Seq<String>) -> Seq<Seq<char>> {
    v.map_values(|s: String| s@)
}

/// The text with the first group of eight digits written `dddd-dd-dd`, then the first
/// `T` and six digits written `Thh:mm:ss`.
pub open spec fn date_digits_expanded(iso: Seq<char>) -> Seq<char> {
    regex_replaced(
        "T(\\d\\d)(\\d\\d)(\\d\\d)"@,
        regex_replaced("(\\d\\d\\d\\d)(\\d\\d)(\\d\\d)"@, iso, "$1-$2-$3"@),
        "T$1:$2:$3"@,
    )
}

/// Whether the text is still a compact date of eight bytes without a time.
pub open spec fn compact_date(e: Seq<char>) -> bool {
    !e.contains('T') && encode_utf8(e).len() == 8
}

/// Whether the bytes of the text can be cut after its fourth and sixth byte.
pub open spec fn compact_cuts(e: Seq<char>) -> bool {
    is_char_boundary(encode_utf8(e), 4) && is_char_boundary(encode_utf8(e), 6)
}

/// The eight bytes of the text cut into `4-2-2` with dashes between.
pub open spec fn dashed_compact(e: Seq<char>) -> Seq<char> {
    let b = encode_utf8(e);
    text_of(b, 0, 4) + seq!['-'] + text_of(b, 4, 6) + seq!['-'] + text_of(b, 6, 8)
}

/// The expanded form of a date text: digit groups expanded, a compact date dashed, and a
/// trailing `+hhmm` or `-hhmm` offset written `+hh:mm`.
pub open spec fn expanded_date(iso: Seq<char>) -> Seq<char> {
    let e = date_digits_expanded(iso);
    let c = if compact_date(e) { dashed_compact(e) } else { e };
    if regex_found("([+-])(\\d{2})(\\d{2})$"@, c) {
        regex_replaced("([+-])(\\d{2})(\\d{2})$"@, c, "$1$2:$3"@)
    } else {
        c
    }
}

/// Whether an expanded date text ends in a time-zone designator: `Z`, `z` or `+hh:mm` /
/// `-hh:mm`.
pub open spec fn ends_in_timezone(e: Seq<char>) -> bool {
    (e.len() > 0 && (e.last() == 'Z' || e.last() == 'z')) || regex_found("[+-]\\d{2}:\\d{2}$"@, e)
}

/// The numeric parts of an expanded date text.
pub open spec fn date_parts_of(e: Seq<char>) -> Seq<Option<i64>> {
    part_values(regex_pieces("[\\D,zZ]+"@, e))
}

/// The instant read from an expanded date text with a time zone.
pub open spec fn zoned_instant(e: Seq<char>) -> Option<i64> {
    match rfc3339_millis(e) {
        Some(m) => Some(m as i64),
        None => None,
    }
}

/// What a date text reads as.
pub open spec fn date_text_of(iso: Seq<char>) -> DateText {
    let e = expanded_date(iso);
    let tz = ends_in_timezone(e);
    date_decision(date_parts_of(e), tz, if tz { zoned_instant(e) } else { None })
}

/// Whether a date text can be read without a fault: a compact date can be cut at its
/// fourth and sixth byte, and the month part is not the least `i64`.
pub open spec fn date_text_readable(iso: Seq<char>) -> bool {
    let e = date_digits_expanded(iso);
    let parts = date_parts_of(expanded_date(iso));
    (!compact_date(e) || compact_cuts(e)) && !(parts.len() > 1 && parts[1] == Some(i64::MIN))
}

/// The largest value of the part at `i`.
fn date_limit_exec(i: usize) -> (r: i64)
    requires
        i < 7,
    ensures
        r == date_limit(i as int),
{
    if i == 0 {
        99999
    } else if i == 1 {
        12
    } else if i == 2 {
        31
    } else if i == 3 {
        23
    } else if i == 4 || i == 5 {
        59
    } else {
        999
    }
}

/// The part at `i` where it is present and readable, else `d`.
fn part_or_exec(parts: &Vec<Option<i64>>, i: usize, d: i64) -> (r: i64)
    ensures
        r == part_or(parts@, i as int, d),
{
    if i < parts.len() {
        match parts[i] {
            Some(v) => v,
            None => d,
        }
    } else {
        d
    }
}

/// Decides what the numeric parts of a date text read as: see `date_decision`. `zoned` is
/// the instant that the text was read as where it has a time zone.
pub fn decide_date(parts: &Vec<Option<i64>>, has_timezone: bool, zoned: Option<i64>) -> (r: DateText)
    requires
        !(parts@.len() > 1 && parts@[1] == Some(i64::MIN)),
    ensures
        r == date_decision(parts@, has_timezone, zoned),
{
    let n = parts.len();
    if n <= 3 {
        let mut missing = n < 3;
        let mut i: usize = 0;
        while i < n
            invariant
                n == parts@.len(),
                i <= n,
                missing == (n < 3 || exists|j: int| 0 <= j < i && parts@[j] is None),
            decreases n - i,
        {
            if parts[i].is_none() {
                missing = true;
            }
            i = i + 1;
        }
        if missing {
            return DateText::Refused;
        }
    }
    if !has_timezone && n <= 7 {
        let mut i: usize = 0;
        while i < n
            invariant
                n == parts@.len(),
                n <= 7,
                !has_timezone,
                i <= n,
                forall|j: int| 0 <= j < i ==> !(parts@[j] is Some && parts@[j]->0 > date_limit(j)),
            decreases n - i,
        {
            match parts[i] {
                Some(v) => {
                    if v > date_limit_exec(i) {
                        assert(parts@[i as int] is Some && parts@[i as int]->0 > date_limit(i as int));
                        return DateText::Refused;
                    }
                },
                None => {},
            }
            i = i + 1;
        }
        return match parts[0] {
            None => DateText::Unreadable,
            Some(year) => {
                let month = part_or_exec(parts, 1, 1);
                DateText::Local {
                    year,
                    month0: month - 1,
                    day: part_or_exec(parts, 2, 1),
                    hour: part_or_exec(parts, 3, 0),
                    minute: part_or_exec(parts, 4, 0),
                    second: part_or_exec(parts, 5, 0),
                    ms: part_or_exec(parts, 6, 0),
                }
            },
        };
    }
    if has_timezone {
        if let Some(m) = zoned {
            return DateText::Zoned { millis: m };
        }
    }
    DateText::Refused
}

/// The numbers read from the non-empty pieces, in order: `None` for a piece that
/// `str::parse::<i64>` refuses.
pub fn date_part_values(pieces: &Vec<String>) -> (r: Vec<Option<i64>>)
    ensures
        r@ == part_values(texts_of(pieces@)),
{
    let ghost ps = texts_of(pieces@);
    let mut r: Vec<Option<i64>> = Vec::new();
    let n = pieces.len();
    let mut i: usize = 0;
    assert(ps.take(0) =~= Seq::<Seq<char>>::empty());
    while i < n
        invariant
            n == pieces@.len(),
            ps == texts_of(pieces@),
            i <= n,
            r@ == part_values(ps.take(i as int)),
        decreases n - i,
    {
        let piece = pieces[i].as_str();
        proof {
            assert(ps.take(i + 1).drop_last() =~= ps.take(i as int));
            assert(ps.take(i + 1).last() == ps[i as int]);
            assert(ps[i as int] == piece@);
        }
        if !piece.is_empty() {
            let v = read_i64_radix(piece, 10);
            r.push(v);
        }
        i = i + 1;
    }
    assert(ps.take(n as int) =~= ps);
    r
}

/// The part `s[i..j]` of a text, cut at two character boundaries.
fn byte_range(s: &str, i: usize, j: usize) -> (r: &str)
    requires
        i <= j <= s.spec_bytes().len(),
        is_char_boundary(s.spec_bytes(), i as int),
        is_char_boundary(s.spec_bytes(), j as int),
    ensures
        r@ == text_of(s.spec_bytes(), i as int, j as int),
{
    let ghost b = s.spec_bytes();
    proof {
        vstd::utf8::valid_utf8_split(b, j as int);
    }
    let (a, _) = s.split_at(j);
    proof {
        let ab = a.spec_bytes();
        assert(ab =~= b.subrange(0, j as int));
        if 0 < i < j {
            vstd::utf8::is_char_boundary_iff_not_is_continuation_byte(b, i as int);
            vstd::utf8::is_char_boundary_iff_not_is_continuation_byte(ab, i as int);
        }
        vstd::utf8::is_char_boundary_start_end_of_seq(ab);
    }
    let (_, c) = a.split_at(i);
    proof {
        assert(c.spec_bytes() =~= b.subrange(i as int, j as int));
    }
    c
}

/// Whether the text holds the character `c`.
fn holds_char(s: &str, c: char) -> (r: bool)
    ensures
        r == s@.contains(c),
{
    let v = chars_vec(s);
    let mut i: usize = 0;
    while i < v.len()
        invariant
            v@ == s@,
            i <= v@.len(),
            forall|j: int| 0 <= j < i ==> v@[j] != c,
        decreases v@.len() - i,
    {
        if v[i] == c {
            assert(s@[i as int] == c);
            return true;
        }
        i = i + 1;
    }
    false
}

/// The text with its digit groups expanded and, where it is still a compact date, cut into
/// `dddd-dd-dd`; then a trailing offset written with a colon.
fn expand_date_text(iso: &str) -> (r: String)
    requires
        !compact_date(date_digits_expanded(iso@)) || compact_cuts(date_digits_expanded(iso@)),
    ensures
        r@ == expanded_date(iso@),
{
    let dated = regex_replace("(\\d\\d\\d\\d)(\\d\\d)(\\d\\d)", iso, "$1-$2-$3");
    let timed = regex_replace("T(\\d\\d)(\\d\\d)(\\d\\d)", dated.as_str(), "T$1:$2:$3");
    let ghost e = timed@;
    assert(e == date_digits_expanded(iso@));
    let compact = !holds_char(timed.as_str(), 'T') && timed.as_str().as_bytes().len() == 8;
    assert(compact == compact_date(e));
    let cut = if compact {
        proof {
            assert(compact_cuts(e));
            vstd::utf8::is_char_boundary_start_end_of_seq(encode_utf8(e));
        }
        let mut out: Vec<char> = Vec::new();
        push_text(byte_range(timed.as_str(), 0, 4), &mut out);
        out.push('-');
        push_text(byte_range(timed.as_str(), 4, 6), &mut out);
        out.push('-');
        push_text(byte_range(timed.as_str(), 6, 8), &mut out);
        assert(out@ =~= dashed_compact(e));
        string_from_chars(&out)
    } else {
        timed
    };
    if regex_is_match("([+-])(\\d{2})(\\d{2})$", cut.as_str()) {
        regex_replace("([+-])(\\d{2})(\\d{2})$", cut.as_str(), "$1$2:$3")
    } else {
        cut
    }
}

/// Whether an expanded date text ends in a time-zone designator.
fn text_ends_in_timezone(e: &str) -> (r: bool)
    ensures
        r == ends_in_timezone(e@),
{
    let v = chars_vec(e);
    let n = v.len();
    if n > 0 && (v[n - 1] == 'Z' || v[n - 1] == 'z') {
        true
    } else {
        regex_is_match("[+-]\\d{2}:\\d{2}$", e)
    }
}

/// Reads a date text, where it can be read without a fault (`date_text_readable`): see
/// `date_text_of`.
pub fn read_date_text(iso: &str) -> (r: DateText)
    requires
        date_text_readable(iso@),
    ensures
        r == date_text_of(iso@),
{
    let expanded = expand_date_text(iso);
    let e = expanded.as_str();
    let tz = text_ends_in_timezone(e);
    let pieces = regex_split("[\\D,zZ]+", e);
    assert(texts_of(pieces@) =~= regex_pieces("[\\D,zZ]+"@, e@));
    let parts = date_part_values(&pieces);
    let zoned = if tz {
        parse_rfc3339_millis(e)
    } else {
        None
    };
    decide_date(&parts, tz, zoned)
}

/// Reads a date text: `None` where reading it would fault (a compact date of eight bytes
/// that cannot be cut at its fourth and sixth byte), else what it reads as.
pub fn read_date_text_checked(iso: &str) -> (r: Option<DateText>)
    ensures
        r == if date_text_readable(iso@) { Some(date_text_of(iso@)) } else { None },
{
    let dated = regex_replace("(\\d\\d\\d\\d)(\\d\\d)(\\d\\d)", iso, "$1-$2-$3");
    let timed = regex_replace("T(\\d\\d)(\\d\\d)(\\d\\d)", dated.as_str(), "T$1:$2:$3");
    let t = timed.as_str();
    if !holds_char(t, 'T') && t.as_bytes().len() == 8 && !(t.is_char_boundary(4) && t.is_char_boundary(6)) {
        return None;
    }
    let expanded = expand_date_text(iso);
    let pieces = regex_split("[\\D,zZ]+", expanded.as_str());
    assert(texts_of(pieces@) =~= regex_pieces("[\\D,zZ]+"@, expanded@));
    let parts = date_part_values(&pieces);
    if parts.len() > 1 && parts[1] == Some(i64::MIN) {
        return None;
    }
    Some(read_date_text(iso))
}

} // verus!
