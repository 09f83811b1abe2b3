//! The calls this library makes into serde_json, regex and std functions that
//! vstd does not specify, each with the contract that the rest of the crate relies on.

use vstd::prelude::*;
use vstd::string::StringSliceAdditionalSpecFns;
use crate::text::{number_prefix_len, trim_chars};
use chrono::Datelike;

verus! {

/// The string that serde_json reads from a JSON document `text` whose top-level value
/// must be a JSON string, or `None` where serde_json rejects the document.
pub uninterp spec fn json_string_value(text: Seq<char>) -> Option<Seq<char>>;

/// Whether serde_json accepts `text` as one complete JSON document.
pub uninterp spec fn json_text_accepted(text: Seq<char>) -> bool;

/// Calls `serde_json::from_str::<String>`: the contract claims only that the result,
/// taken as characters, is the named function `json_string_value` of the input.
#[verifier::external_body]
pub(crate) fn decode_json_string(text: &str) -> (res: Option<String>)
    ensures
        match res {
            Some(s) => json_string_value(text@) == Some(s@),
            None => json_string_value(text@) is None,
        },
{
    serde_json::from_str::<String>(text).ok()
}

/// Calls `serde_json::from_str::<serde_json::Value>` and reports whether it succeeded:
/// the contract claims only that the answer is the named predicate `json_text_accepted`.
#[verifier::external_body]
pub(crate) fn accepts_json(text: &str) -> (res: bool)
    ensures
        res == json_text_accepted(text@),
{
    serde_json::from_str::<serde_json::Value>(text).is_ok()
}

/// Compiles `pattern` with `regex::Regex::new` and calls `Regex::find` on `text`,
/// returning the end of the match. Only the number pattern of the lexer is admitted; for
/// it the contract claims that the end is the one that the regex crate's leftmost-first
/// (greedy, backtracking order) semantics gives for that anchored pattern, written out as
/// `number_prefix_len`.
#[verifier::external_body]
pub(crate) fn regex_find_end(pattern: &str, text: &str) -> (res: Option<usize>)
    requires
        pattern@ == "^[0-9]*\\.?[0-9]+(?:[eE][-+]?[0-9]+)?"@,
    ensures
        match number_prefix_len(text.spec_bytes()) {
            Some(k) => res == Some(k as usize),
            None => res is None,
        },
{
    let re = regex::Regex::new(pattern).expect("admitted patterns compile");
    re.find(text).map(|m| m.end())
}

/// Collects characters into a `String` with `String::from_iter`; the result holds exactly
/// those characters.
#[verifier::external_body]
pub(crate) fn string_from_chars(chars: &Vec<char>) -> (res: String)
    ensures
        res@ == chars@,
{
    String::from_iter(chars.iter())
}

/// The characters that `char::to_uppercase` gives for `c` (Unicode case mapping).
pub uninterp spec fn upper_case_of(c: char) -> Seq<char>;

/// The characters that `char::to_lowercase` gives for `c` (Unicode case mapping).
pub uninterp spec fn lower_case_of(c: char) -> Seq<char>;

/// The text that `str::to_uppercase` gives for `s`.
pub uninterp spec fn upper_case_text(s: Seq<char>) -> Seq<char>;

/// The text that `str::to_lowercase` gives for `s` (which, unlike the mapping of single
/// characters, looks at the neighbours of a capital sigma).
pub uninterp spec fn lower_case_text(s: Seq<char>) -> Seq<char>;

/// Collects `char::to_uppercase`: the contract claims only that the characters are the
/// named mapping `upper_case_of` of `c`.
#[verifier::external_body]
pub(crate) fn char_to_uppercase(c: char) -> (res: Vec<char>)
    ensures
        res@ == upper_case_of(c),
{
    c.to_uppercase().collect()
}

/// Collects `char::to_lowercase`: the contract claims only that the characters are the
/// named mapping `lower_case_of` of `c`.
#[verifier::external_body]
pub(crate) fn char_to_lowercase(c: char) -> (res: Vec<char>)
    ensures
        res@ == lower_case_of(c),
{
    c.to_lowercase().collect()
}

/// Calls `str::to_uppercase`: the contract claims only that the result is the named
/// function `upper_case_text` of the input.
#[verifier::external_body]
pub(crate) fn str_to_uppercase(s: &str) -> (res: String)
    ensures
        res@ == upper_case_text(s@),
{
    s.to_uppercase()
}

/// Calls `str::to_lowercase`: the contract claims only that the result is the named
/// function `lower_case_text` of the input.
#[verifier::external_body]
pub(crate) fn str_to_lowercase(s: &str) -> (res: String)
    ensures
        res@ == lower_case_text(s@),
{
    s.to_lowercase()
}

/// The instant, in milliseconds since the Unix epoch, of the UTC date and time at `millis`
/// moved to the year `year` with chrono's `with_year`, keeping month, day and time; `None`
/// where chrono gives none (February 29 in a year that has none, or out of range).
pub uninterp spec fn year_changed_millis(millis: int, year: int) -> Option<int>;

/// Builds the UTC date and time at `millis` with `DateTime::from_timestamp_millis`, calls
/// chrono's `with_year` on it, and reads back `timestamp_millis`: the contract claims only
/// that the answer is the named function `year_changed_millis` of the arguments.
#[verifier::external_body]
pub(crate) fn with_year_millis(millis: i64, year: i32) -> (res: Option<i64>)
    ensures
        match res {
            Some(m) => year_changed_millis(millis as int, year as int) == Some(m as int),
            None => year_changed_millis(millis as int, year as int) is None,
        },
{
    let dt = chrono::DateTime::<chrono::Utc>::from_timestamp_millis(millis)?;
    dt.with_year(year).map(|d| d.timestamp_millis())
}

/// Whether `c` is a character of the digit class of the base-`base` number pattern of
/// `toNumber` (its digits and the point).
pub open spec fn base_class(c: char, base: int) -> bool {
    c == '.' || (if base == 2 {
        c == '0' || c == '1'
    } else if base == 8 {
        '0' <= c && c <= '7'
    } else {
        ('0' <= c && c <= '9') || ('A' <= c && c <= 'F') || ('a' <= c && c <= 'f')
    })
}

/// Whether `s` matches `^\s*(\+|-)?[class]+\s*$` for the class of base `base`: with its
/// white space trimmed, an optional sign and then at least one character of the class.
pub open spec fn base_syntax(s: Seq<char>, base: int) -> bool {
    let t = trim_chars(s);
    let body = if t.len() > 0 && (t[0] == '+' || t[0] == '-') { t.drop_first() } else { t };
    body.len() > 0 && forall|i: int| 0 <= i < body.len() ==> base_class(#[trigger] body[i], base)
}

/// Whether `Regex::is_match` finds a match of the compiled `pattern` in `text`.
pub uninterp spec fn regex_found(pattern: Seq<char>, text: Seq<char>) -> bool;

/// Compiles `pattern` with `regex::Regex::new` and calls `Regex::is_match` on `text`. Only
/// the three patterns of `toNumber` for bases 2, 8 and 16 and the two time-zone offset
/// patterns of date reading are admitted (each compiles). The contract claims that the
/// answer is the named predicate `regex_found`, and for the three base patterns the match
/// that `base_syntax` writes out (`\s` is the Unicode `White_Space` class).
#[verifier::external_body]
pub(crate) fn regex_is_match(pattern: &str, text: &str) -> (res: bool)
    requires
        pattern@ == "^\\s*(\\+|-)?[01.]+\\s*$"@ || pattern@ == "^\\s*(\\+|-)?[0-7.]+\\s*$"@
            || pattern@ == "^\\s*(\\+|-)?[0-9A-Fa-f.]+\\s*$"@
            || pattern@ == "([+-])(\\d{2})(\\d{2})$"@ || pattern@ == "[+-]\\d{2}:\\d{2}$"@,
    ensures
        res == regex_found(pattern@, text@),
        pattern@ == "^\\s*(\\+|-)?[01.]+\\s*$"@ ==> res == base_syntax(text@, 2),
        pattern@ == "^\\s*(\\+|-)?[0-7.]+\\s*$"@ ==> res == base_syntax(text@, 8),
        pattern@ == "^\\s*(\\+|-)?[0-9A-Fa-f.]+\\s*$"@ ==> res == base_syntax(text@, 16),
{
    let re = regex::Regex::new(pattern).expect("admitted patterns compile");
    re.is_match(text)
}

/// The text that `Regex::replace` gives for the compiled `pattern` on `text`: the leftmost
/// match replaced by `replacement`, its `$n` references expanded to the groups.
pub uninterp spec fn regex_replaced(pattern: Seq<char>, text: Seq<char>, replacement: Seq<char>) -> Seq<char>;

/// Compiles `pattern` with `regex::Regex::new` and calls `Regex::replace` on `text` with
/// the replacement `replacement`. Only the three digit-group patterns of date reading are
/// admitted (each compiles); the contract claims only that the result is the named
/// function `regex_replaced` of the three arguments.
#[verifier::external_body]
pub(crate) fn regex_replace(pattern: &str, text: &str, replacement: &str) -> (res: String)
    requires
        pattern@ == "(\\d\\d\\d\\d)(\\d\\d)(\\d\\d)"@ || pattern@ == "T(\\d\\d)(\\d\\d)(\\d\\d)"@
            || pattern@ == "([+-])(\\d{2})(\\d{2})$"@,
    ensures
        res@ == regex_replaced(pattern@, text@, replacement@),
{
    let re = regex::Regex::new(pattern).expect("admitted patterns compile");
    re.replace(text, replacement).into_owned()
}

/// The pieces, in order, into which `Regex::split` cuts `text` at the matches of the
/// compiled `pattern` (empty pieces included).
pub uninterp spec fn regex_pieces(pattern: Seq<char>, text: Seq<char>) -> Seq<Seq<char>>;

/// Compiles `pattern` with `regex::Regex::new` and collects `Regex::split` on `text` into
/// strings. Only the separator pattern of date reading is admitted (it compiles); the
/// contract claims only that the pieces are the named function `regex_pieces`.
#[verifier::external_body]
pub(crate) fn regex_split(pattern: &str, text: &str) -> (res: Vec<String>)
    requires
        pattern@ == "[\\D,zZ]+"@,
    ensures
        res@.len() == regex_pieces(pattern@, text@).len(),
        forall|i: int| 0 <= i < res@.len() ==> #[trigger] res@[i]@ == regex_pieces(pattern@, text@)[i],
{
    let re = regex::Regex::new(pattern).expect("admitted patterns compile");
    re.split(text).map(|piece| piece.to_string()).collect()
}

/// The instant, in milliseconds since the Unix epoch, that chrono's
/// `DateTime::parse_from_rfc3339` reads from `text`, or `None` where it refuses the text.
pub uninterp spec fn rfc3339_millis(text: Seq<char>) -> Option<int>;

/// Calls `DateTime::parse_from_rfc3339` and reads `timestamp_millis` from the result: the
/// contract claims only that the answer is the named function `rfc3339_millis` of the text.
#[verifier::external_body]
pub(crate) fn parse_rfc3339_millis(text: &str) -> (res: Option<i64>)
    ensures
        match res {
            Some(m) => rfc3339_millis(text@) == Some(m as int),
            None => rfc3339_millis(text@) is None,
        },
{
    chrono::DateTime::parse_from_rfc3339(text).ok().map(|dt| dt.timestamp_millis())
}

} // verus!
