//! Splits an expression into tokens.

use vstd::prelude::*;
use vstd::string::StringSliceAdditionalSpecFns;
use crate::errors::{JsonFormulaError, JsonFormulaErrorKind};
use crate::foreign::{accepts_json, decode_json_string, regex_find_end, string_from_chars};
use crate::lexer_spec::{
    last_kind, lex, lex_from, tokens_view, LexOutcome, TokenModel,
    basic_kind, byte_at, comparator_token, delimited_end, digits_value, has_fraction_or_exponent,
    bracket_step, is_global_at, is_ident_start, json_step, lex_step, number_start, number_step, operator_step, string_step, quoted_has_non_alnum, quoted_step, strings_view,
    suspicious_quote_notes, text_token, word_end,
    LexStep,
};
use crate::text::{
    concat_str, cut_point, decimal_string, digits_end, is_alnum_byte, is_digit_byte, number_prefix_len,
    mantissa_end, remove_char, replace_pair, replace_pair_exec, substr, text_of, trim_start_text,
};

verus! {

/// The kinds of token of the expression language.
#[derive(Debug, Clone, Copy, PartialEq, Eq, Structural)]
pub enum TokenKind {
    Eof,
    Identifier,
    QuotedIdentifier,
    Rbracket,
    Rparen,
    Comma,
    Colon,
    Concatenate,
    Rbrace,
    Number,
    Current,
    Global,
    Expref,
    Pipe,
    Or,
    And,
    Add,
    Subtract,
    UnaryMinus,
    Multiply,
    Union,
    Divide,
    Comparator,
    Flatten,
    Star,
    Filter,
    Dot,
    Not,
    Lbrace,
    Lbracket,
    Lparen,
    Json,
    String,
    Int,
}

/// The value a token carries. A number literal with a fraction or an exponent keeps its
/// decimal text, and a JSON literal keeps the JSON text that was checked to be a document;
/// the evaluator reads them into values.
#[derive(Debug, Clone, PartialEq)]
pub enum TokenValue {
    String(String),
    Number(String),
    Integer(i64),
    Json(String),
    Comparator(String),
}

/// A token, with the byte offset at which it starts.
#[derive(Debug, Clone, PartialEq)]
pub struct Token {
    pub kind: TokenKind,
    pub value: Option<TokenValue>,
    pub start: usize,
    pub name: Option<String>,
}

/// The tokenizer: it knows which global names are allowed and records notes about
/// suspicious input in `debug`.
pub struct Lexer<'a> {
    allowed_globals: &'a [String],
    debug: &'a mut Vec<String>,
    current: usize,
}

/// What one step of the tokenizer found.
enum Scan {
    Found(Token, usize),
    Skip(usize),
    Error(JsonFormulaError),
}

/// Whether the step `r` taken by the code is the step `step` of the meaning,
/// with the notes `before` and `after` recorded.
closed spec fn scan_matches(step: LexStep, r: Scan, before: Seq<String>, after: Seq<String>) -> bool {
    match step {
        LexStep::Emit(t, n, d) => r matches Scan::Found(tok, m) && tok@ == t && m == n
            && strings_view(after) == strings_view(before) + d,
        LexStep::Skip(n) => r matches Scan::Skip(m) && m == n && after == before,
        LexStep::Fail(msg, d) => r matches Scan::Error(e) && e.kind == JsonFormulaErrorKind::SyntaxError
            && e.message@ == msg && strings_view(after) == strings_view(before) + d,
        LexStep::Crash => false,
    }
}

fn text_token_exec(kind: TokenKind, text: &str, start: usize) -> (t: Token)
    ensures
        t@ == text_token(kind, text@, start as int),
{
    Token { kind, value: Some(TokenValue::String(String::from_str(text))), start, name: None }
}

fn found(kind: TokenKind, text: &str, start: usize, next: usize) -> (r: Scan)
    ensures
        r matches Scan::Found(t, n) && t@ == text_token(kind, text@, start as int) && n == next,
{
    Scan::Found(text_token_exec(kind, text, start), next)
}

fn comparator_found(text: &str, start: usize, next: usize) -> (r: Scan)
    ensures
        r matches Scan::Found(t, n) && t@ == comparator_token(text@, start as int) && n == next,
{
    Scan::Found(
        Token { kind: TokenKind::Comparator, value: Some(TokenValue::Comparator(String::from_str(text))), start, name: None },
        next,
    )
}

fn syntax_error(message: String) -> (r: Scan)
    ensures
        r matches Scan::Error(e) && e.kind == JsonFormulaErrorKind::SyntaxError && e.message@ == message@,
{
    Scan::Error(JsonFormulaError::syntax(message))
}

fn byte_at_exec(b: &[u8], p: usize) -> (r: u8)
    ensures
        r == byte_at(b@, p as int),
{
    if p < b.len() {
        b[p]
    } else {
        0
    }
}

/// The end of the identifier-like word that continues at `p`.
fn word_end_exec(b: &[u8], p: usize) -> (e: usize)
    requires
        1 <= p <= b@.len(),
        b@[p - 1] < 0x80,
    ensures
        e == word_end(b@, p as int),
        p <= e <= b@.len(),
        b@[e - 1] < 0x80,
{
    let mut j = p;
    while j < b.len() && (b[j] == 0x24 || is_alnum(b[j]))
        invariant
            p <= j <= b@.len(),
            word_end(b@, j as int) == word_end(b@, p as int),
            b@[j - 1] < 0x80,
        decreases b@.len() - j,
    {
        j = j + 1;
    }
    j
}

/// The end of a quoted body that starts at `j` and is closed by `close`.
fn delimited_end_exec(b: &[u8], j: usize, close: u8, backslash_escapes: bool) -> (e: usize)
    requires
        j <= b@.len(),
        close != 0,
    ensures
        e == delimited_end(b@, j as int, close, backslash_escapes),
        j <= e <= b@.len(),
        e == b@.len() || b@[e as int] == close,
{
    let mut k = j;
    while k < b.len() && b[k] != close
        invariant
            j <= k <= b@.len(),
            delimited_end(b@, k as int, close, backslash_escapes) == delimited_end(b@, j as int, close, backslash_escapes),
        decreases b@.len() - k,
    {
        if b[k] == 0x5c && k + 1 < b.len() && (b[k + 1] == close || (backslash_escapes && b[k + 1] == 0x5c)) {
            k = k + 2;
        } else {
            k = k + 1;
        }
    }
    k
}

fn quoted_has_non_alnum_exec(b: &[u8], j: usize) -> (r: bool)
    requires
        j <= b@.len(),
    ensures
        r == quoted_has_non_alnum(b@, j as int),
{
    let mut k = j;
    while k < b.len() && b[k] != 0x27
        invariant
            j <= k <= b@.len(),
            quoted_has_non_alnum(b@, k as int) == quoted_has_non_alnum(b@, j as int),
        decreases b@.len() - k,
    {
        if !is_alnum(b[k]) {
            return true;
        }
        k = k + 1;
    }
    false
}

/// An ASCII letter, digit or `_`.
fn is_alnum(ch: u8) -> (r: bool)
    ensures
        r == is_alnum_byte(ch),
{
    (0x41 <= ch && ch <= 0x5a) || (0x61 <= ch && ch <= 0x7a) || (0x30 <= ch && ch <= 0x39) || ch == 0x5f
}

/// `$`, an ASCII letter or `_`: a byte that starts an unquoted identifier.
fn is_identifier(stream: &[u8], pos: usize) -> (r: bool)
    requires
        pos < stream@.len(),
    ensures
        r == is_ident_start(stream@[pos as int]),
{
    let ch = stream[pos];
    ch == 0x24 || (0x41 <= ch && ch <= 0x5a) || (0x61 <= ch && ch <= 0x7a) || ch == 0x5f
}

/// One of `<`, `>`, `=`, `!`.
fn is_operator_start(ch: u8) -> (r: bool)
    ensures
        r == (ch == 0x3c || ch == 0x3e || ch == 0x3d || ch == 0x21),
{
    ch == 0x3c || ch == 0x3e || ch == 0x3d || ch == 0x21
}

/// A space, tab or newline.
fn is_skip_char(ch: u8) -> (r: bool)
    ensures
        r == (ch == 0x20 || ch == 0x09 || ch == 0x0a),
{
    ch == 0x20 || ch == 0x09 || ch == 0x0a
}

/// The kind of a one-byte token that needs no context.
fn basic_token_kind(ch: u8) -> (r: Option<TokenKind>)
    ensures
        r == basic_kind(ch),
{
    if ch == 0x2e {
        Some(TokenKind::Dot)
    } else if ch == 0x2c {
        Some(TokenKind::Comma)
    } else if ch == 0x3a {
        Some(TokenKind::Colon)
    } else if ch == 0x7b {
        Some(TokenKind::Lbrace)
    } else if ch == 0x7d {
        Some(TokenKind::Rbrace)
    } else if ch == 0x5d {
        Some(TokenKind::Rbracket)
    } else if ch == 0x28 {
        Some(TokenKind::Lparen)
    } else if ch == 0x29 {
        Some(TokenKind::Rparen)
    } else if ch == 0x40 {
        Some(TokenKind::Current)
    } else {
        None
    }
}

proof fn lemma_digits_end(s: Seq<u8>, p: int)
    requires
        0 <= p <= s.len(),
    ensures
        p <= digits_end(s, p) <= s.len(),
        forall|k: int| p <= k < digits_end(s, p) ==> is_digit_byte(#[trigger] s[k]),
        digits_end(s, p) < s.len() ==> !is_digit_byte(s[digits_end(s, p)]),
    decreases s.len() - p,
{
    if p < s.len() && is_digit_byte(s[p]) {
        lemma_digits_end(s, p + 1);
    }
}

proof fn lemma_number_prefix(s: Seq<u8>)
    ensures
        number_prefix_len(s) matches Some(k) ==> {
            &&& 1 <= k <= s.len()
            &&& is_digit_byte(s[k - 1])
            &&& (forall|q: int| 0 <= q < k ==> !(s[q] == 0x2e || s[q] == 0x65 || s[q] == 0x45))
                ==> (forall|q: int| 0 <= q < k ==> is_digit_byte(#[trigger] s[q]))
        },
{
    lemma_digits_end(s, 0);
    let a = digits_end(s, 0);
    if a + 1 < s.len() && s[a] == 0x2e && is_digit_byte(s[a + 1]) {
        lemma_digits_end(s, a + 1);
    }
    match mantissa_end(s) {
        None => {},
        Some(m) => {
            let q = m + 1;
            let q2 = if q < s.len() && (s[q] == 0x2b || s[q] == 0x2d) { q + 1 } else { q };
            if m < s.len() && (s[m] == 0x65 || s[m] == 0x45) && q2 < s.len() && is_digit_byte(s[q2]) {
                lemma_digits_end(s, q2);
                assert(!(s[m] == 0x2e || s[m] == 0x65 || s[m] == 0x45) ==> false);
            }
        },
    }
}

proof fn lemma_digits_value_grows(b: Seq<u8>, i: int, j: int)
    requires
        i <= j <= b.len(),
        0 <= i,
        forall|k: int| i <= k < j ==> is_digit_byte(#[trigger] b[k]),
    ensures
        digits_value(b, i, j) >= 0,
    decreases j - i,
{
    if j > i {
        lemma_digits_value_grows(b, i, j - 1);
    }
}

/// The step at a number literal at `i`.
fn consume_number(stream: &str, b: &[u8], i: usize) -> (r: Scan)
    requires
        b@ == stream.spec_bytes(),
        i < b@.len(),
        number_start(b@, i as int),
    ensures
        scan_matches(number_step(b@, i as int), r, seq![], seq![]),
{
    let ghost bs = b@;
    proof {
        assert(cut_point(bs, i as int));
    }
    let slice = substr(stream, i, b.len());
    let m = regex_find_end("^[0-9]*\\.?[0-9]+(?:[eE][-+]?[0-9]+)?", slice);
    proof {
        assert(slice.spec_bytes() == bs.subrange(i as int, bs.len() as int));
        lemma_number_prefix(bs.subrange(i as int, bs.len() as int));
    }
    match m {
        None => {
            let msg = concat_str("Invalid number: ", slice);
            syntax_error(msg)
        },
        Some(k) => {
            let e = i + k;
            proof {
                let s = bs.subrange(i as int, bs.len() as int);
                assert(s[k - 1] == bs[e - 1]);
                assert(cut_point(bs, e as int));
            }
            let n = substr(stream, i, e);
            let mut frac = false;
            let mut j = i;
            while j < e
                invariant
                    i <= j <= e <= b@.len(),
                    b@ == bs,
                    frac == exists|q: int| i <= q < j && (bs[q] == 0x2e || bs[q] == 0x65 || bs[q] == 0x45),
                decreases e - j,
            {
                if b[j] == 0x2e || b[j] == 0x65 || b[j] == 0x45 {
                    frac = true;
                }
                j = j + 1;
            }
            assert(frac == has_fraction_or_exponent(bs, i as int, e as int));
            if frac {
                Scan::Found(
                    Token { kind: TokenKind::Number, value: Some(TokenValue::Number(String::from_str(n))), start: i, name: None },
                    e,
                )
            } else {
                proof {
                    let s = bs.subrange(i as int, bs.len() as int);
                    assert forall|q: int| 0 <= q < k implies !(s[q] == 0x2e || s[q] == 0x65 || s[q] == 0x45) by {
                        assert(s[q] == bs[i + q]);
                    }
                    assert forall|q: int| i <= q < e implies is_digit_byte(#[trigger] bs[q]) by {
                        assert(s[q - i] == bs[q]);
                    }
                }
                let mut acc: i64 = 0;
                let mut overflow = false;
                let mut j = i;
                while j < e
                    invariant
                        i <= j <= e <= b@.len(),
                        b@ == bs,
                        forall|q: int| i <= q < e ==> is_digit_byte(#[trigger] bs[q]),
                        !overflow ==> acc == digits_value(bs, i as int, j as int),
                        overflow ==> digits_value(bs, i as int, j as int) > i64::MAX,
                    decreases e - j,
                {
                    proof {
                        lemma_digits_value_grows(bs, i as int, j as int);
                    }
                    let d = (b[j] - 0x30) as i64;
                    assert(bs[j as int] == b@[j as int]);
                    if !overflow {
                        if acc > (i64::MAX - d) / 10 {
                            overflow = true;
                        } else {
                            acc = acc * 10 + d;
                        }
                    }
                    j = j + 1;
                }
                if overflow {
                    let msg = concat_str("Invalid number: ", n);
                    syntax_error(msg)
                } else {
                    Scan::Found(
                        Token { kind: TokenKind::Int, value: Some(TokenValue::Integer(acc)), start: i, name: None },
                        e,
                    )
                }
            }
        },
    }
}


/// The step at a `'` at `i`, which starts a quoted identifier; notes go to `debug`.
fn consume_quoted_identifier(stream: &str, b: &[u8], i: usize, debug: &mut Vec<String>) -> (r: Scan)
    requires
        b@ == stream.spec_bytes(),
        i < b@.len(),
        b@[i as int] == 0x27,
        !(quoted_step(b@, i as int) is Crash),
    ensures
        scan_matches(quoted_step(b@, i as int), r, old(debug)@, final(debug)@),
{
    let ghost bs = b@;
    let n = b.len();
    assert(i + 1 < n);
    let found_non_alpha = !is_identifier(b, i + 1) || quoted_has_non_alnum_exec(b, i + 1);
    let e = delimited_end_exec(b, i + 1, 0x27, true);
    assert(e < n);
    proof {
        assert(cut_point(bs, i as int));
        assert(cut_point(bs, i + 1));
        assert(cut_point(bs, e as int));
        assert(cut_point(bs, e + 1));
    }
    let val = substr(stream, i, e + 1);
    let ghost before = debug@;
    if !found_non_alpha {
        let m1 = concat_str("Suspicious quotes: ", val);
        debug.push(m1);
        let stripped = remove_char_exec(val, '\'');
        let m2a = concat_str("Did you intend a literal? \"", stripped.as_str());
        let m2 = concat_str(m2a.as_str(), "\"?");
        debug.push(m2);
        proof {
            assert(strings_view(debug@) =~= strings_view(before) + suspicious_quote_notes(val@));
        }
    } else {
        proof {
            assert(strings_view(debug@) =~= strings_view(before) + Seq::<Seq<char>>::empty());
        }
    }
    let inner = substr(stream, i + 1, e);
    let replaced = replace_pair_exec(inner, '\\', '\'', '\'');
    let j1 = concat_str("\"", replaced.as_str());
    let json = concat_str(j1.as_str(), "\"");
    proof {
        assert(json@ =~= seq!['"'] + replace_pair(text_of(bs, i + 1, e as int), '\\', '\'', '\'') + seq!['"']) by {
            reveal_strlit("\"");
        }
    }
    match decode_json_string(json.as_str()) {
        Some(parsed) => Scan::Found(
            Token { kind: TokenKind::QuotedIdentifier, value: Some(TokenValue::String(parsed)), start: i, name: None },
            e + 1,
        ),
        None => syntax_error(concat_str("Invalid quoted identifier: ", val)),
    }
}

/// `s` without any `c`.
fn remove_char_exec(s: &str, c: char) -> (out: String)
    ensures
        out@ == remove_char(s@, c),
{
    let v = crate::text::chars_vec(s);
    let mut res: Vec<char> = Vec::new();
    let mut k: usize = 0;
    assert(v@.skip(0) =~= v@);
    assert(res@ + remove_char(v@, c) =~= remove_char(v@, c));
    while k < v.len()
        invariant
            k <= v@.len(),
            v@ == s@,
            res@ + remove_char(v@.skip(k as int), c) == remove_char(v@, c),
        decreases v@.len() - k,
    {
        let ghost rest = v@.skip(k as int);
        let ghost old_res = res@;
        proof {
            assert(rest.drop_first() =~= v@.skip(k + 1));
        }
        if v[k] != c {
            res.push(v[k]);
            proof {
                assert(res@ + remove_char(v@.skip(k + 1), c) =~= old_res + (seq![rest[0]]
                    + remove_char(rest.drop_first(), c)));
            }
        }
        k = k + 1;
    }
    assert(v@.skip(k as int) =~= Seq::<char>::empty());
    assert(res@ =~= remove_char(v@, c));
    string_from_chars(&res)
}


/// The step at a `"` at `i`, which starts a string literal.
fn consume_raw_string_literal(stream: &str, b: &[u8], i: usize) -> (r: Scan)
    requires
        b@ == stream.spec_bytes(),
        i < b@.len(),
        b@[i as int] == 0x22,
    ensures
        scan_matches(string_step(b@, i as int), r, seq![], seq![]),
{
    let ghost bs = b@;
    let n = b.len();
    let e = delimited_end_exec(b, i + 1, 0x22, true);
    proof {
        assert(cut_point(bs, i + 1));
        assert(cut_point(bs, e as int));
    }
    let literal = substr(stream, i + 1, e);
    if e >= n {
        let pos = decimal_string(i as u64);
        let m1 = concat_str("Unterminated string literal at ", pos.as_str());
        let m2 = concat_str(m1.as_str(), ", \"");
        return syntax_error(concat_str(m2.as_str(), literal));
    }
    let j1 = concat_str("\"", literal);
    let json = concat_str(j1.as_str(), "\"");
    proof {
        assert(json@ =~= seq!['"'] + literal@ + seq!['"']) by {
            reveal_strlit("\"");
        }
    }
    match decode_json_string(json.as_str()) {
        Some(parsed) => Scan::Found(
            Token { kind: TokenKind::String, value: Some(TokenValue::String(parsed)), start: i, name: None },
            e + 1,
        ),
        None => syntax_error(concat_str("Invalid string literal: ", literal)),
    }
}

/// The step at a backtick at `i`, which starts a JSON literal.
fn consume_json(stream: &str, b: &[u8], i: usize) -> (r: Scan)
    requires
        b@ == stream.spec_bytes(),
        i < b@.len(),
        b@[i as int] == 0x60,
    ensures
        scan_matches(json_step(b@, i as int), r, seq![], seq![]),
{
    let ghost bs = b@;
    let n = b.len();
    let start = i + 1;
    let e = delimited_end_exec(b, start, 0x60, false);
    proof {
        assert(cut_point(bs, start as int));
        assert(cut_point(bs, e as int));
    }
    let raw = substr(stream, start, e);
    let trimmed = trim_start_text(raw);
    let literal = replace_pair_exec(trimmed.as_str(), '\\', '`', '`');
    if e >= n {
        let pos = decimal_string(start as u64);
        let m1 = concat_str("Unterminated JSON literal at ", pos.as_str());
        let m2 = concat_str(m1.as_str(), ": `");
        let m3 = concat_str(m2.as_str(), literal.as_str());
        return syntax_error(concat_str(m3.as_str(), "`"));
    }
    if accepts_json(literal.as_str()) {
        Scan::Found(Token { kind: TokenKind::Json, value: Some(TokenValue::Json(literal)), start: i, name: None }, e + 1)
    } else {
        syntax_error(concat_str("Invalid JSON literal: ", literal.as_str()))
    }
}

/// The step at one of `<`, `>`, `=`, `!` at `i`.
fn consume_operator(b: &[u8], i: usize) -> (r: Scan)
    requires
        i < b@.len(),
        b@[i as int] == 0x3c || b@[i as int] == 0x3e || b@[i as int] == 0x3d || b@[i as int] == 0x21,
    ensures
        scan_matches(operator_step(b@, i as int), r, seq![], seq![]),
{
    let n = b.len();
    let c = b[i];
    let nx = byte_at_exec(b, i + 1);
    if c == 0x21 {
        if nx == 0x3d {
            comparator_found("!=", i, i + 2)
        } else {
            found(TokenKind::Not, "!", i, i + 1)
        }
    } else if c == 0x3c {
        if nx == 0x3d {
            comparator_found("<=", i, i + 2)
        } else if nx == 0x3e {
            comparator_found("!=", i, i + 2)
        } else {
            comparator_found("<", i, i + 1)
        }
    } else if c == 0x3e {
        if nx == 0x3d {
            comparator_found(">=", i, i + 2)
        } else {
            comparator_found(">", i, i + 1)
        }
    } else if nx == 0x3d {
        comparator_found("==", i, i + 2)
    } else {
        comparator_found("==", i, i + 1)
    }
}

/// The step at a `[` at `i`.
fn consume_lbracket(b: &[u8], i: usize) -> (r: Scan)
    requires
        i < b@.len(),
    ensures
        scan_matches(bracket_step(b@, i as int), r, seq![], seq![]),
{
    let n = b.len();
    let nx = byte_at_exec(b, i + 1);
    if nx == 0x3f {
        found(TokenKind::Filter, "[?", i, i + 2)
    } else if nx == 0x5d {
        found(TokenKind::Flatten, "[]", i, i + 2)
    } else {
        found(TokenKind::Lbracket, "[", i, i + 1)
    }
}


proof fn lemma_scan_unchanged(step: LexStep, r: Scan, d: Seq<String>)
    requires
        scan_matches(step, r, seq![], seq![]),
    ensures
        scan_matches(step, r, d, d),
{
    assert(strings_view(Seq::<String>::empty()) =~= Seq::<Seq<char>>::empty());
    match step {
        LexStep::Emit(t, n, dd) => {
            assert(dd =~= Seq::<Seq<char>>::empty());
            assert(strings_view(d) + dd =~= strings_view(d));
        },
        LexStep::Fail(m, dd) => {
            assert(dd =~= Seq::<Seq<char>>::empty());
            assert(strings_view(d) + dd =~= strings_view(d));
        },
        _ => {},
    }
}

/// Whether a number literal starts at `i`.
fn is_number(b: &[u8], i: usize) -> (r: bool)
    requires
        i < b@.len(),
    ensures
        r == number_start(b@, i as int),
{
    let ch = b[i];
    if 0x30 <= ch && ch <= 0x39 {
        return true;
    }
    if ch != 0x2e {
        return false;
    }
    if i == b.len() - 1 {
        return false;
    }
    let next = b[i + 1];
    0x30 <= next && next <= 0x39
}

/// Whether a `$` at `pos` starts a global name.
fn is_global(allowed: &[String], prev: Option<TokenKind>, stream: &str, b: &[u8], pos: usize) -> (r: bool)
    requires
        b@ == stream.spec_bytes(),
        pos < b@.len(),
    ensures
        r == is_global_at(b@, strings_view(allowed@), prev, pos as int),
{
    let ghost bs = b@;
    if prev == Some(TokenKind::Dot) {
        return false;
    }
    if b[pos] != 0x24 {
        return false;
    }
    let e = word_end_exec(b, pos + 1);
    proof {
        assert(cut_point(bs, pos as int));
        assert(cut_point(bs, e as int));
    }
    let global = String::from_str(substr(stream, pos, e));
    if allowed.len() == 0 {
        return true;
    }
    let ghost names = strings_view(allowed@);
    let mut k: usize = 0;
    while k < allowed.len()
        invariant
            k <= allowed@.len(),
            names == strings_view(allowed@),
            global@ == text_of(bs, pos as int, e as int),
            prev != Some(TokenKind::Dot),
            bs == b@,
            pos < bs.len(),
            bs[pos as int] == 0x24,
            e == word_end(bs, pos + 1),
            forall|q: int| 0 <= q < k ==> names[q] != global@,
        decreases allowed@.len() - k,
    {
        if allowed[k] == global {
            assert(names[k as int] == global@);
            assert(names.contains(global@));
            return true;
        }
        k = k + 1;
    }
    assert(!names.contains(global@));
    false
}

/// The word of `$`, letters, digits and `_` that starts at the ASCII byte `i`, and the
/// position after it.
fn consume_unquoted_identifier(stream: &str, b: &[u8], i: usize) -> (r: (String, usize))
    requires
        b@ == stream.spec_bytes(),
        i < b@.len(),
        b@[i as int] < 0x80,
    ensures
        r.1 == word_end(b@, i + 1),
        r.0@ == text_of(b@, i as int, r.1 as int),
{
    let ghost bs = b@;
    let n = b.len();
    let e = word_end_exec(b, i + 1);
    proof {
        assert(cut_point(bs, i as int));
        assert(cut_point(bs, e as int));
    }
    (String::from_str(substr(stream, i, e)), e)
}

/// The step at byte `i`, given the kind of the token before it.
fn scan_at(stream: &str, b: &[u8], allowed: &[String], prev: Option<TokenKind>, i: usize, debug: &mut Vec<String>) -> (r: Scan)
    requires
        b@ == stream.spec_bytes(),
        i < b@.len(),
        !(lex_step(b@, strings_view(allowed@), prev, i as int) is Crash),
    ensures
        scan_matches(lex_step(b@, strings_view(allowed@), prev, i as int), r, old(debug)@, final(debug)@),
{
    let ghost bs = b@;
    let ghost d0 = debug@;
    let ghost step = lex_step(bs, strings_view(allowed@), prev, i as int);
    let n = b.len();
    if is_global(allowed, prev, stream, b, i) {
        let (name, e) = consume_unquoted_identifier(stream, b, i);
        let r = Scan::Found(Token { kind: TokenKind::Global, value: None, start: i, name: Some(name) }, e);
        proof { lemma_scan_unchanged(step, r, d0); }
        return r;
    }
    let ch = b[i];
    if is_identifier(b, i) {
        let (word, e) = consume_unquoted_identifier(stream, b, i);
        let r = found(TokenKind::Identifier, word.as_str(), i, e);
        proof { lemma_scan_unchanged(step, r, d0); }
        return r;
    }
    let r = if is_number(b, i) {
        consume_number(stream, b, i)
    } else if let Some(kind) = basic_token_kind(ch) {
        let v = vec![ch as char];
        assert(v@ =~= seq![ch as char]);
        let text = string_from_chars(&v);
        Scan::Found(Token { kind, value: Some(TokenValue::String(text)), start: i, name: None }, i + 1)
    } else if ch == 0x2d && !matches!(
        prev,
        Some(TokenKind::Global) | Some(TokenKind::Current) | Some(TokenKind::Number) | Some(TokenKind::Int)
            | Some(TokenKind::Rparen) | Some(TokenKind::Identifier) | Some(TokenKind::QuotedIdentifier)
            | Some(TokenKind::Rbracket) | Some(TokenKind::Json) | Some(TokenKind::String)
    ) {
        found(TokenKind::UnaryMinus, "-", i, i + 1)
    } else if ch == 0x5b {
        consume_lbracket(b, i)
    } else if ch == 0x27 {
        return consume_quoted_identifier(stream, b, i, debug);
    } else if ch == 0x22 {
        consume_raw_string_literal(stream, b, i)
    } else if ch == 0x60 {
        consume_json(stream, b, i)
    } else if is_operator_start(ch) {
        consume_operator(b, i)
    } else if is_skip_char(ch) {
        Scan::Skip(i + 1)
    } else if ch == 0x26 {
        if i + 1 < n && b[i + 1] == 0x26 {
            found(TokenKind::And, "&&", i, i + 2)
        } else if matches!(prev, Some(TokenKind::Comma) | Some(TokenKind::Lparen)) {
            found(TokenKind::Expref, "&", i, i + 1)
        } else {
            found(TokenKind::Concatenate, "&", i, i + 1)
        }
    } else if ch == 0x7e {
        found(TokenKind::Union, "~", i, i + 1)
    } else if ch == 0x2b {
        found(TokenKind::Add, "+", i, i + 1)
    } else if ch == 0x2d {
        found(TokenKind::Subtract, "-", i, i + 1)
    } else if ch == 0x2a {
        found(TokenKind::Star, "*", i, i + 1)
    } else if ch == 0x2f {
        found(TokenKind::Divide, "/", i, i + 1)
    } else if ch == 0x7c {
        if i + 1 < n && b[i + 1] == 0x7c {
            found(TokenKind::Or, "||", i, i + 2)
        } else {
            found(TokenKind::Pipe, "|", i, i + 1)
        }
    } else {
        let v = vec![ch as char];
        assert(v@ =~= seq![ch as char]);
        let shown = string_from_chars(&v);
        syntax_error(concat_str("Unknown character:", shown.as_str()))
    };
    proof { lemma_scan_unchanged(step, r, d0); }
    r
}


impl<'a> Lexer<'a> {
    /// The allowed global names.
    pub closed spec fn globals(&self) -> Seq<Seq<char>> {
        strings_view(self.allowed_globals@)
    }

    /// The vector that receives the notes.
    pub closed spec fn sink(&self) -> &'a mut Vec<String> {
        self.debug
    }

    /// Once a tokenizer is used no more, its note vector holds what it last wrote there.
    pub proof fn lemma_sink_settled(self)
        requires
            has_resolved(self),
        ensures
            *self.sink() == *final(self.sink()),
    {
    }

    /// A tokenizer that accepts the global names `allowed_globals` and records notes in `debug`.
    pub fn new(allowed_globals: &'a [String], debug: &'a mut Vec<String>) -> (r: Self)
        ensures
            r.globals() == strings_view(allowed_globals@),
            *r.sink() == *old(debug),
            *final(r.sink()) == *final(debug),
    {
        Self { allowed_globals, debug, current: 0 }
    }

    /// Runs the tokenizer over `stream`: `None` exactly where `lex` crashes (a quoted
    /// identifier that is cut off by the end of the input).
    fn run(&mut self, stream: &str) -> (res: Option<Result<Vec<Token>, JsonFormulaError>>)
        ensures
            final(self).globals() == old(self).globals(),
            *final(final(self).sink()) == *final(old(self).sink()),
            match lex(stream.spec_bytes(), old(self).globals()) {
                LexOutcome::Tokens(ts, d) => res matches Some(Ok(v)) && tokens_view(v@) == ts
                    && strings_view((*final(self).sink())@) == strings_view((*old(self).sink())@) + d,
                LexOutcome::Failed(m, d) => res matches Some(Err(e)) && e.kind == JsonFormulaErrorKind::SyntaxError
                    && e.message@ == m
                    && strings_view((*final(self).sink())@) == strings_view((*old(self).sink())@) + d,
                LexOutcome::Crash => res is None,
            },
    {
        let mut tokens: Vec<Token> = Vec::new();
        self.current = 0;
        let b = stream.as_bytes();
        let n = b.len();
        let ghost al = self.globals();
        let ghost bs = b@;
        let ghost d0 = strings_view((*self.debug)@);
        let ghost mut added: Seq<Seq<char>> = seq![];
        assert(tokens_view(tokens@) =~= Seq::<TokenModel>::empty());
        assert(d0 + added =~= d0);
        while self.current < n
            invariant
                b@ == bs,
                n == bs.len(),
                bs == stream.spec_bytes(),
                al == self.globals(),
                al == old(self).globals(),
                *final(self.debug) == *final(old(self).debug),
                self.current <= bs.len(),
                strings_view((*self.debug)@) == d0 + added,
                d0 == strings_view((*old(self).debug)@),
                lex_from(bs, al, self.current as int, tokens_view(tokens@), added) == lex(bs, al),
            decreases bs.len() - self.current,
        {
            let prev = if tokens.len() == 0 {
                None
            } else {
                Some(tokens[tokens.len() - 1].kind)
            };
            let ghost i = self.current as int;
            let ghost tv = tokens_view(tokens@);
            assert(prev == last_kind(tv));
            let ghost step = lex_step(bs, al, prev, i);
            if b[self.current] == 0x27 {
                if self.current + 1 >= n || delimited_end_exec(b, self.current + 1, 0x27, true) >= n {
                    assert(step is Crash);
                    return None;
                }
            }
            assert(!(step is Crash));
            let ghost d = match step {
                LexStep::Emit(_, _, d) => d,
                LexStep::Fail(_, d) => d,
                _ => Seq::<Seq<char>>::empty(),
            };
            match scan_at(stream, b, self.allowed_globals, prev, self.current, self.debug) {
                Scan::Found(t, next) => {
                    if !(self.current < next && next <= n) {
                        return None;
                    }
                    proof {
                        assert(tokens_view(tokens@.push(t)) =~= tv.push(t@));
                        assert(d0 + (added + d) =~= (d0 + added) + d);
                        added = added + d;
                    }
                    tokens.push(t);
                    self.current = next;
                },
                Scan::Skip(next) => {
                    if !(self.current < next && next <= n) {
                        return None;
                    }
                    self.current = next;
                },
                Scan::Error(e) => {
                    assert(d0 + (added + d) =~= (d0 + added) + d);
                    return Some(Err(e));
                },
            }
        }
        Some(Ok(tokens))
    }

    /// Splits `stream` into tokens, as `lex` describes: the tokens, with the notes about
    /// suspicious quoting appended to the note vector, or the syntax error at the first
    /// position that no token fits, with the notes made before it.
    pub fn tokenize(&mut self, stream: &str) -> (res: Result<Vec<Token>, JsonFormulaError>)
        requires
            !(lex(stream.spec_bytes(), old(self).globals()) is Crash),
        ensures
            final(self).globals() == old(self).globals(),
            *final(final(self).sink()) == *final(old(self).sink()),
            match lex(stream.spec_bytes(), old(self).globals()) {
                LexOutcome::Tokens(ts, d) => res matches Ok(v) && tokens_view(v@) == ts
                    && strings_view((*final(self).sink())@) == strings_view((*old(self).sink())@) + d,
                LexOutcome::Failed(m, d) => res matches Err(e) && e.kind == JsonFormulaErrorKind::SyntaxError
                    && e.message@ == m
                    && strings_view((*final(self).sink())@) == strings_view((*old(self).sink())@) + d,
                LexOutcome::Crash => true,
            },
    {
        match self.run(stream) {
            Some(r) => r,
            None => Ok(Vec::new()),
        }
    }
}

/// Whether tokenizing `stream` with the allowed global names `allowed_globals` runs into
/// a quoted identifier cut off by the end of the input, where `lex` gives no outcome; the
/// tokenizer and the parser ask their callers to rule that out.
pub fn lex_crashes(stream: &str, allowed_globals: &[String]) -> (r: bool)
    ensures
        r == (lex(stream.spec_bytes(), strings_view(allowed_globals@)) is Crash),
{
    let mut scratch: Vec<String> = Vec::new();
    let mut lexer = Lexer::new(allowed_globals, &mut scratch);
    lexer.run(stream).is_none()
}

} // verus!
