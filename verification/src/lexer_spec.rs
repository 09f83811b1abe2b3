//! The meaning of tokenizing: a step function from a byte position to the token found
//! there, and the run of steps over a whole expression.

use vstd::prelude::*;
use crate::foreign::{json_string_value, json_text_accepted};
use crate::lexer::{Token, TokenKind, TokenValue};
use crate::text::{
    decimal_text, is_alnum_byte, is_alpha_byte, is_digit_byte, number_prefix_len,
    remove_char, replace_pair, text_of, trim_start_chars,
};

verus! {

/// The plain content of a token's value.
pub enum TokenValueModel {
    Str(Seq<char>),
    Number(Seq<char>),
    Integer(int),
    Json(Seq<char>),
    Comparator(Seq<char>),
}

/// The plain content of a token.
pub struct TokenModel {
    pub kind: TokenKind,
    pub value: Option<TokenValueModel>,
    pub start: nat,
    pub name: Option<Seq<char>>,
}

impl View for TokenValue {
    type V = TokenValueModel;

    open spec fn view(&self) -> TokenValueModel {
        match self {
            TokenValue::String(s) => TokenValueModel::Str(s@),
            TokenValue::Number(s) => TokenValueModel::Number(s@),
            TokenValue::Integer(n) => TokenValueModel::Integer(*n as int),
            TokenValue::Json(s) => TokenValueModel::Json(s@),
            TokenValue::Comparator(s) => TokenValueModel::Comparator(s@),
        }
    }
}

impl View for Token {
    type V = TokenModel;

    open spec fn view(&self) -> TokenModel {
        TokenModel {
            kind: self.kind,
            value: match self.value {
                Some(v) => Some(v@),
                None => None,
            },
            start: self.start as nat,
            name: match self.name {
                Some(n) => Some(n@),
                None => None,
            },
        }
    }
}

/// The plain content of a sequence of tokens.
pub open spec fn tokens_view(ts: Seq<Token>) -> Seq<TokenModel> {
    ts.map_values(|t: Token| t@)
}

/// The characters of each string of a sequence.
pub open spec fn strings_view(v: Seq<String>) -> Seq<Seq<char>> {
    v.map_values(|s: String| s@)
}

/// The byte at `p`, or NUL past the end.
pub open spec fn byte_at(b: Seq<u8>, p: int) -> u8 {
    if 0 <= p < b.len() {
        b[p]
    } else {
        0
    }
}

/// A byte that starts an unquoted identifier: `$`, an ASCII letter or `_`.
pub open spec fn is_ident_start(c: u8) -> bool {
    c == 0x24 || is_alpha_byte(c) || c == 0x5f
}

/// The first position at or after `p` that holds neither `$` nor an identifier byte.
pub open spec fn word_end(b: Seq<u8>, p: int) -> int
    decreases b.len() - p,
{
    if p < 0 || p >= b.len() || !(b[p] == 0x24 || is_alnum_byte(b[p])) {
        p
    } else {
        word_end(b, p + 1)
    }
}

/// The position of the closing delimiter `close` of a quoted text whose body starts at `j`,
/// or the end of the input: a backslash escapes a following `close`, and, where
/// `backslash_escapes` holds, a following backslash; a backslash at the very end escapes nothing.
pub open spec fn delimited_end(b: Seq<u8>, j: int, close: u8, backslash_escapes: bool) -> int
    decreases b.len() - j,
{
    if j < 0 || j >= b.len() || b[j] == close {
        j
    } else if b[j] == 0x5c && j + 1 < b.len() && (b[j + 1] == close || (backslash_escapes && b[j + 1] == 0x5c)) {
        delimited_end(b, j + 2, close, backslash_escapes)
    } else {
        delimited_end(b, j + 1, close, backslash_escapes)
    }
}

/// Whether a byte that is not an identifier byte comes before the closing quote, reading from `j`.
pub open spec fn quoted_has_non_alnum(b: Seq<u8>, j: int) -> bool
    decreases b.len() - j,
{
    if j < 0 || j >= b.len() || b[j] == 0x27 {
        false
    } else if !is_alnum_byte(b[j]) {
        true
    } else {
        quoted_has_non_alnum(b, j + 1)
    }
}

/// Whether a `$` at `p` starts a global name: not right after a dot, and either every
/// global is allowed or the name is one of the allowed ones.
pub open spec fn is_global_at(b: Seq<u8>, allowed: Seq<Seq<char>>, prev: Option<TokenKind>, p: int) -> bool {
    &&& prev != Some(TokenKind::Dot)
    &&& b[p] == 0x24
    &&& (allowed.len() == 0 || allowed.contains(text_of(b, p, word_end(b, p + 1))))
}

/// Whether a number literal starts at `p`: a digit, or a dot followed by a digit.
pub open spec fn number_start(b: Seq<u8>, p: int) -> bool {
    is_digit_byte(b[p]) || (b[p] == 0x2e && p != b.len() - 1 && is_digit_byte(b[p + 1]))
}

/// The one-byte tokens that need no context.
pub open spec fn basic_kind(c: u8) -> Option<TokenKind> {
    if c == 0x2e {
        Some(TokenKind::Dot)
    } else if c == 0x2c {
        Some(TokenKind::Comma)
    } else if c == 0x3a {
        Some(TokenKind::Colon)
    } else if c == 0x7b {
        Some(TokenKind::Lbrace)
    } else if c == 0x7d {
        Some(TokenKind::Rbrace)
    } else if c == 0x5d {
        Some(TokenKind::Rbracket)
    } else if c == 0x28 {
        Some(TokenKind::Lparen)
    } else if c == 0x29 {
        Some(TokenKind::Rparen)
    } else if c == 0x40 {
        Some(TokenKind::Current)
    } else {
        None
    }
}

/// The token kinds after which a `-` is a subtraction rather than a unary minus.
pub open spec fn ends_operand(prev: Option<TokenKind>) -> bool {
    match prev {
        Some(k) => k == TokenKind::Global || k == TokenKind::Current || k == TokenKind::Number
            || k == TokenKind::Int || k == TokenKind::Rparen || k == TokenKind::Identifier
            || k == TokenKind::QuotedIdentifier || k == TokenKind::Rbracket || k == TokenKind::Json
            || k == TokenKind::String,
        None => false,
    }
}

/// The value of the decimal digits `b[i..j]`.
pub open spec fn digits_value(b: Seq<u8>, i: int, j: int) -> int
    decreases j - i,
{
    if j <= i {
        0
    } else {
        digits_value(b, i, j - 1) * 10 + (b[j - 1] - 0x30)
    }
}

/// Whether `b[i..j]` holds a dot or an exponent letter.
pub open spec fn has_fraction_or_exponent(b: Seq<u8>, i: int, j: int) -> bool {
    exists|k: int| i <= k < j && (b[k] == 0x2e || b[k] == 0x65 || b[k] == 0x45)
}

/// What one step of the lexer does at a position.
pub enum LexStep {
    Emit(TokenModel, int, Seq<Seq<char>>),
    Skip(int),
    Fail(Seq<char>, Seq<Seq<char>>),
    Crash,
}

/// What tokenizing a whole expression gives.
pub enum LexOutcome {
    Tokens(Seq<TokenModel>, Seq<Seq<char>>),
    Failed(Seq<char>, Seq<Seq<char>>),
    Crash,
}

/// A token whose value is the string `text`.
pub open spec fn text_token(kind: TokenKind, text: Seq<char>, start: int) -> TokenModel {
    TokenModel { kind, value: Some(TokenValueModel::Str(text)), start: start as nat, name: None }
}

/// A comparator token.
pub open spec fn comparator_token(text: Seq<char>, start: int) -> TokenModel {
    TokenModel {
        kind: TokenKind::Comparator,
        value: Some(TokenValueModel::Comparator(text)),
        start: start as nat,
        name: None,
    }
}

/// The two notes recorded for a quoted identifier made only of identifier characters.
pub open spec fn suspicious_quote_notes(val: Seq<char>) -> Seq<Seq<char>> {
    seq![
        "Suspicious quotes: "@ + val,
        "Did you intend a literal? \""@ + remove_char(val, '\'') + "\"?"@,
    ]
}

/// The step at a number literal that starts at `i`.
pub open spec fn number_step(b: Seq<u8>, i: int) -> LexStep {
    match number_prefix_len(b.subrange(i, b.len() as int)) {
        None => LexStep::Fail("Invalid number: "@ + text_of(b, i, b.len() as int), seq![]),
        Some(k) => {
            let e = i + k;
            let n = text_of(b, i, e);
            if has_fraction_or_exponent(b, i, e) {
                LexStep::Emit(
                    TokenModel { kind: TokenKind::Number, value: Some(TokenValueModel::Number(n)), start: i as nat, name: None },
                    e,
                    seq![],
                )
            } else if digits_value(b, i, e) <= i64::MAX {
                LexStep::Emit(
                    TokenModel {
                        kind: TokenKind::Int,
                        value: Some(TokenValueModel::Integer(digits_value(b, i, e))),
                        start: i as nat,
                        name: None,
                    },
                    e,
                    seq![],
                )
            } else {
                LexStep::Fail("Invalid number: "@ + n, seq![])
            }
        },
    }
}

/// The step at a `'` that starts a quoted identifier at `i`.
pub open spec fn quoted_step(b: Seq<u8>, i: int) -> LexStep {
    if i + 1 >= b.len() {
        LexStep::Crash
    } else {
        let e = delimited_end(b, i + 1, 0x27, true);
        if e >= b.len() {
            LexStep::Crash
        } else {
            let val = text_of(b, i, e + 1);
            let notes = if !is_ident_start(b[i + 1]) || quoted_has_non_alnum(b, i + 1) {
                Seq::<Seq<char>>::empty()
            } else {
                suspicious_quote_notes(val)
            };
            let json = seq!['"'] + replace_pair(text_of(b, i + 1, e), '\\', '\'', '\'') + seq!['"'];
            match json_string_value(json) {
                Some(s) => LexStep::Emit(text_token(TokenKind::QuotedIdentifier, s, i), e + 1, notes),
                None => LexStep::Fail("Invalid quoted identifier: "@ + val, notes),
            }
        }
    }
}

/// The step at a `"` that starts a string literal at `i`.
pub open spec fn string_step(b: Seq<u8>, i: int) -> LexStep {
    let e = delimited_end(b, i + 1, 0x22, true);
    let literal = text_of(b, i + 1, e);
    if e >= b.len() {
        LexStep::Fail(
            "Unterminated string literal at "@ + decimal_text(i as nat) + ", \""@ + literal,
            seq![],
        )
    } else {
        match json_string_value(seq!['"'] + literal + seq!['"']) {
            Some(s) => LexStep::Emit(text_token(TokenKind::String, s, i), e + 1, seq![]),
            None => LexStep::Fail("Invalid string literal: "@ + literal, seq![]),
        }
    }
}

/// The step at a backtick that starts a JSON literal at `i`.
pub open spec fn json_step(b: Seq<u8>, i: int) -> LexStep {
    let e = delimited_end(b, i + 1, 0x60, false);
    let literal = replace_pair(trim_start_chars(text_of(b, i + 1, e)), '\\', '`', '`');
    if e >= b.len() {
        LexStep::Fail(
            "Unterminated JSON literal at "@ + decimal_text((i + 1) as nat) + ": `"@ + literal + "`"@,
            seq![],
        )
    } else if json_text_accepted(literal) {
        LexStep::Emit(
            TokenModel { kind: TokenKind::Json, value: Some(TokenValueModel::Json(literal)), start: i as nat, name: None },
            e + 1,
            seq![],
        )
    } else {
        LexStep::Fail("Invalid JSON literal: "@ + literal, seq![])
    }
}

/// The step at one of `<`, `>`, `=`, `!` at `i`.
pub open spec fn operator_step(b: Seq<u8>, i: int) -> LexStep {
    let c = b[i];
    let nx = byte_at(b, i + 1);
    if c == 0x21 {
        if nx == 0x3d {
            LexStep::Emit(comparator_token("!="@, i), i + 2, seq![])
        } else {
            LexStep::Emit(text_token(TokenKind::Not, "!"@, i), i + 1, seq![])
        }
    } else if c == 0x3c {
        if nx == 0x3d {
            LexStep::Emit(comparator_token("<="@, i), i + 2, seq![])
        } else if nx == 0x3e {
            LexStep::Emit(comparator_token("!="@, i), i + 2, seq![])
        } else {
            LexStep::Emit(comparator_token("<"@, i), i + 1, seq![])
        }
    } else if c == 0x3e {
        if nx == 0x3d {
            LexStep::Emit(comparator_token(">="@, i), i + 2, seq![])
        } else {
            LexStep::Emit(comparator_token(">"@, i), i + 1, seq![])
        }
    } else if nx == 0x3d {
        LexStep::Emit(comparator_token("=="@, i), i + 2, seq![])
    } else {
        LexStep::Emit(comparator_token("=="@, i), i + 1, seq![])
    }
}

/// The step at a `[` at `i`: a filter `[?`, a flatten `[]` or a plain bracket.
pub open spec fn bracket_step(b: Seq<u8>, i: int) -> LexStep {
    let nx = byte_at(b, i + 1);
    if nx == 0x3f {
        LexStep::Emit(text_token(TokenKind::Filter, "[?"@, i), i + 2, seq![])
    } else if nx == 0x5d {
        LexStep::Emit(text_token(TokenKind::Flatten, "[]"@, i), i + 2, seq![])
    } else {
        LexStep::Emit(text_token(TokenKind::Lbracket, "["@, i), i + 1, seq![])
    }
}

/// The step at the byte `i`, given the kind of the token before it.
pub open spec fn lex_step(b: Seq<u8>, allowed: Seq<Seq<char>>, prev: Option<TokenKind>, i: int) -> LexStep {
    let c = b[i];
    if is_global_at(b, allowed, prev, i) {
        let e = word_end(b, i + 1);
        LexStep::Emit(
            TokenModel { kind: TokenKind::Global, value: None, start: i as nat, name: Some(text_of(b, i, e)) },
            e,
            seq![],
        )
    } else if is_ident_start(c) {
        let e = word_end(b, i + 1);
        LexStep::Emit(text_token(TokenKind::Identifier, text_of(b, i, e), i), e, seq![])
    } else if number_start(b, i) {
        number_step(b, i)
    } else if basic_kind(c) is Some {
        LexStep::Emit(text_token(basic_kind(c)->0, seq![c as char], i), i + 1, seq![])
    } else if c == 0x2d && !ends_operand(prev) {
        LexStep::Emit(text_token(TokenKind::UnaryMinus, "-"@, i), i + 1, seq![])
    } else if c == 0x5b {
        bracket_step(b, i)
    } else if c == 0x27 {
        quoted_step(b, i)
    } else if c == 0x22 {
        string_step(b, i)
    } else if c == 0x60 {
        json_step(b, i)
    } else if c == 0x3c || c == 0x3e || c == 0x3d || c == 0x21 {
        operator_step(b, i)
    } else if c == 0x20 || c == 0x09 || c == 0x0a {
        LexStep::Skip(i + 1)
    } else if c == 0x26 {
        if byte_at(b, i + 1) == 0x26 {
            LexStep::Emit(text_token(TokenKind::And, "&&"@, i), i + 2, seq![])
        } else if prev == Some(TokenKind::Comma) || prev == Some(TokenKind::Lparen) {
            LexStep::Emit(text_token(TokenKind::Expref, "&"@, i), i + 1, seq![])
        } else {
            LexStep::Emit(text_token(TokenKind::Concatenate, "&"@, i), i + 1, seq![])
        }
    } else if c == 0x7e {
        LexStep::Emit(text_token(TokenKind::Union, "~"@, i), i + 1, seq![])
    } else if c == 0x2b {
        LexStep::Emit(text_token(TokenKind::Add, "+"@, i), i + 1, seq![])
    } else if c == 0x2d {
        LexStep::Emit(text_token(TokenKind::Subtract, "-"@, i), i + 1, seq![])
    } else if c == 0x2a {
        LexStep::Emit(text_token(TokenKind::Star, "*"@, i), i + 1, seq![])
    } else if c == 0x2f {
        LexStep::Emit(text_token(TokenKind::Divide, "/"@, i), i + 1, seq![])
    } else if c == 0x7c {
        if byte_at(b, i + 1) == 0x7c {
            LexStep::Emit(text_token(TokenKind::Or, "||"@, i), i + 2, seq![])
        } else {
            LexStep::Emit(text_token(TokenKind::Pipe, "|"@, i), i + 1, seq![])
        }
    } else {
        LexStep::Fail("Unknown character:"@ + seq![c as char], seq![])
    }
}

/// The kind of the last token, if any.
pub open spec fn last_kind(ts: Seq<TokenModel>) -> Option<TokenKind> {
    if ts.len() == 0 {
        None
    } else {
        Some(ts.last().kind)
    }
}

/// Tokenizing from position `i`, with the tokens `ts` and the notes `notes` found so far.
pub open spec fn lex_from(b: Seq<u8>, allowed: Seq<Seq<char>>, i: int, ts: Seq<TokenModel>, notes: Seq<Seq<char>>) -> LexOutcome
    decreases b.len() - i,
{
    if i < 0 || i >= b.len() {
        LexOutcome::Tokens(ts, notes)
    } else {
        match lex_step(b, allowed, last_kind(ts), i) {
            LexStep::Emit(t, next, d) => if i < next <= b.len() {
                lex_from(b, allowed, next, ts.push(t), notes + d)
            } else {
                LexOutcome::Crash
            },
            LexStep::Skip(next) => if i < next <= b.len() {
                lex_from(b, allowed, next, ts, notes)
            } else {
                LexOutcome::Crash
            },
            LexStep::Fail(m, d) => LexOutcome::Failed(m, notes + d),
            LexStep::Crash => LexOutcome::Crash,
        }
    }
}

/// Tokenizing the UTF-8 bytes `b` of an expression, with the allowed global names `allowed`
/// (none listed: every `$` name is a global).
pub open spec fn lex(b: Seq<u8>, allowed: Seq<Seq<char>>) -> LexOutcome {
    lex_from(b, allowed, 0, seq![], seq![])
}

/// A step of the lexer never yields an end-of-input token.
proof fn lemma_step_not_eof(b: Seq<u8>, allowed: Seq<Seq<char>>, prev: Option<TokenKind>, i: int)
    requires
        0 <= i < b.len(),
    ensures
        lex_step(b, allowed, prev, i) matches LexStep::Emit(t, _, _) ==> t.kind != TokenKind::Eof,
{
}

/// Tokenizing from `i` keeps the end-of-input kind out of the token list.
proof fn lemma_lex_from_no_eof(b: Seq<u8>, allowed: Seq<Seq<char>>, i: int, ts: Seq<TokenModel>, notes: Seq<Seq<char>>)
    requires
        forall|j: int| 0 <= j < ts.len() ==> #[trigger] ts[j].kind != TokenKind::Eof,
    ensures
        lex_from(b, allowed, i, ts, notes) matches LexOutcome::Tokens(out, _)
            ==> forall|j: int| 0 <= j < out.len() ==> #[trigger] out[j].kind != TokenKind::Eof,
    decreases b.len() - i,
{
    if 0 <= i < b.len() {
        lemma_step_not_eof(b, allowed, last_kind(ts), i);
        match lex_step(b, allowed, last_kind(ts), i) {
            LexStep::Emit(t, next, d) => if i < next <= b.len() {
                assert forall|j: int| 0 <= j < ts.push(t).len() implies #[trigger] ts.push(t)[j].kind != TokenKind::Eof by {
                    if j < ts.len() {
                        assert(ts.push(t)[j] == ts[j]);
                    }
                }
                lemma_lex_from_no_eof(b, allowed, next, ts.push(t), notes + d);
            },
            LexStep::Skip(next) => if i < next <= b.len() {
                lemma_lex_from_no_eof(b, allowed, next, ts, notes);
            },
            _ => {},
        }
    }
}

/// The tokens of an expression never include an end-of-input token.
pub proof fn law_lex_has_no_eof_token(b: Seq<u8>, allowed: Seq<Seq<char>>)
    ensures
        lex(b, allowed) matches LexOutcome::Tokens(ts, _)
            ==> forall|j: int| 0 <= j < ts.len() ==> #[trigger] ts[j].kind != TokenKind::Eof,
{
    lemma_lex_from_no_eof(b, allowed, 0, seq![], seq![]);
}

/// The tokens `ts` start at increasing positions, all before `bound`.
pub open spec fn starts_increasing(ts: Seq<TokenModel>, bound: int) -> bool {
    &&& forall|j: int| 0 <= j < ts.len() ==> #[trigger] ts[j].start < bound
    &&& forall|j: int, k: int| 0 <= j < k < ts.len() ==> #[trigger] ts[j].start < #[trigger] ts[k].start
}

/// A step of the lexer at `i` yields a token that starts at `i`.
proof fn lemma_step_start(b: Seq<u8>, allowed: Seq<Seq<char>>, prev: Option<TokenKind>, i: int)
    requires
        0 <= i < b.len(),
    ensures
        lex_step(b, allowed, prev, i) matches LexStep::Emit(t, _, _) ==> t.start == i,
{
}

proof fn lemma_lex_from_starts(b: Seq<u8>, allowed: Seq<Seq<char>>, i: int, ts: Seq<TokenModel>, notes: Seq<Seq<char>>)
    requires
        0 <= i,
        starts_increasing(ts, i),
    ensures
        lex_from(b, allowed, i, ts, notes) matches LexOutcome::Tokens(out, _)
            ==> starts_increasing(out, if i < b.len() { b.len() as int } else { i }),
    decreases b.len() - i,
{
    if i < b.len() {
        lemma_step_start(b, allowed, last_kind(ts), i);
        match lex_step(b, allowed, last_kind(ts), i) {
            LexStep::Emit(t, next, d) => if i < next <= b.len() {
                let ts2 = ts.push(t);
                assert forall|j: int| 0 <= j < ts2.len() implies #[trigger] ts2[j].start < next by {
                    if j < ts.len() {
                        assert(ts2[j] == ts[j]);
                    }
                }
                assert forall|j: int, k: int| 0 <= j < k < ts2.len() implies #[trigger] ts2[j].start < #[trigger] ts2[k].start by {
                    assert(ts2[j] == ts[j]);
                    if k < ts.len() {
                        assert(ts2[k] == ts[k]);
                    }
                }
                lemma_lex_from_starts(b, allowed, next, ts2, notes + d);
            },
            LexStep::Skip(next) => if i < next <= b.len() {
                lemma_lex_from_starts(b, allowed, next, ts, notes);
            },
            _ => {},
        }
    }
}

/// The tokens of an expression start at strictly increasing byte positions, all inside
/// the expression.
pub proof fn law_token_starts_increase(b: Seq<u8>, allowed: Seq<Seq<char>>)
    ensures
        lex(b, allowed) matches LexOutcome::Tokens(ts, _) ==> starts_increasing(ts, b.len() as int),
{
    lemma_lex_from_starts(b, allowed, 0, seq![], seq![]);
}

/// The characters of ASCII bytes.
pub open spec fn ascii_text(src: Seq<u8>) -> Seq<char> {
    Seq::new(src.len(), |k: int| src[k] as char)
}

/// Whether the two bytes spell one of the two-character comparators `<=`, `>=`, `<>`,
/// `==` or `!=`.
pub open spec fn two_byte_comparator(x: u8, y: u8) -> bool {
    (y == 0x3d && (x == 0x3c || x == 0x3e || x == 0x3d || x == 0x21)) || (x == 0x3c && y == 0x3e)
}

/// The spelling of the comparator that starts at `i`: two bytes where they spell a
/// two-character comparator, else the one byte at `i`.
pub open spec fn comparator_spelling(b: Seq<u8>, i: int) -> Seq<u8> {
    if i + 1 < b.len() && two_byte_comparator(b[i], b[i + 1]) {
        b.subrange(i, i + 2)
    } else {
        b.subrange(i, i + 1)
    }
}

/// The operator a comparator spelling stands for: `<>` is another spelling of `!=`, and
/// `=` of `==`; every other spelling stands for itself.
pub open spec fn comparator_meaning(src: Seq<u8>) -> Seq<char> {
    if src == seq![0x3cu8, 0x3eu8] {
        ascii_text(seq![0x21u8, 0x3du8])
    } else if src == seq![0x3du8] {
        ascii_text(seq![0x3du8, 0x3du8])
    } else {
        ascii_text(src)
    }
}

/// A comparator carries the operator text that was read: at a `<`, `>` or `=`, or at `!=`,
/// the tokenizer takes the longest comparator spelled there, as one comparator token at
/// that position whose text is what the spelling stands for (`>=` gives `">="`, `>` gives
/// `">"`, `<>` gives `"!="`, `=` gives `"=="`), and goes on after the spelling.
pub proof fn law_comparator_reads_its_text(b: Seq<u8>, allowed: Seq<Seq<char>>, prev: Option<TokenKind>, i: int)
    requires
        0 <= i < b.len(),
        b[i] == 0x3c || b[i] == 0x3e || b[i] == 0x3d || (b[i] == 0x21 && byte_at(b, i + 1) == 0x3d),
    ensures
        lex_step(b, allowed, prev, i) == LexStep::Emit(
            comparator_token(comparator_meaning(comparator_spelling(b, i)), i),
            i + comparator_spelling(b, i).len(),
            seq![],
        ),
{
    reveal_strlit("!=");
    reveal_strlit("<=");
    reveal_strlit(">=");
    reveal_strlit("==");
    reveal_strlit("<");
    reveal_strlit(">");
    let src = comparator_spelling(b, i);
    let nx = byte_at(b, i + 1);
    if i + 1 < b.len() && two_byte_comparator(b[i], b[i + 1]) {
        assert(src =~= seq![b[i], b[i + 1]]);
        if b[i] == 0x3c && nx == 0x3e {
            assert(src =~= seq![0x3cu8, 0x3eu8]);
            assert(comparator_meaning(src) =~= "!="@);
        } else if b[i] == 0x3c {
            assert(comparator_meaning(src) =~= "<="@);
        } else if b[i] == 0x3e {
            assert(comparator_meaning(src) =~= ">="@);
        } else if b[i] == 0x3d {
            assert(comparator_meaning(src) =~= "=="@);
        } else {
            assert(comparator_meaning(src) =~= "!="@);
        }
    } else {
        assert(src =~= seq![b[i]]);
        if b[i] == 0x3c {
            assert(comparator_meaning(src) =~= "<"@);
        } else if b[i] == 0x3e {
            assert(comparator_meaning(src) =~= ">"@);
        } else {
            assert(b[i] == 0x3d);
            assert(src =~= seq![0x3du8]);
            assert(comparator_meaning(src) =~= "=="@);
        }
    }
}

} // verus!
