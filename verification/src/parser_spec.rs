//! The meaning of parsing: a top-down operator-precedence reading of a token sequence,
//! written as spec functions over the position of the next token.

use vstd::prelude::*;
use crate::ast::Ast;
use crate::lexer::TokenKind;
use crate::lexer_spec::{lex, LexOutcome, TokenModel, TokenValueModel};
use crate::text::signed_decimal_text;

verus! {

/// How strongly a token binds the expression to its left.
pub open spec fn bp(k: TokenKind) -> int {
    match k {
        TokenKind::Pipe => 1,
        TokenKind::Or => 2,
        TokenKind::And => 3,
        TokenKind::Comparator => 4,
        TokenKind::Concatenate => 5,
        TokenKind::Add => 6,
        TokenKind::Subtract => 6,
        TokenKind::Union => 6,
        TokenKind::Multiply => 7,
        TokenKind::Divide => 7,
        TokenKind::Not => 8,
        TokenKind::UnaryMinus => 8,
        TokenKind::Flatten => 10,
        TokenKind::Star => 20,
        TokenKind::Filter => 21,
        TokenKind::Dot => 40,
        TokenKind::Lbrace => 50,
        TokenKind::Lbracket => 55,
        TokenKind::Lparen => 60,
        _ => 0,
    }
}

/// The name of a token kind, as `Debug` prints it.
pub open spec fn kind_name(k: TokenKind) -> Seq<char> {
    match k {
        TokenKind::Eof => "Eof"@,
        TokenKind::Identifier => "Identifier"@,
        TokenKind::QuotedIdentifier => "QuotedIdentifier"@,
        TokenKind::Rbracket => "Rbracket"@,
        TokenKind::Rparen => "Rparen"@,
        TokenKind::Comma => "Comma"@,
        TokenKind::Colon => "Colon"@,
        TokenKind::Concatenate => "Concatenate"@,
        TokenKind::Rbrace => "Rbrace"@,
        TokenKind::Number => "Number"@,
        TokenKind::Current => "Current"@,
        TokenKind::Global => "Global"@,
        TokenKind::Expref => "Expref"@,
        TokenKind::Pipe => "Pipe"@,
        TokenKind::Or => "Or"@,
        TokenKind::And => "And"@,
        TokenKind::Add => "Add"@,
        TokenKind::Subtract => "Subtract"@,
        TokenKind::UnaryMinus => "UnaryMinus"@,
        TokenKind::Multiply => "Multiply"@,
        TokenKind::Union => "Union"@,
        TokenKind::Divide => "Divide"@,
        TokenKind::Comparator => "Comparator"@,
        TokenKind::Flatten => "Flatten"@,
        TokenKind::Star => "Star"@,
        TokenKind::Filter => "Filter"@,
        TokenKind::Dot => "Dot"@,
        TokenKind::Not => "Not"@,
        TokenKind::Lbrace => "Lbrace"@,
        TokenKind::Lbracket => "Lbracket"@,
        TokenKind::Lparen => "Lparen"@,
        TokenKind::Json => "Json"@,
        TokenKind::String => "String"@,
        TokenKind::Int => "Int"@,
    }
}

/// A token value as `Debug` prints it, for the values whose text needs no escaping.
pub open spec fn value_debug(v: Option<TokenValueModel>) -> Seq<char> {
    match v {
        None => "None"@,
        Some(TokenValueModel::Str(s)) => "Some(String(\""@ + s + "\"))"@,
        Some(TokenValueModel::Comparator(s)) => "Some(Comparator(\""@ + s + "\"))"@,
        Some(TokenValueModel::Integer(n)) => "Some(Integer("@ + signed_decimal_text(n) + "))"@,
        Some(TokenValueModel::Number(s)) => "Some(Number("@ + s + "))"@,
        Some(TokenValueModel::Json(s)) => "Some(Json("@ + s + "))"@,
    }
}

/// The error for a token that cannot start or continue an expression.
pub open spec fn unexpected_token_msg(t: TokenModel) -> Seq<char> {
    "Unexpected token type: "@ + kind_name(t.kind) + ", value: "@ + value_debug(t.value)
}

/// The error for a token other than the one required.
pub open spec fn expected_msg(want: TokenKind, got: TokenKind) -> Seq<char> {
    "Expected token "@ + kind_name(want) + ", got "@ + kind_name(got)
}

/// The token at `p`; past the end, an end-of-input token.
pub open spec fn tok(ts: Seq<TokenModel>, p: int) -> TokenModel {
    if 0 <= p < ts.len() {
        ts[p]
    } else {
        TokenModel { kind: TokenKind::Eof, value: None, start: 0, name: None }
    }
}

/// The kind of the token at `p`.
pub open spec fn kind(ts: Seq<TokenModel>, p: int) -> TokenKind {
    tok(ts, p).kind
}

/// The token kind that a node stands for, when it is the left side of a `*`.
pub open spec fn node_kind(a: Ast) -> TokenKind {
    match a {
        Ast::Identifier(_) => TokenKind::Identifier,
        Ast::QuotedIdentifier(_) => TokenKind::QuotedIdentifier,
        Ast::Literal(_) => TokenKind::Json,
        Ast::String(_) => TokenKind::String,
        Ast::Number(_) => TokenKind::Number,
        Ast::Integer(_) => TokenKind::Int,
        Ast::Current => TokenKind::Current,
        Ast::Global(_) => TokenKind::Global,
        Ast::ExpressionReference(_) => TokenKind::Expref,
        Ast::NotExpression(_) => TokenKind::Not,
        Ast::UnaryMinusExpression(_) => TokenKind::UnaryMinus,
        Ast::ConcatenateExpression(_, _) => TokenKind::Concatenate,
        Ast::OrExpression(_, _) => TokenKind::Or,
        Ast::AndExpression(_, _) => TokenKind::And,
        Ast::AddExpression(_, _) => TokenKind::Add,
        Ast::SubtractExpression(_, _) => TokenKind::Subtract,
        Ast::MultiplyExpression(_, _) => TokenKind::Multiply,
        Ast::DivideExpression(_, _) => TokenKind::Divide,
        Ast::UnionExpression(_, _) => TokenKind::Union,
        Ast::Comparator { .. } => TokenKind::Comparator,
        Ast::Pipe(_, _) => TokenKind::Pipe,
        Ast::ChainedExpression(_) => TokenKind::Dot,
        Ast::BracketExpression(_, _) => TokenKind::Identifier,
        Ast::Index(_) => TokenKind::Identifier,
        Ast::Slice { .. } => TokenKind::Identifier,
        Ast::Projection { .. } => TokenKind::Star,
        Ast::ValueProjection { .. } => TokenKind::Star,
        Ast::FilterProjection { .. } => TokenKind::Filter,
        Ast::Flatten(_) => TokenKind::Flatten,
        Ast::Function { .. } => TokenKind::Lparen,
        Ast::ArrayExpression(_) => TokenKind::Lbracket,
        Ast::ObjectExpression(_) => TokenKind::Lbrace,
        Ast::KeyValuePair { .. } => TokenKind::Lbrace,
        Ast::Identity => TokenKind::Identifier,
    }
}

/// The kind a token `k` has after the expression `prev`: a `*` after an operand is a
/// multiplication.
pub open spec fn effective_kind(k: TokenKind, prev: Option<Ast>) -> TokenKind {
    if k != TokenKind::Star {
        k
    } else if prev matches Some(Ast::ArrayExpression(_)) || prev matches Some(Ast::ObjectExpression(_)) {
        TokenKind::Multiply
    } else {
        match prev {
            None => TokenKind::Star,
            Some(a) => {
                let nk = node_kind(a);
                if nk == TokenKind::Lbracket || nk == TokenKind::Dot || nk == TokenKind::Pipe
                    || nk == TokenKind::And || nk == TokenKind::Or || nk == TokenKind::Comma
                    || nk == TokenKind::Not || nk == TokenKind::Lparen {
                    TokenKind::Star
                } else {
                    TokenKind::Multiply
                }
            },
        }
    }
}

/// The token at `p` with its kind read after the expression `prev`.
pub open spec fn tok_after(ts: Seq<TokenModel>, p: int, prev: Option<Ast>) -> TokenModel {
    let t = tok(ts, p);
    TokenModel { kind: effective_kind(t.kind, prev), ..t }
}

/// The kinds after which a `*` or a projection has nothing more on its right.
pub open spec fn ends_projection(k: TokenKind) -> bool {
    k == TokenKind::Rbracket || k == TokenKind::Rparen || k == TokenKind::Eof || k == TokenKind::Comma
        || k == TokenKind::Pipe || k == TokenKind::Or || k == TokenKind::And || k == TokenKind::Comparator
        || k == TokenKind::Concatenate || k == TokenKind::Add || k == TokenKind::Subtract
        || k == TokenKind::Multiply || k == TokenKind::Divide || k == TokenKind::Union
        || k == TokenKind::Flatten
}

/// The kinds that end a bare `*` wildcard.
pub open spec fn ends_wildcard(k: TokenKind) -> bool {
    ends_projection(k) || k == TokenKind::Rbrace || k == TokenKind::Star || k == TokenKind::Filter
}

/// The kinds that may not follow a projection directly.
pub open spec fn bad_after_projection(k: TokenKind) -> bool {
    k == TokenKind::Identifier || k == TokenKind::QuotedIdentifier || k == TokenKind::String
        || k == TokenKind::Number || k == TokenKind::Int || k == TokenKind::Json
        || k == TokenKind::UnaryMinus || k == TokenKind::Star
}

/// The literal nodes that may not stand right of a dot.
pub open spec fn is_literal_node(a: Ast) -> bool {
    a matches Ast::Literal(_) || a matches Ast::String(_) || a matches Ast::Number(_)
        || a matches Ast::Integer(_) || a matches Ast::UnaryMinusExpression(_)
}

/// The integer that a slice position written as `n` or `-n` stands for (negation wraps
/// around as 64-bit negation does; integer tokens are never negative, so it does not occur).
pub open spec fn slice_int(a: Ast) -> Option<int> {
    match a {
        Ast::Integer(v) => Some(v),
        Ast::UnaryMinusExpression(inner) => match *inner {
            Ast::Integer(v) => Some(if v == i64::MIN { v } else { -v }),
            _ => None,
        },
        _ => None,
    }
}

/// Whether an index expression starts at `p`: an optional unary minus, an optional integer,
/// then `]` or `:`.
pub open spec fn looks_like_index(ts: Seq<TokenModel>, p: int) -> bool {
    let i1 = if kind(ts, p) == TokenKind::UnaryMinus { p + 1 } else { p };
    let i2 = if kind(ts, i1) == TokenKind::Int { i1 + 1 } else { i1 };
    kind(ts, i2) == TokenKind::Rbracket || kind(ts, i2) == TokenKind::Colon
}

/// `left[right]`, projecting first when `right` is a slice.
pub open spec fn project_if_slice(left: Ast, right: Ast) -> Ast {
    if right matches Ast::Slice { .. } {
        Ast::BracketExpression(
            Box::new(Ast::Projection { left: Box::new(left), right: Box::new(Ast::Identity), debug: None }),
            Box::new(right),
        )
    } else {
        Ast::BracketExpression(Box::new(left), Box::new(right))
    }
}

/// The operator text of a comparator token.
pub open spec fn comparator_op(t: TokenModel) -> Seq<char> {
    match t.value {
        Some(TokenValueModel::Comparator(v)) => v,
        Some(TokenValueModel::Str(v)) => v,
        _ => "=="@,
    }
}

/// The result of parsing one node: the node and the position after it, or an error message.
pub type PRes = Result<(Ast, int), Seq<char>>;

/// The result of parsing a list of nodes.
pub type LRes = Result<(Seq<Ast>, int), Seq<char>>;

/// Whether a parse that started at `p` ended at `q` inside the tokens and after `p`.
pub open spec fn advanced(ts: Seq<TokenModel>, p: int, q: int) -> bool {
    p < q <= ts.len()
}

/// The error that a parse which made no progress would give; no parse of well-formed
/// tokens reaches it.
pub open spec fn stalled() -> Seq<char> {
    seq![]
}

/// Wraps the node of a successful parse.
pub open spec fn wrap1(r: PRes, f: spec_fn(Ast) -> Ast) -> PRes {
    match r {
        Ok((a, q)) => Ok((f(a), q)),
        Err(m) => Err(m),
    }
}

/// An expression whose operators bind tighter than `rbp`, starting at `p`.
pub open spec fn expression(ts: Seq<TokenModel>, rbp: int, p: int) -> PRes
    decreases ts.len() - p, 0nat,
{
    if p < 0 || p >= ts.len() {
        Err(stalled())
    } else {
        match nud(ts, ts[p], p + 1) {
            Err(m) => Err(m),
            Ok((left, q)) => if advanced(ts, p, q) {
                expr_loop(ts, rbp, left, q)
            } else {
                Err(stalled())
            },
        }
    }
}

/// Extends `left` with the operators at `p` that bind tighter than `rbp`.
pub open spec fn expr_loop(ts: Seq<TokenModel>, rbp: int, left: Ast, p: int) -> PRes
    decreases ts.len() - p, 0nat,
{
    if p < 0 || p >= ts.len() {
        Err(stalled())
    } else {
        let t = tok_after(ts, p, Some(left));
        if rbp < bp(t.kind) {
            match led(ts, t, left, p + 1) {
                Err(m) => Err(m),
                Ok((l2, q)) => if advanced(ts, p, q) {
                    expr_loop(ts, rbp, l2, q)
                } else {
                    Err(stalled())
                },
            }
        } else {
            Ok((left, p))
        }
    }
}

/// The node that the token `t`, just read, starts; the next token is at `p`.
pub open spec fn nud(ts: Seq<TokenModel>, t: TokenModel, p: int) -> PRes
    decreases ts.len() - p, 5nat,
{
    if p < 0 || p > ts.len() {
        Err(stalled())
    } else {
        match t.kind {
            TokenKind::String => match t.value {
                Some(TokenValueModel::Str(v)) => Ok((Ast::String(v), p)),
                _ => Err("Invalid string token"@),
            },
            TokenKind::Json => match t.value {
                Some(TokenValueModel::Json(v)) => Ok((Ast::Literal(v), p)),
                _ => Err("Invalid literal token"@),
            },
            TokenKind::Number => match t.value {
                Some(TokenValueModel::Number(v)) => Ok((Ast::Number(v), p)),
                _ => Err("Invalid number token"@),
            },
            TokenKind::Int => match t.value {
                Some(TokenValueModel::Integer(v)) => Ok((Ast::Integer(v), p)),
                _ => Err("Invalid integer token"@),
            },
            TokenKind::Identifier => match t.value {
                Some(TokenValueModel::Str(v)) => Ok((Ast::Identifier(v), p)),
                _ => Err("Invalid identifier token"@),
            },
            TokenKind::QuotedIdentifier => match t.value {
                Some(TokenValueModel::Str(v)) => Ok((Ast::QuotedIdentifier(v), p)),
                _ => Err("Invalid quoted identifier token"@),
            },
            TokenKind::Not => wrap1(expression(ts, 8, p), |a: Ast| Ast::NotExpression(Box::new(a))),
            TokenKind::UnaryMinus => wrap1(expression(ts, 8, p), |a: Ast| Ast::UnaryMinusExpression(Box::new(a))),
            TokenKind::Star => {
                let next = kind(ts, p);
                if ends_wildcard(next) {
                    Ok((Ast::ValueProjection { left: Box::new(Ast::Identity), right: Box::new(Ast::Identity) }, p))
                } else if next == TokenKind::Dot || next == TokenKind::Lbracket {
                    wrap1(
                        projection_rhs(ts, 20, p),
                        |a: Ast| Ast::ValueProjection { left: Box::new(Ast::Identity), right: Box::new(a) },
                    )
                } else {
                    Err("Invalid wildcard expression"@)
                }
            },
            TokenKind::Filter => led(ts, t, Ast::Identity, p),
            TokenKind::Lbrace => object_expression(ts, p),
            TokenKind::Flatten => wrap1(
                projection_rhs(ts, 10, p),
                |a: Ast| Ast::Projection {
                    left: Box::new(Ast::Flatten(Box::new(Ast::Identity))),
                    right: Box::new(a),
                    debug: None,
                },
            ),
            TokenKind::Lbracket => if looks_like_index(ts, p) {
                wrap1(index_expression(ts, p), |a: Ast| project_if_slice(Ast::Identity, a))
            } else if kind(ts, p) == TokenKind::Star && kind(ts, p + 1) == TokenKind::Rbracket {
                if p + 2 <= ts.len() {
                    wrap1(
                        projection_rhs(ts, 20, p + 2),
                        |a: Ast| Ast::Projection { left: Box::new(Ast::Identity), right: Box::new(a), debug: Some("Wildcard"@) },
                    )
                } else {
                    Err(stalled())
                }
            } else {
                list_items(ts, p, seq![], false)
            },
            TokenKind::Current => Ok((Ast::Current, p)),
            TokenKind::Global => Ok((Ast::Global(match t.name { Some(n) => n, None => seq![] }), p)),
            TokenKind::Expref => wrap1(expression(ts, 0, p), |a: Ast| Ast::ExpressionReference(Box::new(a))),
            TokenKind::Lparen => match paren_items(ts, p, seq![]) {
                Err(m) => Err(m),
                Ok((items, q)) => Ok((if items.len() > 0 { items[0] } else { Ast::Identity }, q)),
            },
            _ => Err(unexpected_token_msg(t)),
        }
    }
}

/// The node that the operator token `t`, just read, makes with `left`; the next token is at `p`.
pub open spec fn led(ts: Seq<TokenModel>, t: TokenModel, left: Ast, p: int) -> PRes
    decreases ts.len() - p, 4nat,
{
    if p < 0 || p > ts.len() {
        Err(stalled())
    } else {
        match t.kind {
            TokenKind::Concatenate => wrap1(expression(ts, 5, p), |r: Ast| Ast::ConcatenateExpression(Box::new(left), Box::new(r))),
            TokenKind::Dot => if kind(ts, p) != TokenKind::Star {
                wrap1(
                    dot_rhs(ts, 40, p),
                    |r: Ast| match left {
                        Ast::ChainedExpression(nodes) => Ast::ChainedExpression(nodes.push(r)),
                        _ => Ast::ChainedExpression(seq![left, r]),
                    },
                )
            } else if p + 1 <= ts.len() {
                wrap1(projection_rhs(ts, 40, p + 1), |r: Ast| Ast::ValueProjection { left: Box::new(left), right: Box::new(r) })
            } else {
                Err(stalled())
            },
            TokenKind::Pipe => wrap1(expression(ts, 1, p), |r: Ast| Ast::Pipe(Box::new(left), Box::new(r))),
            TokenKind::Or => wrap1(expression(ts, 2, p), |r: Ast| Ast::OrExpression(Box::new(left), Box::new(r))),
            TokenKind::And => wrap1(expression(ts, 3, p), |r: Ast| Ast::AndExpression(Box::new(left), Box::new(r))),
            TokenKind::Add => wrap1(expression(ts, 6, p), |r: Ast| Ast::AddExpression(Box::new(left), Box::new(r))),
            TokenKind::Subtract => wrap1(expression(ts, 6, p), |r: Ast| Ast::SubtractExpression(Box::new(left), Box::new(r))),
            TokenKind::Multiply => wrap1(expression(ts, 7, p), |r: Ast| Ast::MultiplyExpression(Box::new(left), Box::new(r))),
            TokenKind::Divide => wrap1(expression(ts, 7, p), |r: Ast| Ast::DivideExpression(Box::new(left), Box::new(r))),
            TokenKind::Union => wrap1(expression(ts, 6, p), |r: Ast| Ast::UnionExpression(Box::new(left), Box::new(r))),
            TokenKind::Lparen => match left {
                Ast::Identifier(name) => match function_args(ts, p) {
                    Err(m) => Err(m),
                    Ok((args, q)) => Ok((Ast::Function { name, args }, q)),
                },
                _ => Err("Bad function syntax. Parenthesis must be preceded by an unquoted identifier"@),
            },
            TokenKind::Filter => match expression(ts, 0, p) {
                Err(m) => Err(m),
                Ok((condition, q)) => if kind(ts, q) != TokenKind::Rbracket {
                    Err(expected_msg(TokenKind::Rbracket, kind(ts, q)))
                } else if p <= q && q + 1 <= ts.len() {
                    wrap1(
                        projection_rhs(ts, 21, q + 1),
                        |r: Ast| Ast::FilterProjection { left: Box::new(left), right: Box::new(r), condition: Box::new(condition) },
                    )
                } else {
                    Err(stalled())
                },
            },
            TokenKind::Flatten => wrap1(
                projection_rhs(ts, 10, p),
                |r: Ast| Ast::Projection { left: Box::new(Ast::Flatten(Box::new(left))), right: Box::new(r), debug: None },
            ),
            TokenKind::Comparator => wrap1(
                expression(ts, 4, p),
                |r: Ast| Ast::Comparator { op: comparator_op(t), left: Box::new(left), right: Box::new(r) },
            ),
            TokenKind::Lbracket => if kind(ts, p) == TokenKind::Star && kind(ts, p + 1) == TokenKind::Rbracket {
                if p + 2 <= ts.len() {
                    wrap1(
                        projection_rhs(ts, 20, p + 2),
                        |r: Ast| Ast::Projection { left: Box::new(left), right: Box::new(r), debug: Some("Wildcard"@) },
                    )
                } else {
                    Err(stalled())
                }
            } else {
                wrap1(index_expression(ts, p), |r: Ast| project_if_slice(left, r))
            },
            _ => Err(unexpected_token_msg(t)),
        }
    }
}

/// The right side of a projection, starting at `p`.
pub open spec fn projection_rhs(ts: Seq<TokenModel>, rbp: int, p: int) -> PRes
    decreases ts.len() - p, 3nat,
{
    if p < 0 || p > ts.len() {
        Err(stalled())
    } else {
        let k = kind(ts, p);
        if ends_projection(k) {
            Ok((Ast::Identity, p))
        } else if bad_after_projection(k) {
            Err("Projection expressions must be followed by a dot or bracket"@)
        } else if k == TokenKind::Dot {
            if p + 1 <= ts.len() {
                wrap1(dot_rhs(ts, rbp, p + 1), |r: Ast| Ast::ChainedExpression(seq![Ast::Identity, r]))
            } else {
                Err(stalled())
            }
        } else {
            expression(ts, rbp, p)
        }
    }
}

/// What follows a dot, starting at `p`.
pub open spec fn dot_rhs(ts: Seq<TokenModel>, rbp: int, p: int) -> PRes
    decreases ts.len() - p, 2nat,
{
    if p < 0 || p > ts.len() {
        Err(stalled())
    } else if kind(ts, p) == TokenKind::Lbrace {
        if p + 1 <= ts.len() {
            object_expression(ts, p + 1)
        } else {
            Err(stalled())
        }
    } else if kind(ts, p) == TokenKind::Star {
        if p + 1 <= ts.len() {
            wrap1(projection_rhs(ts, rbp, p + 1), |r: Ast| Ast::ValueProjection { left: Box::new(Ast::Identity), right: Box::new(r) })
        } else {
            Err(stalled())
        }
    } else if kind(ts, p) == TokenKind::Lbracket {
        if p + 1 <= ts.len() {
            list_items(ts, p + 1, seq![], true)
        } else {
            Err(stalled())
        }
    } else {
        match expression(ts, rbp, p) {
            Err(m) => Err(m),
            Ok((e, q)) => if is_literal_node(e) {
                Err("Literal expressions are not allowed on the right side of a dot"@)
            } else {
                Ok((e, q))
            },
        }
    }
}

/// The items of a list `[a, b, ...]` whose `[` is already read, from `p`; `select`
/// tells a multi-select list from an array expression, which differ only in the error
/// about a trailing comma.
pub open spec fn list_items(ts: Seq<TokenModel>, p: int, acc: Seq<Ast>, select: bool) -> PRes
    decreases ts.len() - p, 1nat,
{
    if p < 0 || p > ts.len() {
        Err(stalled())
    } else if kind(ts, p) == TokenKind::Rbracket {
        Ok((Ast::ArrayExpression(acc), p + 1))
    } else {
        match expression(ts, 0, p) {
            Err(m) => Err(m),
            Ok((e, q)) => if !advanced(ts, p, q) {
                Err(stalled())
            } else if kind(ts, q) == TokenKind::Comma {
                if kind(ts, q + 1) == TokenKind::Rbracket {
                    Err(if select {
                        "Trailing commas are not allowed in list expressions"@
                    } else {
                        "Trailing commas are not allowed in array expressions"@
                    })
                } else {
                    list_items(ts, q + 1, acc.push(e), select)
                }
            } else {
                list_items(ts, q, acc.push(e), select)
            },
        }
    }
}

/// The pairs of an object expression whose `{` is already read, from `p`.
pub open spec fn object_expression(ts: Seq<TokenModel>, p: int) -> PRes
    decreases ts.len() - p, 1nat,
{
    if kind(ts, p) == TokenKind::Rbrace {
        Err("Empty object expressions are not allowed"@)
    } else {
        object_pairs(ts, p, seq![])
    }
}

/// The remaining pairs of an object expression, from `p`.
pub open spec fn object_pairs(ts: Seq<TokenModel>, p: int, acc: Seq<(Seq<char>, Ast)>) -> PRes
    decreases ts.len() - p, 0nat,
{
    if p < 0 || p >= ts.len() {
        Err(stalled())
    } else if kind(ts, p) == TokenKind::Rbrace {
        Ok((Ast::ObjectExpression(acc), p + 1))
    } else {
        let kt = tok(ts, p);
        if kt.kind == TokenKind::Identifier || kt.kind == TokenKind::QuotedIdentifier {
            match kt.value {
                Some(TokenValueModel::Str(key)) => if kind(ts, p + 1) != TokenKind::Colon {
                    Err(expected_msg(TokenKind::Colon, kind(ts, p + 1)))
                } else {
                    match expression(ts, 0, p + 2) {
                        Err(m) => Err(m),
                        Ok((v, q)) => if !advanced(ts, p, q) {
                            Err(stalled())
                        } else if kind(ts, q) == TokenKind::Comma {
                            if kind(ts, q + 1) == TokenKind::Rbrace {
                                Err("Trailing commas are not allowed in object expressions"@)
                            } else {
                                object_pairs(ts, q + 1, acc.push((key, v)))
                            }
                        } else {
                            object_pairs(ts, q, acc.push((key, v)))
                        },
                    }
                },
                _ => Err("Invalid key in object expression"@),
            }
        } else {
            Err("Object key must be an identifier or quoted identifier"@)
        }
    }
}

/// The expressions inside parentheses whose `(` is already read, from `p`.
pub open spec fn paren_items(ts: Seq<TokenModel>, p: int, acc: Seq<Ast>) -> LRes
    decreases ts.len() - p, 1nat,
{
    if p < 0 || p > ts.len() {
        Err(stalled())
    } else if kind(ts, p) == TokenKind::Rparen {
        Ok((acc, p + 1))
    } else {
        match expression(ts, 0, p) {
            Err(m) => Err(m),
            Ok((e, q)) => if advanced(ts, p, q) {
                paren_items(ts, q, acc.push(e))
            } else {
                Err(stalled())
            },
        }
    }
}

/// The arguments of a function call whose `(` is already read, from `p`.
pub open spec fn function_args(ts: Seq<TokenModel>, p: int) -> LRes
    decreases ts.len() - p, 2nat,
{
    if kind(ts, p) == TokenKind::Rparen {
        Ok((seq![], p + 1))
    } else {
        more_args(ts, p, seq![])
    }
}

/// The remaining arguments of a function call, from `p`.
pub open spec fn more_args(ts: Seq<TokenModel>, p: int, acc: Seq<Ast>) -> LRes
    decreases ts.len() - p, 1nat,
{
    if p < 0 || p > ts.len() {
        Err(stalled())
    } else {
        match expression(ts, 0, p) {
            Err(m) => Err(m),
            Ok((e, q)) => if !advanced(ts, p, q) {
                Err(stalled())
            } else if kind(ts, q) == TokenKind::Comma {
                more_args(ts, q + 1, acc.push(e))
            } else if kind(ts, q) == TokenKind::Rparen {
                Ok((acc.push(e), q + 1))
            } else {
                Err(expected_msg(TokenKind::Rparen, kind(ts, q)))
            },
        }
    }
}

/// An index `[n]` or a slice, whose `[` is already read, from `p`.
pub open spec fn index_expression(ts: Seq<TokenModel>, p: int) -> PRes
    decreases ts.len() - p, 2nat,
{
    if p < 0 || p > ts.len() {
        Err(stalled())
    } else if kind(ts, p) == TokenKind::Colon || kind(ts, p) == TokenKind::Rbracket {
        slice_parts(ts, p, seq![], true, false)
    } else {
        match expression(ts, 0, p) {
            Err(m) => Err(m),
            Ok((e, q)) => if !advanced(ts, p, q) {
                Err(stalled())
            } else if kind(ts, q) == TokenKind::Colon {
                match slice_int(e) {
                    Some(v) => slice_parts(ts, q + 1, seq![Some(v)], true, true),
                    None => Err("Slice expressions must be integers"@),
                }
            } else if kind(ts, q) == TokenKind::Rbracket {
                Ok((Ast::Index(Box::new(e)), q + 1))
            } else {
                Err(expected_msg(TokenKind::Rbracket, kind(ts, q)))
            },
        }
    }
}

/// The part of `parts` at `i`, if it is there and set.
pub open spec fn part(parts: Seq<Option<int>>, i: int) -> Option<int> {
    if 0 <= i < parts.len() {
        parts[i]
    } else {
        None
    }
}

/// The rest of a slice `[start:stop:step]`, from `p`, with the parts read so far.
pub open spec fn slice_parts(ts: Seq<TokenModel>, p: int, parts: Seq<Option<int>>, expect_value: bool, saw_colon: bool) -> PRes
    decreases ts.len() - p, 1nat,
{
    if p < 0 || p > ts.len() {
        Err(stalled())
    } else if kind(ts, p) == TokenKind::Rbracket {
        let all = if expect_value && saw_colon { parts.push(None) } else { parts };
        if all.len() > 3 {
            Err("Slice expressions must have at most 3 parts"@)
        } else {
            Ok((Ast::Slice { start: part(all, 0), stop: part(all, 1), step: part(all, 2) }, p + 1))
        }
    } else if kind(ts, p) == TokenKind::Colon {
        slice_parts(ts, p + 1, if expect_value { parts.push(None) } else { parts }, true, true)
    } else {
        match expression(ts, 0, p) {
            Err(m) => Err(m),
            Ok((e, q)) => if !advanced(ts, p, q) {
                Err(stalled())
            } else {
                match slice_int(e) {
                    Some(v) => slice_parts(ts, q, parts.push(Some(v)), false, saw_colon),
                    None => Err("Slice expressions must be integers"@),
                }
            },
        }
    }
}

/// Parsing a whole token sequence, which ends with an end-of-input token.
pub open spec fn parse_tokens(ts: Seq<TokenModel>) -> PRes {
    match expression(ts, 0, 0) {
        Err(m) => Err(m),
        Ok((a, q)) => if kind(ts, q) != TokenKind::Eof {
            Err("Unexpected token type: "@ + kind_name(kind(ts, q)))
        } else {
            Ok((a, q))
        },
    }
}

/// The end-of-input token that follows the tokens of an expression of `len` bytes.
pub open spec fn eof_token(len: nat) -> TokenModel {
    TokenModel { kind: TokenKind::Eof, value: Some(TokenValueModel::Str(seq![])), start: len, name: None }
}

/// Compiling the UTF-8 bytes `b` of an expression with the allowed global names `allowed`:
/// the syntax tree, or the message of the syntax error.
pub open spec fn parse_source(b: Seq<u8>, allowed: Seq<Seq<char>>) -> Result<Ast, Seq<char>> {
    match lex(b, allowed) {
        LexOutcome::Tokens(ts, _) => match parse_tokens(ts.push(eof_token(b.len()))) {
            Ok((a, _)) => Ok(a),
            Err(m) => Err(m),
        },
        LexOutcome::Failed(m, _) => Err(m),
        LexOutcome::Crash => Err(seq![]),
    }
}

/// The notes that tokenizing `b` records about suspicious quoting.
pub open spec fn lex_notes(b: Seq<u8>, allowed: Seq<Seq<char>>) -> Seq<Seq<char>> {
    match lex(b, allowed) {
        LexOutcome::Tokens(_, d) => d,
        LexOutcome::Failed(_, d) => d,
        LexOutcome::Crash => seq![],
    }
}

proof fn lemma_loop_stops_at_weaker(ts: Seq<TokenModel>, rbp: int, left: Ast, p: int)
    ensures
        expr_loop(ts, rbp, left, p) matches Ok((a, q))
            ==> bp(tok_after(ts, q, Some(a)).kind) <= rbp,
    decreases ts.len() - p,
{
    if 0 <= p < ts.len() {
        let t = tok_after(ts, p, Some(left));
        if rbp < bp(t.kind) {
            match led(ts, t, left, p + 1) {
                Ok((l2, q)) => if advanced(ts, p, q) {
                    lemma_loop_stops_at_weaker(ts, rbp, l2, q);
                },
                Err(_) => {},
            }
        }
    }
}

/// An expression read with binding power `rbp` ends exactly where the next token, read
/// after it, binds no more tightly than `rbp`: operators that bind more tightly are always
/// taken into the expression.
pub proof fn law_expression_stops_at_weaker(ts: Seq<TokenModel>, rbp: int, p: int)
    ensures
        expression(ts, rbp, p) matches Ok((a, q)) ==> bp(tok_after(ts, q, Some(a)).kind) <= rbp,
{
    if 0 <= p < ts.len() {
        match nud(ts, ts[p], p + 1) {
            Ok((left, q)) => if advanced(ts, p, q) {
                lemma_loop_stops_at_weaker(ts, rbp, left, q);
            },
            Err(_) => {},
        }
    }
}

/// Whether the token is an unquoted identifier named `x`.
pub open spec fn is_identifier_token(t: TokenModel, x: Seq<char>) -> bool {
    t.kind == TokenKind::Identifier && t.value == Some(TokenValueModel::Str(x))
}

/// The node that the additive operator `op` (`+` or `-`) makes of two operands.
pub open spec fn additive_node(op: TokenKind, l: Ast, r: Ast) -> Ast {
    if op == TokenKind::Add {
        Ast::AddExpression(Box::new(l), Box::new(r))
    } else {
        Ast::SubtractExpression(Box::new(l), Box::new(r))
    }
}

/// Subtraction is left-associative and shares its level with addition: for any
/// identifiers `x`, `y`, `z`, the tokens of `x - y - z` parse as `(x - y) - z`, and those
/// of `x - y + z` as `(x - y) + z`; the right operand of `-` stops before a following `-`
/// or `+`.
pub proof fn law_subtraction_left_associative(ts: Seq<TokenModel>, x: Seq<char>, y: Seq<char>, z: Seq<char>, op: TokenKind)
    requires
        ts.len() == 6,
        is_identifier_token(ts[0], x),
        ts[1].kind == TokenKind::Subtract,
        is_identifier_token(ts[2], y),
        ts[3].kind == op,
        op == TokenKind::Subtract || op == TokenKind::Add,
        is_identifier_token(ts[4], z),
        ts[5].kind == TokenKind::Eof,
    ensures
        parse_tokens(ts) == Ok::<(Ast, int), Seq<char>>((
            additive_node(op, Ast::SubtractExpression(Box::new(Ast::Identifier(x)), Box::new(Ast::Identifier(y))), Ast::Identifier(z)),
            5int,
        )),
{
    let ix = Ast::Identifier(x);
    let iy = Ast::Identifier(y);
    let iz = Ast::Identifier(z);
    let xy = Ast::SubtractExpression(Box::new(ix), Box::new(iy));
    let whole = additive_node(op, xy, iz);
    assert(nud(ts, ts[4], 5) == Ok::<(Ast, int), Seq<char>>((iz, 5int)));
    assert(tok_after(ts, 5, Some(iz)).kind == TokenKind::Eof);
    assert(expr_loop(ts, 6, iz, 5) == Ok::<(Ast, int), Seq<char>>((iz, 5int)));
    assert(expression(ts, 6, 4) == Ok::<(Ast, int), Seq<char>>((iz, 5int)));
    assert(nud(ts, ts[2], 3) == Ok::<(Ast, int), Seq<char>>((iy, 3int)));
    assert(tok_after(ts, 3, Some(iy)).kind == op);
    assert(expr_loop(ts, 6, iy, 3) == Ok::<(Ast, int), Seq<char>>((iy, 3int)));
    assert(expression(ts, 6, 2) == Ok::<(Ast, int), Seq<char>>((iy, 3int)));
    assert(nud(ts, ts[0], 1) == Ok::<(Ast, int), Seq<char>>((ix, 1int)));
    assert(tok_after(ts, 1, Some(ix)).kind == TokenKind::Subtract);
    assert(led(ts, tok_after(ts, 1, Some(ix)), ix, 2) == Ok::<(Ast, int), Seq<char>>((xy, 3int)));
    assert(tok_after(ts, 3, Some(xy)).kind == op);
    assert(led(ts, tok_after(ts, 3, Some(xy)), xy, 4) == Ok::<(Ast, int), Seq<char>>((whole, 5int)));
    assert(tok_after(ts, 5, Some(whole)).kind == TokenKind::Eof);
    assert(expr_loop(ts, 0, whole, 5) == Ok::<(Ast, int), Seq<char>>((whole, 5int)));
    assert(expr_loop(ts, 0, xy, 3) == Ok::<(Ast, int), Seq<char>>((whole, 5int)));
    assert(expr_loop(ts, 0, ix, 1) == Ok::<(Ast, int), Seq<char>>((whole, 5int)));
    assert(expression(ts, 0, 0) == Ok::<(Ast, int), Seq<char>>((whole, 5int)));
}

} // verus!
