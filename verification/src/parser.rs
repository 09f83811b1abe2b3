//! Parses a token sequence into a syntax tree by top-down operator precedence.

use vstd::prelude::*;
use vstd::string::StringSliceAdditionalSpecFns;
use crate::ast::{ast_of, asts_of, pairs_of, Ast, AstNode, KeyValuePair};
use crate::errors::{JsonFormulaError, JsonFormulaErrorKind};
use crate::lexer::{Lexer, Token, TokenKind, TokenValue};
use crate::lexer_spec::{lex, strings_view, tokens_view, LexOutcome, TokenModel};
use crate::parser_spec;
use crate::parser_spec::{eof_token, lex_notes, parse_source};
use crate::parser_spec::{
    bad_after_projection, bp, comparator_op, effective_kind, ends_projection, ends_wildcard, expected_msg,
    kind, kind_name, looks_like_index, slice_int, unexpected_token_msg, value_debug, LRes, PRes,
};
use crate::text::{concat_str, signed_decimal_string};

verus! {

/// How strongly a token of kind `kind` binds the expression on its left.
fn binding_power(kind: &TokenKind) -> (r: i32)
    ensures
        r as int == bp(*kind),
{
    match kind {
        TokenKind::Eof => 0,
        TokenKind::Identifier => 0,
        TokenKind::QuotedIdentifier => 0,
        TokenKind::Rbracket => 0,
        TokenKind::Rparen => 0,
        TokenKind::Comma => 0,
        TokenKind::Rbrace => 0,
        TokenKind::Number => 0,
        TokenKind::Int => 0,
        TokenKind::Current => 0,
        TokenKind::Global => 0,
        TokenKind::Expref => 0,
        TokenKind::Pipe => 1,
        TokenKind::Or => 2,
        TokenKind::And => 3,
        TokenKind::Comparator => 4,
        TokenKind::Concatenate => 5,
        TokenKind::Add => 6,
        TokenKind::Subtract => 6,
        TokenKind::Union => 6,
        TokenKind::Multiply => 7,
        TokenKind::Divide => 7,
        TokenKind::Not => 8,
        TokenKind::UnaryMinus => 8,
        TokenKind::Flatten => 10,
        TokenKind::Star => 20,
        TokenKind::Filter => 21,
        TokenKind::Dot => 40,
        TokenKind::Lbrace => 50,
        TokenKind::Lbracket => 55,
        TokenKind::Lparen => 60,
        TokenKind::Colon => 0,
        TokenKind::String => 0,
        TokenKind::Json => 0,
    }
}

/// The `Debug` name of a token kind.
fn kind_name_str(k: TokenKind) -> (s: &'static str)
    ensures
        s@ == kind_name(k),
{
    match k {
        TokenKind::Eof => "Eof",
        TokenKind::Identifier => "Identifier",
        TokenKind::QuotedIdentifier => "QuotedIdentifier",
        TokenKind::Rbracket => "Rbracket",
        TokenKind::Rparen => "Rparen",
        TokenKind::Comma => "Comma",
        TokenKind::Colon => "Colon",
        TokenKind::Concatenate => "Concatenate",
        TokenKind::Rbrace => "Rbrace",
        TokenKind::Number => "Number",
        TokenKind::Current => "Current",
        TokenKind::Global => "Global",
        TokenKind::Expref => "Expref",
        TokenKind::Pipe => "Pipe",
        TokenKind::Or => "Or",
        TokenKind::And => "And",
        TokenKind::Add => "Add",
        TokenKind::Subtract => "Subtract",
        TokenKind::UnaryMinus => "UnaryMinus",
        TokenKind::Multiply => "Multiply",
        TokenKind::Union => "Union",
        TokenKind::Divide => "Divide",
        TokenKind::Comparator => "Comparator",
        TokenKind::Flatten => "Flatten",
        TokenKind::Star => "Star",
        TokenKind::Filter => "Filter",
        TokenKind::Dot => "Dot",
        TokenKind::Not => "Not",
        TokenKind::Lbrace => "Lbrace",
        TokenKind::Lbracket => "Lbracket",
        TokenKind::Lparen => "Lparen",
        TokenKind::Json => "Json",
        TokenKind::String => "String",
        TokenKind::Int => "Int",
    }
}

/// The `Debug` text of a token value, for values whose text needs no escaping.
fn value_debug_string(v: &Option<TokenValue>) -> (s: String)
    ensures
        s@ == value_debug(match *v { Some(x) => Some(x@), None => None }),
{
    match v {
        None => String::from_str("None"),
        Some(TokenValue::String(s)) => {
            let a = concat_str("Some(String(\"", s.as_str());
            concat_str(a.as_str(), "\"))")
        },
        Some(TokenValue::Comparator(s)) => {
            let a = concat_str("Some(Comparator(\"", s.as_str());
            concat_str(a.as_str(), "\"))")
        },
        Some(TokenValue::Integer(n)) => {
            let d = signed_decimal_string(*n);
            let a = concat_str("Some(Integer(", d.as_str());
            concat_str(a.as_str(), "))")
        },
        Some(TokenValue::Number(s)) => {
            let a = concat_str("Some(Number(", s.as_str());
            concat_str(a.as_str(), "))")
        },
        Some(TokenValue::Json(s)) => {
            let a = concat_str("Some(Json(", s.as_str());
            concat_str(a.as_str(), "))")
        },
    }
}

/// A syntax error carrying `message`.
fn syntax(message: String) -> (e: JsonFormulaError)
    ensures
        e.kind == JsonFormulaErrorKind::SyntaxError,
        e.message@ == message@,
{
    JsonFormulaError::syntax(message)
}

/// A syntax error carrying the literal `message`.
fn syntax_str(message: &str) -> (e: JsonFormulaError)
    ensures
        e.kind == JsonFormulaErrorKind::SyntaxError,
        e.message@ == message@,
{
    JsonFormulaError::syntax(String::from_str(message))
}

/// The kind of token that a node stands for, when it is the left side of a `*`.
fn node_kind(node: &AstNode) -> (k: TokenKind)
    ensures
        k == parser_spec::node_kind(ast_of(*node)),
{
    match node {
        AstNode::Identifier(_) => TokenKind::Identifier,
        AstNode::QuotedIdentifier(_) => TokenKind::QuotedIdentifier,
        AstNode::Literal(_) => TokenKind::Json,
        AstNode::String(_) => TokenKind::String,
        AstNode::Number(_) => TokenKind::Number,
        AstNode::Integer(_) => TokenKind::Int,
        AstNode::Current => TokenKind::Current,
        AstNode::Global(_) => TokenKind::Global,
        AstNode::ExpressionReference(_) => TokenKind::Expref,
        AstNode::NotExpression(_) => TokenKind::Not,
        AstNode::UnaryMinusExpression(_) => TokenKind::UnaryMinus,
        AstNode::ConcatenateExpression(_, _) => TokenKind::Concatenate,
        AstNode::OrExpression(_, _) => TokenKind::Or,
        AstNode::AndExpression(_, _) => TokenKind::And,
        AstNode::AddExpression(_, _) => TokenKind::Add,
        AstNode::SubtractExpression(_, _) => TokenKind::Subtract,
        AstNode::MultiplyExpression(_, _) => TokenKind::Multiply,
        AstNode::DivideExpression(_, _) => TokenKind::Divide,
        AstNode::UnionExpression(_, _) => TokenKind::Union,
        AstNode::Comparator { .. } => TokenKind::Comparator,
        AstNode::Pipe(_, _) => TokenKind::Pipe,
        AstNode::ChainedExpression(_) => TokenKind::Dot,
        AstNode::BracketExpression(_, _) => TokenKind::Identifier,
        AstNode::Index(_) => TokenKind::Identifier,
        AstNode::Slice { .. } => TokenKind::Identifier,
        AstNode::Projection { .. } => TokenKind::Star,
        AstNode::ValueProjection { .. } => TokenKind::Star,
        AstNode::FilterProjection { .. } => TokenKind::Filter,
        AstNode::Flatten(_) => TokenKind::Flatten,
        AstNode::Function { .. } => TokenKind::Lparen,
        AstNode::ArrayExpression(_) => TokenKind::Lbracket,
        AstNode::ObjectExpression(_) => TokenKind::Lbrace,
        AstNode::KeyValuePair { .. } => TokenKind::Lbrace,
        AstNode::Identity => TokenKind::Identifier,
    }
}

/// A token sequence the parser can read: one end-of-input token, at the end.
pub open spec fn well_formed_tokens(ts: Seq<TokenModel>) -> bool {
    &&& ts.len() >= 1
    &&& ts.last().kind == TokenKind::Eof
    &&& forall|i: int| 0 <= i < ts.len() - 1 ==> #[trigger] ts[i].kind != TokenKind::Eof
}

/// The tokens being read and the position of the next one.
struct Cursor {
    tokens: Vec<Token>,
    index: usize,
}

/// Whether the node result `r` of the code, with the cursor left at `q`, is the result
/// `s` of the meaning.
closed spec fn node_outcome(s: PRes, r: Result<AstNode, JsonFormulaError>, q: usize) -> bool {
    match s {
        Ok((a, p)) => r matches Ok(n) && ast_of(n) == a && q as int == p,
        Err(m) => r matches Err(e) && e.kind == JsonFormulaErrorKind::SyntaxError && e.message@ == m,
    }
}

/// Whether the list result `r` of the code, with the cursor left at `q`, is the result `s`.
closed spec fn list_outcome(s: LRes, r: Result<Vec<AstNode>, JsonFormulaError>, q: usize) -> bool {
    match s {
        Ok((a, p)) => r matches Ok(v) && asts_of(v@) == a && q as int == p,
        Err(m) => r matches Err(e) && e.kind == JsonFormulaErrorKind::SyntaxError && e.message@ == m,
    }
}

impl Cursor {
    spec fn tv(&self) -> Seq<TokenModel> {
        tokens_view(self.tokens@)
    }

    spec fn wf(&self) -> bool {
        well_formed_tokens(self.tv())
    }

    fn lookahead(&self, number: usize) -> (k: TokenKind)
        requires
            self.index + number < self.tokens@.len(),
        ensures
            k == kind(self.tv(), self.index + number),
    {
        let n = self.tokens.len();
        let i = self.index + number;
        self.tokens[i].kind
    }

    fn advance(&mut self)
        requires
            old(self).index < old(self).tokens@.len(),
        ensures
            final(self).index == old(self).index + 1,
            final(self).tokens == old(self).tokens,
    {
        let n = self.tokens.len();
        self.index = self.index + 1;
    }

    proof fn lemma_not_last(&self, p: int)
        requires
            self.wf(),
            0 <= p < self.tokens@.len(),
            kind(self.tv(), p) != TokenKind::Eof,
        ensures
            p + 1 < self.tokens@.len(),
    {
        assert(self.tv().len() == self.tokens@.len());
        if p == self.tokens@.len() - 1 {
            assert(self.tv()[p] == self.tokens@[p]@);
        }
    }

    fn match_kind(&mut self, want: TokenKind) -> (r: Result<(), JsonFormulaError>)
        requires
            old(self).wf(),
            old(self).index < old(self).tokens@.len(),
        ensures
            final(self).tokens@ == old(self).tokens@,
            kind(old(self).tv(), old(self).index as int) == want ==> r is Ok && final(self).index == old(self).index + 1,
            kind(old(self).tv(), old(self).index as int) != want ==> (r matches Err(e)
                && e.kind == JsonFormulaErrorKind::SyntaxError
                && e.message@ == expected_msg(want, kind(old(self).tv(), old(self).index as int))),
    {
        let got = self.lookahead(0);
        if got == want {
            self.advance();
            Ok(())
        } else {
            let a = concat_str("Expected token ", kind_name_str(want));
            let b = concat_str(a.as_str(), ", got ");
            Err(syntax(concat_str(b.as_str(), kind_name_str(got))))
        }
    }

    fn error_token(&self, k: TokenKind, ti: usize) -> (e: JsonFormulaError)
        requires
            ti < self.tokens@.len(),
        ensures
            e.kind == JsonFormulaErrorKind::SyntaxError,
            e.message@ == unexpected_token_msg(TokenModel { kind: k, ..self.tv()[ti as int] }),
    {
        let v = value_debug_string(&self.tokens[ti].value);
        let a = concat_str("Unexpected token type: ", kind_name_str(k));
        let b = concat_str(a.as_str(), ", value: ");
        syntax(concat_str(b.as_str(), v.as_str()))
    }

    fn lookahead_token_with_prev(&self, previous: &AstNode) -> (k: TokenKind)
        requires
            self.index < self.tokens@.len(),
        ensures
            k == effective_kind(kind(self.tv(), self.index as int), Some(ast_of(*previous))),
    {
        let k = self.lookahead(0);
        if k == TokenKind::Star {
            if matches!(previous, AstNode::ArrayExpression(_) | AstNode::ObjectExpression(_)) {
                return TokenKind::Multiply;
            }
            let nk = node_kind(previous);
            if !matches!(
                nk,
                TokenKind::Lbracket | TokenKind::Dot | TokenKind::Pipe | TokenKind::And | TokenKind::Or
                    | TokenKind::Comma | TokenKind::Not | TokenKind::Lparen
            ) {
                return TokenKind::Multiply;
            }
        }
        k
    }

    fn lookahead_index(&self) -> (r: bool)
        requires
            self.wf(),
            self.index < self.tokens@.len(),
        ensures
            r == looks_like_index(self.tv(), self.index as int),
    {
        let mut idx: usize = 0;
        if self.lookahead(idx) == TokenKind::UnaryMinus {
            proof { self.lemma_not_last(self.index as int); }
            idx = idx + 1;
        }
        if self.lookahead(idx) == TokenKind::Int {
            proof { self.lemma_not_last(self.index + idx); }
            idx = idx + 1;
        }
        let k = self.lookahead(idx);
        k == TokenKind::Rbracket || k == TokenKind::Colon
    }

    fn expression(&mut self, rbp: i32) -> (r: Result<AstNode, JsonFormulaError>)
        requires
            old(self).wf(),
            old(self).index < old(self).tokens@.len(),
            0 <= rbp,
        ensures
            final(self).tokens@ == old(self).tokens@,
            node_outcome(parser_spec::expression(old(self).tv(), rbp as int, old(self).index as int), r, final(self).index),
            r is Ok ==> old(self).index < final(self).index < old(self).tokens@.len(),
        decreases old(self).tokens@.len() - old(self).index, 0nat,
    {
        let ghost tv = self.tv();
        let ghost toks = self.tokens@;
        let ghost p0 = self.index as int;
        let ti = self.index;
        self.advance();
        let mut left = match self.nud(ti) {
            Ok(n) => n,
            Err(e) => return Err(e),
        };
        let mut k = self.lookahead_token_with_prev(&left);
        while rbp < binding_power(&k)
            invariant
                self.wf(),
                self.tokens@ == toks,
                toks == old(self).tokens@,
                p0 == old(self).index,
                self.tv() == tv,
                p0 < self.index < self.tokens@.len(),
                parser_spec::expr_loop(tv, rbp as int, ast_of(left), self.index as int)
                    == parser_spec::expression(tv, rbp as int, p0),
                k == effective_kind(kind(tv, self.index as int), Some(ast_of(left))),
                0 <= rbp,
            decreases self.tokens@.len() - self.index,
        {
            let ti2 = self.index;
            assert(tv[ti2 as int] == self.tokens@[ti2 as int]@);
            self.advance();
            left = match self.led(k, ti2, left) {
                Ok(n) => n,
                Err(e) => return Err(e),
            };
            k = self.lookahead_token_with_prev(&left);
        }
        Ok(left)
    }

    fn nud(&mut self, ti: usize) -> (r: Result<AstNode, JsonFormulaError>)
        requires
            old(self).wf(),
            ti < old(self).tokens@.len(),
            old(self).index == ti + 1,
        ensures
            final(self).tokens@ == old(self).tokens@,
            node_outcome(parser_spec::nud(old(self).tv(), old(self).tv()[ti as int], ti + 1), r, final(self).index),
            r is Ok ==> old(self).index <= final(self).index < old(self).tokens@.len(),
        decreases old(self).tokens@.len() - old(self).index, 6nat,
    {
        let ghost tv = self.tv();
        let ghost toks = self.tokens@;
        assert(ast_of(AstNode::Identity) == Ast::Identity);
        assert(ast_of(AstNode::Flatten(Box::new(AstNode::Identity))) == Ast::Flatten(Box::new(Ast::Identity)));
        let k = self.tokens[ti].kind;
        assert(tv[ti as int] == self.tokens@[ti as int]@);
        if k != TokenKind::Eof {
            proof { self.lemma_not_last(ti as int); }
        } else {
            return Err(self.error_token(k, ti));
        }
        match k {
            TokenKind::String => match &self.tokens[ti].value {
                Some(TokenValue::String(v)) => Ok(AstNode::String(v.clone())),
                _ => Err(syntax_str("Invalid string token")),
            },
            TokenKind::Json => match &self.tokens[ti].value {
                Some(TokenValue::Json(v)) => Ok(AstNode::Literal(v.clone())),
                _ => Err(syntax_str("Invalid literal token")),
            },
            TokenKind::Number => match &self.tokens[ti].value {
                Some(TokenValue::Number(v)) => Ok(AstNode::Number(v.clone())),
                _ => Err(syntax_str("Invalid number token")),
            },
            TokenKind::Int => match &self.tokens[ti].value {
                Some(TokenValue::Integer(v)) => Ok(AstNode::Integer(*v)),
                _ => Err(syntax_str("Invalid integer token")),
            },
            TokenKind::Identifier => match &self.tokens[ti].value {
                Some(TokenValue::String(v)) => Ok(AstNode::Identifier(v.clone())),
                _ => Err(syntax_str("Invalid identifier token")),
            },
            TokenKind::QuotedIdentifier => match &self.tokens[ti].value {
                Some(TokenValue::String(v)) => Ok(AstNode::QuotedIdentifier(v.clone())),
                _ => Err(syntax_str("Invalid quoted identifier token")),
            },
            TokenKind::Not => match self.expression(8) {
                Ok(right) => Ok(AstNode::NotExpression(Box::new(right))),
                Err(e) => Err(e),
            },
            TokenKind::UnaryMinus => match self.expression(8) {
                Ok(right) => Ok(AstNode::UnaryMinusExpression(Box::new(right))),
                Err(e) => Err(e),
            },
            TokenKind::Star => {
                let next = self.lookahead(0);
                if ends_wildcard_kind(next) {
                    Ok(AstNode::ValueProjection { left: Box::new(AstNode::Identity), right: Box::new(AstNode::Identity) })
                } else if next == TokenKind::Dot || next == TokenKind::Lbracket {
                    match self.parse_projection_rhs(20) {
                        Ok(right) => Ok(AstNode::ValueProjection { left: Box::new(AstNode::Identity), right: Box::new(right) }),
                        Err(e) => Err(e),
                    }
                } else {
                    Err(syntax_str("Invalid wildcard expression"))
                }
            },
            TokenKind::Filter => self.led(TokenKind::Filter, ti, AstNode::Identity),
            TokenKind::Lbrace => self.parse_object_expression(),
            TokenKind::Flatten => match self.parse_projection_rhs(10) {
                Ok(right) => Ok(AstNode::Projection {
                    left: Box::new(AstNode::Flatten(Box::new(AstNode::Identity))),
                    right: Box::new(right),
                    debug: None,
                }),
                Err(e) => Err(e),
            },
            TokenKind::Lbracket => {
                if self.lookahead_index() {
                    return match self.parse_index_expression() {
                        Ok(right) => Ok(project_if_slice(AstNode::Identity, right)),
                        Err(e) => Err(e),
                    };
                }
                let star_next = if self.lookahead(0) == TokenKind::Star {
                    proof { self.lemma_not_last(self.index as int); }
                    self.lookahead(1) == TokenKind::Rbracket
                } else {
                    false
                };
                if star_next {
                    proof { self.lemma_not_last(self.index + 1); }
                    self.advance();
                    self.advance();
                    return match self.parse_projection_rhs(20) {
                        Ok(right) => Ok(AstNode::Projection {
                            left: Box::new(AstNode::Identity),
                            right: Box::new(right),
                            debug: Some(String::from_str("Wildcard")),
                        }),
                        Err(e) => Err(e),
                    };
                }
                self.parse_array_expression()
            },
            TokenKind::Current => Ok(AstNode::Current),
            TokenKind::Global => match &self.tokens[ti].name {
                Some(n) => Ok(AstNode::Global(n.clone())),
                None => Ok(AstNode::Global(String::new())),
            },
            TokenKind::Expref => match self.expression(0) {
                Ok(e) => Ok(AstNode::ExpressionReference(Box::new(e))),
                Err(e) => Err(e),
            },
            TokenKind::Lparen => self.parse_parenthesized(),
            _ => Err(self.error_token(k, ti)),
        }
    }

    fn parse_parenthesized(&mut self) -> (r: Result<AstNode, JsonFormulaError>)
        requires
            old(self).wf(),
            old(self).index < old(self).tokens@.len(),
        ensures
            final(self).tokens@ == old(self).tokens@,
            node_outcome(
                match parser_spec::paren_items(old(self).tv(), old(self).index as int, seq![]) {
                    Err(m) => Err(m),
                    Ok((items, q)) => Ok((if items.len() > 0 { items[0] } else { Ast::Identity }, q)),
                },
                r,
                final(self).index,
            ),
            r is Ok ==> old(self).index < final(self).index < old(self).tokens@.len(),
        decreases old(self).tokens@.len() - old(self).index, 2nat,
    {
        let ghost tv = self.tv();
        let ghost toks = self.tokens@;
        let ghost p0 = self.index as int;
        let mut args: Vec<AstNode> = Vec::new();
        assert(asts_of(args@) =~= Seq::<Ast>::empty());
        while self.lookahead(0) != TokenKind::Rparen
            invariant
                self.wf(),
                self.tokens@ == toks,
                toks == old(self).tokens@,
                p0 == old(self).index,
                self.tv() == tv,
                p0 <= self.index < self.tokens@.len(),
                parser_spec::paren_items(tv, self.index as int, asts_of(args@))
                    == parser_spec::paren_items(tv, p0, seq![]),
            decreases self.tokens@.len() - self.index,
        {
            let e = match self.expression(0) {
                Ok(e) => e,
                Err(e) => return Err(e),
            };
            proof { crate::ast::lemma_asts_push(args@, e); }
            args.push(e);
        }
        proof { self.lemma_not_last(self.index as int); }
        self.advance();
        if args.len() > 0 {
            let first = args.remove(0);
            Ok(first)
        } else {
            assert(ast_of(AstNode::Identity) == Ast::Identity);
            Ok(AstNode::Identity)
        }
    }

    fn led(&mut self, k: TokenKind, ti: usize, left: AstNode) -> (r: Result<AstNode, JsonFormulaError>)
        requires
            old(self).wf(),
            ti < old(self).tokens@.len(),
            old(self).tv()[ti as int].kind != TokenKind::Eof,
            old(self).index == ti + 1,
        ensures
            final(self).tokens@ == old(self).tokens@,
            node_outcome(
                parser_spec::led(old(self).tv(), TokenModel { kind: k, ..old(self).tv()[ti as int] }, ast_of(left), ti + 1),
                r,
                final(self).index,
            ),
            r is Ok ==> old(self).index <= final(self).index < old(self).tokens@.len(),
        decreases old(self).tokens@.len() - old(self).index, 5nat,
    {
        proof { self.lemma_not_last(ti as int); }
        assert(ast_of(AstNode::Identity) == Ast::Identity);
        if is_infix_operator(k) {
            return self.led_infix(k, ti, left);
        }
        match k {
            TokenKind::Dot => self.led_dot(ti, left),
            TokenKind::Lparen => match left {
                AstNode::Identifier(name) => match self.parse_function_args() {
                    Ok(args) => Ok(AstNode::Function { name, args }),
                    Err(e) => Err(e),
                },
                _ => Err(syntax_str("Bad function syntax. Parenthesis must be preceded by an unquoted identifier")),
            },
            TokenKind::Filter => self.led_filter(ti, left),
            TokenKind::Flatten => {
                let ghost flat = ast_of(AstNode::Flatten(Box::new(left)));
                assert(flat == Ast::Flatten(Box::new(ast_of(left))));
                match self.parse_projection_rhs(10) {
                    Ok(right) => Ok(AstNode::Projection {
                        left: Box::new(AstNode::Flatten(Box::new(left))),
                        right: Box::new(right),
                        debug: None,
                    }),
                    Err(e) => Err(e),
                }
            },
            TokenKind::Lbracket => self.led_bracket(ti, left),
            _ => Err(self.error_token(k, ti)),
        }
    }

    /// `left.` followed by a name, a multi-select, or a `*` projection.
    fn led_dot(&mut self, ti: usize, left: AstNode) -> (r: Result<AstNode, JsonFormulaError>)
        requires
            old(self).wf(),
            ti < old(self).tokens@.len(),
            old(self).index == ti + 1,
            old(self).index < old(self).tokens@.len(),
        ensures
            final(self).tokens@ == old(self).tokens@,
            node_outcome(
                parser_spec::led(old(self).tv(), TokenModel { kind: TokenKind::Dot, ..old(self).tv()[ti as int] }, ast_of(left), ti + 1),
                r,
                final(self).index,
            ),
            r is Ok ==> old(self).index <= final(self).index < old(self).tokens@.len(),
        decreases old(self).tokens@.len() - old(self).index, 4nat,
    {
        assert(ast_of(AstNode::Identity) == Ast::Identity);
        if self.lookahead(0) != TokenKind::Star {
            let right = match self.parse_dot_rhs(40) {
                Ok(n) => n,
                Err(e) => return Err(e),
            };
            if let AstNode::ChainedExpression(mut nodes) = left {
                proof { crate::ast::lemma_asts_push(nodes@, right); }
                nodes.push(right);
                return Ok(AstNode::ChainedExpression(nodes));
            }
            return Ok(AstNode::ChainedExpression(pair_vec(left, right)));
        }
        proof { self.lemma_not_last(self.index as int); }
        self.advance();
        match self.parse_projection_rhs(40) {
            Ok(right) => Ok(AstNode::ValueProjection { left: Box::new(left), right: Box::new(right) }),
            Err(e) => Err(e),
        }
    }

    /// `left[? condition]` followed by the right side of the projection.
    fn led_filter(&mut self, ti: usize, left: AstNode) -> (r: Result<AstNode, JsonFormulaError>)
        requires
            old(self).wf(),
            ti < old(self).tokens@.len(),
            old(self).index == ti + 1,
            old(self).index < old(self).tokens@.len(),
        ensures
            final(self).tokens@ == old(self).tokens@,
            node_outcome(
                parser_spec::led(old(self).tv(), TokenModel { kind: TokenKind::Filter, ..old(self).tv()[ti as int] }, ast_of(left), ti + 1),
                r,
                final(self).index,
            ),
            r is Ok ==> old(self).index <= final(self).index < old(self).tokens@.len(),
        decreases old(self).tokens@.len() - old(self).index, 4nat,
    {
        assert(ast_of(AstNode::Identity) == Ast::Identity);
        let condition = match self.expression(0) {
            Ok(n) => n,
            Err(e) => return Err(e),
        };
        match self.match_kind(TokenKind::Rbracket) {
            Ok(()) => {},
            Err(e) => return Err(e),
        }
        match self.parse_projection_rhs(21) {
            Ok(right) => Ok(AstNode::FilterProjection {
                left: Box::new(left),
                right: Box::new(right),
                condition: Box::new(condition),
            }),
            Err(e) => Err(e),
        }
    }

    /// `left[...]`: an index, a slice, or a `[*]` projection.
    fn led_bracket(&mut self, ti: usize, left: AstNode) -> (r: Result<AstNode, JsonFormulaError>)
        requires
            old(self).wf(),
            ti < old(self).tokens@.len(),
            old(self).index == ti + 1,
            old(self).index < old(self).tokens@.len(),
        ensures
            final(self).tokens@ == old(self).tokens@,
            node_outcome(
                parser_spec::led(old(self).tv(), TokenModel { kind: TokenKind::Lbracket, ..old(self).tv()[ti as int] }, ast_of(left), ti + 1),
                r,
                final(self).index,
            ),
            r is Ok ==> old(self).index <= final(self).index < old(self).tokens@.len(),
        decreases old(self).tokens@.len() - old(self).index, 4nat,
    {
        assert(ast_of(AstNode::Identity) == Ast::Identity);
        let star_next = if self.lookahead(0) == TokenKind::Star {
            proof { self.lemma_not_last(self.index as int); }
            self.lookahead(1) == TokenKind::Rbracket
        } else {
            false
        };
        if star_next {
            proof { self.lemma_not_last(self.index + 1); }
            self.advance();
            self.advance();
            return match self.parse_projection_rhs(20) {
                Ok(right) => Ok(AstNode::Projection {
                    left: Box::new(left),
                    right: Box::new(right),
                    debug: Some(String::from_str("Wildcard")),
                }),
                Err(e) => Err(e),
            };
        }
        match self.parse_index_expression() {
            Ok(right) => Ok(project_if_slice(left, right)),
            Err(e) => Err(e),
        }
    }

    /// The infix operators that combine `left` with one expression on their right.
    fn led_infix(&mut self, k: TokenKind, ti: usize, left: AstNode) -> (r: Result<AstNode, JsonFormulaError>)
        requires
            old(self).wf(),
            ti < old(self).tokens@.len(),
            old(self).index == ti + 1,
            old(self).index < old(self).tokens@.len(),
            infix_operator(k),
        ensures
            final(self).tokens@ == old(self).tokens@,
            node_outcome(
                parser_spec::led(old(self).tv(), TokenModel { kind: k, ..old(self).tv()[ti as int] }, ast_of(left), ti + 1),
                r,
                final(self).index,
            ),
            r is Ok ==> old(self).index <= final(self).index < old(self).tokens@.len(),
        decreases old(self).tokens@.len() - old(self).index, 4nat,
    {
        match k {
            TokenKind::Concatenate => match self.expression(5) {
                Ok(right) => Ok(AstNode::ConcatenateExpression(Box::new(left), Box::new(right))),
                Err(e) => Err(e),
            },
            TokenKind::Pipe => match self.expression(1) {
                Ok(right) => Ok(AstNode::Pipe(Box::new(left), Box::new(right))),
                Err(e) => Err(e),
            },
            TokenKind::Or => match self.expression(2) {
                Ok(right) => Ok(AstNode::OrExpression(Box::new(left), Box::new(right))),
                Err(e) => Err(e),
            },
            TokenKind::And => match self.expression(3) {
                Ok(right) => Ok(AstNode::AndExpression(Box::new(left), Box::new(right))),
                Err(e) => Err(e),
            },
            TokenKind::Add => match self.expression(6) {
                Ok(right) => Ok(AstNode::AddExpression(Box::new(left), Box::new(right))),
                Err(e) => Err(e),
            },
            TokenKind::Subtract => match self.expression(6) {
                Ok(right) => Ok(AstNode::SubtractExpression(Box::new(left), Box::new(right))),
                Err(e) => Err(e),
            },
            TokenKind::Multiply => match self.expression(7) {
                Ok(right) => Ok(AstNode::MultiplyExpression(Box::new(left), Box::new(right))),
                Err(e) => Err(e),
            },
            TokenKind::Divide => match self.expression(7) {
                Ok(right) => Ok(AstNode::DivideExpression(Box::new(left), Box::new(right))),
                Err(e) => Err(e),
            },
            TokenKind::Union => match self.expression(6) {
                Ok(right) => Ok(AstNode::UnionExpression(Box::new(left), Box::new(right))),
                Err(e) => Err(e),
            },
            _ => self.parse_comparator(left, ti),
        }
    }

    fn parse_comparator(&mut self, left: AstNode, ti: usize) -> (r: Result<AstNode, JsonFormulaError>)
        requires
            old(self).wf(),
            ti < old(self).tokens@.len(),
            old(self).index == ti + 1,
            old(self).index < old(self).tokens@.len(),
        ensures
            final(self).tokens@ == old(self).tokens@,
            node_outcome(
                parser_spec::wrap1(
                    parser_spec::expression(old(self).tv(), 4, ti + 1),
                    |r: Ast| Ast::Comparator {
                        op: comparator_op(old(self).tv()[ti as int]),
                        left: Box::new(ast_of(left)),
                        right: Box::new(r),
                    },
                ),
                r,
                final(self).index,
            ),
            r is Ok ==> old(self).index < final(self).index < old(self).tokens@.len(),
        decreases old(self).tokens@.len() - old(self).index, 1nat,
    {
        let ghost tv = self.tv();
        let ghost toks = self.tokens@;
        let right = match self.expression(4) {
            Ok(n) => n,
            Err(e) => return Err(e),
        };
        assert(tv[ti as int] == self.tokens@[ti as int]@);
        let op = match &self.tokens[ti].value {
            Some(TokenValue::Comparator(value)) => value.clone(),
            Some(TokenValue::String(value)) => value.clone(),
            _ => String::from_str("=="),
        };
        Ok(AstNode::Comparator { op, left: Box::new(left), right: Box::new(right) })
    }

    fn parse_projection_rhs(&mut self, rbp: i32) -> (r: Result<AstNode, JsonFormulaError>)
        requires
            old(self).wf(),
            old(self).index < old(self).tokens@.len(),
            0 <= rbp,
        ensures
            final(self).tokens@ == old(self).tokens@,
            node_outcome(parser_spec::projection_rhs(old(self).tv(), rbp as int, old(self).index as int), r, final(self).index),
            r is Ok ==> old(self).index <= final(self).index < old(self).tokens@.len(),
        decreases old(self).tokens@.len() - old(self).index, 3nat,
    {
        assert(ast_of(AstNode::Identity) == Ast::Identity);
        let next = self.lookahead(0);
        if ends_projection_kind(next) {
            Ok(AstNode::Identity)
        } else if bad_after_projection_kind(next) {
            Err(syntax_str("Projection expressions must be followed by a dot or bracket"))
        } else if next == TokenKind::Dot {
            proof { self.lemma_not_last(self.index as int); }
            self.advance();
            let rhs = match self.parse_dot_rhs(rbp) {
                Ok(n) => n,
                Err(e) => return Err(e),
            };
            let nodes = pair_vec(AstNode::Identity, rhs);
            Ok(AstNode::ChainedExpression(nodes))
        } else {
            self.expression(rbp)
        }
    }

    fn parse_dot_rhs(&mut self, rbp: i32) -> (r: Result<AstNode, JsonFormulaError>)
        requires
            old(self).wf(),
            old(self).index < old(self).tokens@.len(),
            0 <= rbp,
        ensures
            final(self).tokens@ == old(self).tokens@,
            node_outcome(parser_spec::dot_rhs(old(self).tv(), rbp as int, old(self).index as int), r, final(self).index),
            r is Ok ==> old(self).index <= final(self).index < old(self).tokens@.len(),
        decreases old(self).tokens@.len() - old(self).index, 2nat,
    {
        assert(ast_of(AstNode::Identity) == Ast::Identity);
        let next = self.lookahead(0);
        if next == TokenKind::Lbrace {
            return self.parse_multi_select_hash();
        }
        if next == TokenKind::Star {
            proof { self.lemma_not_last(self.index as int); }
            self.advance();
            return match self.parse_projection_rhs(rbp) {
                Ok(right) => Ok(AstNode::ValueProjection { left: Box::new(AstNode::Identity), right: Box::new(right) }),
                Err(e) => Err(e),
            };
        }
        if next == TokenKind::Lbracket {
            return self.parse_multi_select_list();
        }
        let expression = match self.expression(rbp) {
            Ok(n) => n,
            Err(e) => return Err(e),
        };
        if matches!(
            expression,
            AstNode::Literal(_) | AstNode::String(_) | AstNode::Number(_) | AstNode::Integer(_)
                | AstNode::UnaryMinusExpression(_)
        ) {
            return Err(syntax_str("Literal expressions are not allowed on the right side of a dot"));
        }
        Ok(expression)
    }

    fn list_items(&mut self, select: bool) -> (r: Result<AstNode, JsonFormulaError>)
        requires
            old(self).wf(),
            old(self).index < old(self).tokens@.len(),
        ensures
            final(self).tokens@ == old(self).tokens@,
            node_outcome(parser_spec::list_items(old(self).tv(), old(self).index as int, seq![], select), r, final(self).index),
            r is Ok ==> old(self).index < final(self).index < old(self).tokens@.len(),
        decreases old(self).tokens@.len() - old(self).index, 1nat,
    {
        let ghost tv = self.tv();
        let ghost toks = self.tokens@;
        let ghost p0 = self.index as int;
        let mut expressions: Vec<AstNode> = Vec::new();
        while self.lookahead(0) != TokenKind::Rbracket
            invariant
                self.wf(),
                self.tokens@ == toks,
                toks == old(self).tokens@,
                p0 == old(self).index,
                self.tv() == tv,
                p0 <= self.index < self.tokens@.len(),
                parser_spec::list_items(tv, self.index as int, asts_of(expressions@), select)
                    == parser_spec::list_items(tv, p0, seq![], select),
            decreases self.tokens@.len() - self.index,
        {
            let e = match self.expression(0) {
                Ok(n) => n,
                Err(err) => return Err(err),
            };
            proof { crate::ast::lemma_asts_push(expressions@, e); }
            expressions.push(e);
            if self.lookahead(0) == TokenKind::Comma {
                proof { self.lemma_not_last(self.index as int); }
                self.advance();
                if self.lookahead(0) == TokenKind::Rbracket {
                    return Err(if select {
                        syntax_str("Trailing commas are not allowed in list expressions")
                    } else {
                        syntax_str("Trailing commas are not allowed in array expressions")
                    });
                }
            }
        }
        proof { self.lemma_not_last(self.index as int); }
        self.advance();
        Ok(AstNode::ArrayExpression(expressions))
    }

    fn parse_multi_select_list(&mut self) -> (r: Result<AstNode, JsonFormulaError>)
        requires
            old(self).wf(),
            old(self).index < old(self).tokens@.len(),
            kind(old(self).tv(), old(self).index as int) == TokenKind::Lbracket,
        ensures
            final(self).tokens@ == old(self).tokens@,
            node_outcome(parser_spec::list_items(old(self).tv(), old(self).index + 1, seq![], true), r, final(self).index),
            r is Ok ==> old(self).index < final(self).index < old(self).tokens@.len(),
        decreases old(self).tokens@.len() - old(self).index, 1nat,
    {
        proof { self.lemma_not_last(self.index as int); }
        match self.match_kind(TokenKind::Lbracket) {
            Ok(()) => {},
            Err(e) => return Err(e),
        }
        self.list_items(true)
    }

    fn parse_array_expression(&mut self) -> (r: Result<AstNode, JsonFormulaError>)
        requires
            old(self).wf(),
            old(self).index < old(self).tokens@.len(),
        ensures
            final(self).tokens@ == old(self).tokens@,
            node_outcome(parser_spec::list_items(old(self).tv(), old(self).index as int, seq![], false), r, final(self).index),
            r is Ok ==> old(self).index < final(self).index < old(self).tokens@.len(),
        decreases old(self).tokens@.len() - old(self).index, 2nat,
    {
        self.list_items(false)
    }

    fn parse_multi_select_hash(&mut self) -> (r: Result<AstNode, JsonFormulaError>)
        requires
            old(self).wf(),
            old(self).index < old(self).tokens@.len(),
            kind(old(self).tv(), old(self).index as int) == TokenKind::Lbrace,
        ensures
            final(self).tokens@ == old(self).tokens@,
            node_outcome(parser_spec::object_expression(old(self).tv(), old(self).index + 1), r, final(self).index),
            r is Ok ==> old(self).index < final(self).index < old(self).tokens@.len(),
        decreases old(self).tokens@.len() - old(self).index, 1nat,
    {
        proof { self.lemma_not_last(self.index as int); }
        match self.match_kind(TokenKind::Lbrace) {
            Ok(()) => {},
            Err(e) => return Err(e),
        }
        self.parse_object_expression()
    }

    fn parse_object_expression(&mut self) -> (r: Result<AstNode, JsonFormulaError>)
        requires
            old(self).wf(),
            old(self).index < old(self).tokens@.len(),
        ensures
            final(self).tokens@ == old(self).tokens@,
            node_outcome(parser_spec::object_expression(old(self).tv(), old(self).index as int), r, final(self).index),
            r is Ok ==> old(self).index < final(self).index < old(self).tokens@.len(),
        decreases old(self).tokens@.len() - old(self).index, 1nat,
    {
        let ghost tv = self.tv();
        let ghost toks = self.tokens@;
        let ghost p0 = self.index as int;
        if self.lookahead(0) == TokenKind::Rbrace {
            return Err(syntax_str("Empty object expressions are not allowed"));
        }
        let mut pairs: Vec<KeyValuePair> = Vec::new();
        while self.lookahead(0) != TokenKind::Rbrace
            invariant
                self.wf(),
                self.tokens@ == toks,
                toks == old(self).tokens@,
                p0 == old(self).index,
                self.tv() == tv,
                p0 <= self.index < self.tokens@.len(),
                parser_spec::object_pairs(tv, self.index as int, pairs_of(pairs@))
                    == parser_spec::object_expression(tv, p0),
            decreases self.tokens@.len() - self.index,
        {
            let ki = self.index;
            let key_kind = self.lookahead(0);
            assert(tv[ki as int] == self.tokens@[ki as int]@);
            let key = if key_kind == TokenKind::Identifier || key_kind == TokenKind::QuotedIdentifier {
                proof { self.lemma_not_last(self.index as int); }
                self.advance();
                match &self.tokens[ki].value {
                    Some(TokenValue::String(value)) => value.clone(),
                    _ => return Err(syntax_str("Invalid key in object expression")),
                }
            } else {
                return Err(syntax_str("Object key must be an identifier or quoted identifier"));
            };
            match self.match_kind(TokenKind::Colon) {
                Ok(()) => {},
                Err(e) => return Err(e),
            }
            proof { self.lemma_not_last(self.index - 1); }
            let value = match self.expression(0) {
                Ok(n) => n,
                Err(e) => return Err(e),
            };
            let pair = KeyValuePair { key, value };
            proof { crate::ast::lemma_pairs_push(pairs@, pair); }
            pairs.push(pair);
            if self.lookahead(0) == TokenKind::Comma {
                proof { self.lemma_not_last(self.index as int); }
                self.advance();
                if self.lookahead(0) == TokenKind::Rbrace {
                    return Err(syntax_str("Trailing commas are not allowed in object expressions"));
                }
            }
        }
        proof { self.lemma_not_last(self.index as int); }
        self.advance();
        Ok(AstNode::ObjectExpression(pairs))
    }

    fn parse_function_args(&mut self) -> (r: Result<Vec<AstNode>, JsonFormulaError>)
        requires
            old(self).wf(),
            old(self).index < old(self).tokens@.len(),
        ensures
            final(self).tokens@ == old(self).tokens@,
            list_outcome(parser_spec::function_args(old(self).tv(), old(self).index as int), r, final(self).index),
            r is Ok ==> old(self).index < final(self).index < old(self).tokens@.len(),
        decreases old(self).tokens@.len() - old(self).index, 2nat,
    {
        let ghost tv = self.tv();
        let ghost toks = self.tokens@;
        let ghost p0 = self.index as int;
        let mut args: Vec<AstNode> = Vec::new();
        if self.lookahead(0) == TokenKind::Rparen {
            proof { self.lemma_not_last(self.index as int); }
            self.advance();
            assert(asts_of(args@) =~= Seq::<Ast>::empty());
            return Ok(args);
        }
        loop
            invariant
                self.wf(),
                self.tokens@ == toks,
                toks == old(self).tokens@,
                p0 == old(self).index,
                self.tv() == tv,
                p0 <= self.index < self.tokens@.len(),
                parser_spec::more_args(tv, self.index as int, asts_of(args@)) == parser_spec::function_args(tv, p0),
            decreases self.tokens@.len() - self.index,
        {
            let e = match self.expression(0) {
                Ok(n) => n,
                Err(err) => return Err(err),
            };
            proof { crate::ast::lemma_asts_push(args@, e); }
            args.push(e);
            if self.lookahead(0) == TokenKind::Comma {
                proof { self.lemma_not_last(self.index as int); }
                self.advance();
            } else {
                return match self.match_kind(TokenKind::Rparen) {
                    Ok(()) => Ok(args),
                    Err(err) => Err(err),
                };
            }
        }
    }

    fn parse_index_expression(&mut self) -> (r: Result<AstNode, JsonFormulaError>)
        requires
            old(self).wf(),
            old(self).index < old(self).tokens@.len(),
        ensures
            final(self).tokens@ == old(self).tokens@,
            node_outcome(parser_spec::index_expression(old(self).tv(), old(self).index as int), r, final(self).index),
            r is Ok ==> old(self).index < final(self).index < old(self).tokens@.len(),
        decreases old(self).tokens@.len() - old(self).index, 3nat,
    {
        let first = self.lookahead(0);
        if first == TokenKind::Colon || first == TokenKind::Rbracket {
            return self.parse_slice_expression();
        }
        let expression = match self.expression(0) {
            Ok(n) => n,
            Err(e) => return Err(e),
        };
        if self.lookahead(0) == TokenKind::Colon {
            proof { self.lemma_not_last(self.index as int); }
            self.advance();
            let start = match slice_int_of(expression) {
                Some(v) => v,
                None => return Err(syntax_str("Slice expressions must be integers")),
            };
            let mut parts: Vec<Option<i64>> = Vec::new();
            parts.push(Some(start));
            assert(parts_model(parts@) =~= seq![Some(start as int)]);
            return self.parse_slice_expression_with_parts(parts);
        }
        match self.match_kind(TokenKind::Rbracket) {
            Ok(()) => Ok(AstNode::Index(Box::new(expression))),
            Err(e) => Err(e),
        }
    }

    fn parse_slice_expression(&mut self) -> (r: Result<AstNode, JsonFormulaError>)
        requires
            old(self).wf(),
            old(self).index < old(self).tokens@.len(),
        ensures
            final(self).tokens@ == old(self).tokens@,
            node_outcome(parser_spec::slice_parts(old(self).tv(), old(self).index as int, seq![], true, false), r, final(self).index),
            r is Ok ==> old(self).index < final(self).index < old(self).tokens@.len(),
        decreases old(self).tokens@.len() - old(self).index, 2nat,
    {
        let parts: Vec<Option<i64>> = Vec::new();
        assert(parts_model(parts@) =~= Seq::<Option<int>>::empty());
        self.parse_slice_expression_with_parts(parts)
    }

    fn parse_slice_expression_with_parts(&mut self, leading: Vec<Option<i64>>) -> (r: Result<AstNode, JsonFormulaError>)
        requires
            old(self).wf(),
            old(self).index < old(self).tokens@.len(),
            leading@.len() <= 1,
        ensures
            final(self).tokens@ == old(self).tokens@,
            node_outcome(
                parser_spec::slice_parts(old(self).tv(), old(self).index as int, parts_model(leading@), true, leading@.len() > 0),
                r,
                final(self).index,
            ),
            r is Ok ==> old(self).index < final(self).index < old(self).tokens@.len(),
        decreases old(self).tokens@.len() - old(self).index, 1nat,
    {
        let ghost tv = self.tv();
        let ghost toks = self.tokens@;
        let ghost p0 = self.index as int;
        let ghost parts0 = leading@;
        let mut parts = leading;
        let mut expect_value = true;
        let mut saw_colon = parts.len() > 0;
        while self.lookahead(0) != TokenKind::Rbracket
            invariant
                self.wf(),
                self.tokens@ == toks,
                toks == old(self).tokens@,
                p0 == old(self).index,
                parts0 == leading@,
                self.tv() == tv,
                p0 <= self.index < self.tokens@.len(),
                parts@.len() <= (self.index - p0) + 1,
                parser_spec::slice_parts(tv, self.index as int, parts_model(parts@), expect_value, saw_colon)
                    == parser_spec::slice_parts(tv, p0, parts_model(parts0), true, parts0.len() > 0),
            decreases self.tokens@.len() - self.index,
        {
            if self.lookahead(0) == TokenKind::Colon {
                if expect_value {
                    proof { lemma_parts_push(parts@, None); }
                    parts.push(None);
                }
                proof { self.lemma_not_last(self.index as int); }
                self.advance();
                expect_value = true;
                saw_colon = true;
            } else {
                let expr = match self.expression(0) {
                    Ok(n) => n,
                    Err(e) => return Err(e),
                };
                match slice_int_of(expr) {
                    Some(v) => {
                        proof { lemma_parts_push(parts@, Some(v)); }
                        parts.push(Some(v));
                    },
                    None => return Err(syntax_str("Slice expressions must be integers")),
                }
                expect_value = false;
            }
        }
        if expect_value && saw_colon {
            proof { lemma_parts_push(parts@, None); }
            parts.push(None);
        }
        proof { self.lemma_not_last(self.index as int); }
        self.advance();
        if parts.len() > 3 {
            return Err(syntax_str("Slice expressions must have at most 3 parts"));
        }
        let start = if parts.len() > 0 { parts[0] } else { None };
        let stop = if parts.len() > 1 { parts[1] } else { None };
        let step = if parts.len() > 2 { parts[2] } else { None };
        Ok(AstNode::Slice { start, stop, step })
    }
}

/// The list `[a, b]`.
fn pair_vec(a: AstNode, b: AstNode) -> (v: Vec<AstNode>)
    ensures
        asts_of(v@) == seq![ast_of(a), ast_of(b)],
{
    let mut v: Vec<AstNode> = Vec::new();
    proof { crate::ast::lemma_asts_push(v@, a); }
    v.push(a);
    proof { crate::ast::lemma_asts_push(v@, b); }
    v.push(b);
    assert(asts_of(v@) =~= seq![ast_of(a), ast_of(b)]);
    v
}

/// Compiles expressions into syntax trees.
pub struct Parser<'a> {
    allowed_globals: &'a [String],
    debug: &'a mut Vec<String>,
}

impl<'a> Parser<'a> {
    /// The allowed global names.
    pub closed spec fn globals(&self) -> Seq<Seq<char>> {
        strings_view(self.allowed_globals@)
    }

    /// The vector that receives the notes about suspicious quoting.
    pub closed spec fn sink(&self) -> &'a mut Vec<String> {
        self.debug
    }

    /// A parser that accepts the global names `allowed_globals` (none listed: every `$`
    /// name) and records notes in `debug`.
    pub fn new(allowed_globals: &'a [String], debug: &'a mut Vec<String>) -> (r: Self)
        ensures
            r.globals() == strings_view(allowed_globals@),
            *r.sink() == *old(debug),
            *final(r.sink()) == *final(debug),
    {
        Self { allowed_globals, debug }
    }

    /// Compiles `expression`, as `parse_source` describes: the syntax tree or the syntax
    /// error, with the notes of the tokenizer appended to the note vector.
    pub fn parse(&mut self, expression: &str) -> (r: Result<AstNode, JsonFormulaError>)
        requires
            !(lex(expression.spec_bytes(), old(self).globals()) is Crash),
        ensures
            final(self).globals() == old(self).globals(),
            *final(final(self).sink()) == *final(old(self).sink()),
            strings_view((*final(self).sink())@)
                == strings_view((*old(self).sink())@) + lex_notes(expression.spec_bytes(), old(self).globals()),
            match parse_source(expression.spec_bytes(), old(self).globals()) {
                Ok(a) => r matches Ok(n) && ast_of(n) == a,
                Err(m) => r matches Err(e) && e.kind == JsonFormulaErrorKind::SyntaxError && e.message@ == m,
            },
    {
        let tokens = match self.load_tokens(expression) {
            Ok(t) => t,
            Err(e) => return Err(e),
        };
        let ghost tv = tokens_view(tokens@);
        let mut cursor = Cursor { tokens, index: 0 };
        let ast = match cursor.expression(0) {
            Ok(a) => a,
            Err(e) => return Err(e),
        };
        let k = cursor.lookahead(0);
        if k != TokenKind::Eof {
            return Err(syntax(concat_str("Unexpected token type: ", kind_name_str(k))));
        }
        Ok(ast)
    }

    /// The tokens of `expression` followed by an end-of-input token.
    fn load_tokens(&mut self, expression: &str) -> (r: Result<Vec<Token>, JsonFormulaError>)
        requires
            !(lex(expression.spec_bytes(), old(self).globals()) is Crash),
        ensures
            final(self).globals() == old(self).globals(),
            *final(final(self).sink()) == *final(old(self).sink()),
            strings_view((*final(self).sink())@)
                == strings_view((*old(self).sink())@) + lex_notes(expression.spec_bytes(), old(self).globals()),
            match lex(expression.spec_bytes(), old(self).globals()) {
                LexOutcome::Tokens(ts, _) => r matches Ok(v)
                    && tokens_view(v@) == ts.push(eof_token(expression.spec_bytes().len()))
                    && well_formed_tokens(tokens_view(v@)),
                LexOutcome::Failed(m, _) => r matches Err(e) && e.kind == JsonFormulaErrorKind::SyntaxError
                    && e.message@ == m,
                LexOutcome::Crash => false,
            },
    {
        let mut lexer = Lexer::new(self.allowed_globals, self.debug);
        let res = lexer.tokenize(expression);
        proof { lexer.lemma_sink_settled(); }
        let mut tokens = match res {
            Ok(t) => t,
            Err(e) => return Err(e),
        };
        proof { crate::lexer_spec::law_lex_has_no_eof_token(expression.spec_bytes(), strings_view(self.allowed_globals@)); }
        let ghost before = tokens_view(tokens@);
        let len = expression.as_bytes().len();
        tokens.push(Token { kind: TokenKind::Eof, value: Some(TokenValue::String(String::new())), start: len, name: None });
        assert(tokens_view(tokens@) =~= before.push(eof_token(len as nat)));
        assert forall|i: int| 0 <= i < tokens_view(tokens@).len() - 1 implies #[trigger] tokens_view(tokens@)[i].kind != TokenKind::Eof by {
            assert(tokens_view(tokens@)[i] == before[i]);
        }
        Ok(tokens)
    }
}

/// The plain content of the slice parts read so far.
spec fn parts_model(v: Seq<Option<i64>>) -> Seq<Option<int>> {
    v.map_values(|o: Option<i64>| crate::ast::opt_int(o))
}

proof fn lemma_parts_push(v: Seq<Option<i64>>, x: Option<i64>)
    ensures
        parts_model(v.push(x)) == parts_model(v).push(crate::ast::opt_int(x)),
{
    assert(parts_model(v.push(x)) =~= parts_model(v).push(crate::ast::opt_int(x)));
}

/// The integer that a slice position written as `n` or `-n` stands for.
fn slice_int_of(e: AstNode) -> (r: Option<i64>)
    ensures
        crate::ast::opt_int(r) == slice_int(ast_of(e)),
{
    proof { reveal_with_fuel(ast_of, 2); }
    match e {
        AstNode::Integer(v) => Some(v),
        AstNode::UnaryMinusExpression(inner) => match *inner {
            AstNode::Integer(v) => if v == i64::MIN {
                Some(v)
            } else {
                Some(-v)
            },
            _ => None,
        },
        _ => None,
    }
}

/// The operators that combine the expression on their left with one on their right.
pub open spec fn infix_operator(k: TokenKind) -> bool {
    k == TokenKind::Concatenate || k == TokenKind::Pipe || k == TokenKind::Or || k == TokenKind::And
        || k == TokenKind::Add || k == TokenKind::Subtract || k == TokenKind::Multiply || k == TokenKind::Divide
        || k == TokenKind::Union || k == TokenKind::Comparator
}

fn is_infix_operator(k: TokenKind) -> (r: bool)
    ensures
        r == infix_operator(k),
{
    matches!(
        k,
        TokenKind::Concatenate | TokenKind::Pipe | TokenKind::Or | TokenKind::And | TokenKind::Add
            | TokenKind::Subtract | TokenKind::Multiply | TokenKind::Divide | TokenKind::Union
            | TokenKind::Comparator
    )
}

/// The kinds after which a projection has nothing more on its right.
fn ends_projection_kind(k: TokenKind) -> (r: bool)
    ensures
        r == ends_projection(k),
{
    matches!(
        k,
        TokenKind::Rbracket | TokenKind::Rparen | TokenKind::Eof | TokenKind::Comma | TokenKind::Pipe
            | TokenKind::Or | TokenKind::And | TokenKind::Comparator | TokenKind::Concatenate | TokenKind::Add
            | TokenKind::Subtract | TokenKind::Multiply | TokenKind::Divide | TokenKind::Union | TokenKind::Flatten
    )
}

/// The kinds that may not follow a projection directly.
fn bad_after_projection_kind(k: TokenKind) -> (r: bool)
    ensures
        r == bad_after_projection(k),
{
    matches!(
        k,
        TokenKind::Identifier | TokenKind::QuotedIdentifier | TokenKind::String | TokenKind::Number | TokenKind::Int
            | TokenKind::Json | TokenKind::UnaryMinus | TokenKind::Star
    )
}

/// The kinds that end a bare `*` wildcard.
fn ends_wildcard_kind(k: TokenKind) -> (r: bool)
    ensures
        r == ends_wildcard(k),
{
    matches!(
        k,
        TokenKind::Rbracket | TokenKind::Rparen | TokenKind::Rbrace | TokenKind::Eof | TokenKind::Comma
            | TokenKind::Pipe | TokenKind::Or | TokenKind::And | TokenKind::Comparator | TokenKind::Concatenate
            | TokenKind::Add | TokenKind::Subtract | TokenKind::Star | TokenKind::Multiply | TokenKind::Divide
            | TokenKind::Union | TokenKind::Flatten | TokenKind::Filter
    )
}

/// `left[right]`, projecting `left` first when `right` is a slice.
fn project_if_slice(left: AstNode, right: AstNode) -> (r: AstNode)
    ensures
        ast_of(r) == parser_spec::project_if_slice(ast_of(left), ast_of(right)),
{
    proof { reveal_with_fuel(ast_of, 3); }
    if matches!(right, AstNode::Slice { .. }) {
        let projection = AstNode::Projection { left: Box::new(left), right: Box::new(AstNode::Identity), debug: None };
        AstNode::BracketExpression(Box::new(projection), Box::new(right))
    } else {
        AstNode::BracketExpression(Box::new(left), Box::new(right))
    }
}

} // verus!
