//! Rendering a syntax tree back into readable expression text.

use vstd::prelude::*;
use crate::ast::{AstNode, KeyValuePair, Ast, ast_of, asts_of, pairs_of, lemma_asts_push, lemma_pairs_push};
use crate::text::{push_text, signed_decimal_text};
use crate::foreign::string_from_chars;

verus! {

/// Whether a node is written with an infix operator and so is put in parentheses where it
/// stands as the operand of another operator.
pub open spec fn is_binary(a: Ast) -> bool {
    match a {
        Ast::AndExpression(..) | Ast::OrExpression(..) | Ast::AddExpression(..)
        | Ast::SubtractExpression(..) | Ast::MultiplyExpression(..) | Ast::DivideExpression(..)
        | Ast::ConcatenateExpression(..) | Ast::UnionExpression(..) | Ast::Comparator { .. } => true,
        _ => false,
    }
}

/// `t` in parentheses where `paren` holds.
pub open spec fn wrap(t: Seq<char>, paren: bool) -> Seq<char> {
    if paren { seq!['('] + t + seq![')'] } else { t }
}

/// The operator between the operands of an arithmetic or logical node, with a space on
/// each side.
pub open spec fn infix_op(a: Ast) -> Seq<char> {
    match a {
        Ast::AndExpression(..) => seq![' ', '&', '&', ' '],
        Ast::OrExpression(..) => seq![' ', '|', '|', ' '],
        Ast::AddExpression(..) => seq![' ', '+', ' '],
        Ast::SubtractExpression(..) => seq![' ', '-', ' '],
        Ast::MultiplyExpression(..) => seq![' ', '*', ' '],
        Ast::DivideExpression(..) => seq![' ', '/', ' '],
        _ => seq![' ', '&', ' '],
    }
}

/// The decimal text of an optional bound, or nothing.
pub open spec fn opt_decimal(o: Option<int>) -> Seq<char> {
    match o {
        Some(n) => signed_decimal_text(n),
        None => seq![],
    }
}

/// The readable text of an expression. Identity and the current node both read `@`;
/// operands that are themselves infix expressions are put in parentheses, except in
/// unions, comparisons and pipes.
pub open spec fn expr_text(a: Ast) -> Seq<char>
    decreases a,
{
    match a {
        Ast::Identity => seq!['@'],
        Ast::Current => seq!['@'],
        Ast::Identifier(s) => s,
        Ast::QuotedIdentifier(s) => s,
        Ast::Literal(s) => s,
        Ast::String(s) => seq!['"'] + s + seq!['"'],
        Ast::Number(s) => s,
        Ast::Integer(n) => signed_decimal_text(n),
        Ast::Global(s) => seq!['$'] + s,
        Ast::NotExpression(x) => seq!['!'] + wrap(expr_text(*x), is_binary(*x)),
        Ast::UnaryMinusExpression(x) => seq!['-'] + wrap(expr_text(*x), is_binary(*x)),
        Ast::AndExpression(l, r) => wrap(expr_text(*l), is_binary(*l)) + infix_op(a) + wrap(expr_text(*r), is_binary(*r)),
        Ast::OrExpression(l, r) => wrap(expr_text(*l), is_binary(*l)) + infix_op(a) + wrap(expr_text(*r), is_binary(*r)),
        Ast::AddExpression(l, r) => wrap(expr_text(*l), is_binary(*l)) + infix_op(a) + wrap(expr_text(*r), is_binary(*r)),
        Ast::SubtractExpression(l, r) => wrap(expr_text(*l), is_binary(*l)) + infix_op(a) + wrap(expr_text(*r), is_binary(*r)),
        Ast::MultiplyExpression(l, r) => wrap(expr_text(*l), is_binary(*l)) + infix_op(a) + wrap(expr_text(*r), is_binary(*r)),
        Ast::DivideExpression(l, r) => wrap(expr_text(*l), is_binary(*l)) + infix_op(a) + wrap(expr_text(*r), is_binary(*r)),
        Ast::ConcatenateExpression(l, r) => wrap(expr_text(*l), is_binary(*l)) + infix_op(a) + wrap(expr_text(*r), is_binary(*r)),
        Ast::UnionExpression(l, r) => expr_text(*l) + seq![',', ' '] + expr_text(*r),
        Ast::Comparator { op, left, right } => expr_text(*left) + seq![' '] + op + seq![' '] + expr_text(*right),
        Ast::Pipe(l, r) => expr_text(*l) + seq![' ', '|', ' '] + expr_text(*r),
        Ast::ChainedExpression(cs) => joined_text(cs, seq!['.']),
        Ast::BracketExpression(l, r) => expr_text(*l) + seq!['['] + expr_text(*r) + seq![']'],
        Ast::Index(x) => expr_text(*x),
        Ast::Slice { start, stop, step } => opt_decimal(start) + seq![':'] + opt_decimal(stop) + match step {
            Some(s) => seq![':'] + signed_decimal_text(s),
            None => seq![],
        },
        Ast::Projection { left, right, .. } => expr_text(*left) + seq!['[', '*', ']']
            + if *right is Identity { seq![] } else { seq!['.'] + expr_text(*right) },
        Ast::ValueProjection { left, right } => expr_text(*left) + seq!['.', '*']
            + if *right is Identity { seq![] } else { seq!['.'] + expr_text(*right) },
        Ast::FilterProjection { left, right, condition } => expr_text(*left) + seq!['[', '?'] + expr_text(*condition)
            + seq![']'] + if *right is Identity { seq![] } else { seq!['.'] + expr_text(*right) },
        Ast::Flatten(x) => expr_text(*x) + seq!['[', ']'],
        Ast::Function { name, args } => name + seq!['('] + joined_text(args, seq![',', ' ']) + seq![')'],
        Ast::ArrayExpression(items) => seq!['['] + joined_text(items, seq![',', ' ']) + seq![']'],
        Ast::ObjectExpression(pairs) => seq!['{'] + joined_pairs_text(pairs) + seq!['}'],
        Ast::ExpressionReference(x) => seq!['&'] + expr_text(*x),
        Ast::KeyValuePair { key, value } => key + seq![':', ' '] + expr_text(*value),
    }
}

/// The texts of the expressions `s`, with `sep` between each two.
pub open spec fn joined_text(s: Seq<Ast>, sep: Seq<char>) -> Seq<char>
    decreases s,
{
    if s.len() == 0 {
        seq![]
    } else if s.len() == 1 {
        expr_text(s[0])
    } else {
        joined_text(s.drop_last(), sep) + sep + expr_text(s.last())
    }
}

/// The texts `key: value` of the pairs `s`, with `, ` between each two.
pub open spec fn joined_pairs_text(s: Seq<(Seq<char>, Ast)>) -> Seq<char>
    decreases s,
{
    if s.len() == 0 {
        seq![]
    } else if s.len() == 1 {
        s[0].0 + seq![':', ' '] + expr_text(s[0].1)
    } else {
        joined_pairs_text(s.drop_last()) + seq![',', ' '] + s.last().0 + seq![':', ' '] + expr_text(s.last().1)
    }
}

/// Appends the decimal text of `n`, with its sign.
fn push_signed_decimal(n: i64, out: &mut Vec<char>)
    ensures
        final(out)@ == old(out)@ + signed_decimal_text(n as int),
{
    let s = crate::text::signed_decimal_string(n);
    push_text(s.as_str(), out);
}

/// Whether the node is written with an infix operator.
fn is_binary_node(n: &AstNode) -> (b: bool)
    ensures
        b == is_binary(ast_of(*n)),
{
    match n {
        AstNode::AndExpression(..) | AstNode::OrExpression(..) | AstNode::AddExpression(..)
        | AstNode::SubtractExpression(..) | AstNode::MultiplyExpression(..) | AstNode::DivideExpression(..)
        | AstNode::ConcatenateExpression(..) | AstNode::UnionExpression(..) | AstNode::Comparator { .. } => true,
        _ => false,
    }
}

/// Appends the operator of an arithmetic or logical node, with its spaces.
fn push_infix_op(n: &AstNode, out: &mut Vec<char>)
    ensures
        final(out)@ == old(out)@ + infix_op(ast_of(*n)),
{
    let ghost start = out@;
    out.push(' ');
    match n {
        AstNode::AndExpression(..) => { out.push('&'); out.push('&'); },
        AstNode::OrExpression(..) => { out.push('|'); out.push('|'); },
        AstNode::AddExpression(..) => { out.push('+'); },
        AstNode::SubtractExpression(..) => { out.push('-'); },
        AstNode::MultiplyExpression(..) => { out.push('*'); },
        AstNode::DivideExpression(..) => { out.push('/'); },
        _ => { out.push('&'); },
    }
    out.push(' ');
    assert(out@ =~= start + infix_op(ast_of(*n)));
}

/// Appends the text of `n`, in parentheses where it is an infix expression.
fn write_operand(n: &AstNode, out: &mut Vec<char>)
    ensures
        final(out)@ == old(out)@ + wrap(expr_text(ast_of(*n)), is_binary(ast_of(*n))),
    decreases n, 3nat,
{
    let ghost start = out@;
    let p = is_binary_node(n);
    if p {
        out.push('(');
    }
    write_expr(n, out);
    if p {
        out.push(')');
    }
    assert(out@ =~= start + wrap(expr_text(ast_of(*n)), is_binary(ast_of(*n))));
}

/// Appends `.` and the text of `right`, unless `right` is the identity.
fn write_tail(right: &AstNode, out: &mut Vec<char>)
    ensures
        final(out)@ == old(out)@ + if ast_of(*right) is Identity { seq![] } else { seq!['.'] + expr_text(ast_of(*right)) },
    decreases right, 3nat,
{
    let ghost start = out@;
    match right {
        AstNode::Identity => {
            assert(out@ =~= start + seq![]);
        },
        _ => {
            out.push('.');
            write_expr(right, out);
            assert(out@ =~= start + (seq!['.'] + expr_text(ast_of(*right))));
        },
    }
}

/// Appends the texts of the nodes `v`, with `sep` between each two.
fn write_joined(v: &Vec<AstNode>, sep: &str, out: &mut Vec<char>)
    ensures
        final(out)@ == old(out)@ + joined_text(asts_of(v@), sep@),
    decreases v, 0nat,
{
    let ghost start = out@;
    let n = v.len();
    let mut i: usize = 0;
    assert(asts_of(v@.subrange(0, 0)) =~= Seq::<Ast>::empty());
    assert(out@ =~= start + joined_text(asts_of(v@.subrange(0, 0)), sep@));
    while i < n
        invariant
            n == v@.len(),
            i <= n,
            out@ == start + joined_text(asts_of(v@.subrange(0, i as int)), sep@),
        decreases n - i,
    {
        assert(decreases_to!(v => v@[i as int]));
        let ghost prev = asts_of(v@.subrange(0, i as int));
        if i > 0 {
            push_text(sep, out);
        }
        write_expr(&v[i], out);
        proof {
            lemma_asts_push(v@.subrange(0, i as int), v@[i as int]);
            assert(v@.subrange(0, i + 1) =~= v@.subrange(0, i as int).push(v@[i as int]));
            let cur = prev.push(ast_of(v@[i as int]));
            assert(asts_of(v@.subrange(0, i + 1)) == cur);
            assert(cur.drop_last() =~= prev);
            assert(cur.last() == ast_of(v@[i as int]));
            if i == 0 {
                assert(prev.len() == 0);
                assert(joined_text(prev, sep@) =~= Seq::<char>::empty());
                assert(out@ =~= start + joined_text(cur, sep@));
            } else {
                assert(out@ =~= start + joined_text(cur, sep@));
            }
        }
        i = i + 1;
    }
    assert(v@.subrange(0, n as int) =~= v@);
}

/// Appends the texts `key: value` of the pairs `v`, with `, ` between each two.
fn write_pairs(v: &Vec<KeyValuePair>, out: &mut Vec<char>)
    ensures
        final(out)@ == old(out)@ + joined_pairs_text(pairs_of(v@)),
    decreases v, 0nat,
{
    let ghost start = out@;
    let n = v.len();
    let mut i: usize = 0;
    assert(pairs_of(v@.subrange(0, 0)) =~= Seq::<(Seq<char>, Ast)>::empty());
    assert(out@ =~= start + joined_pairs_text(pairs_of(v@.subrange(0, 0))));
    while i < n
        invariant
            n == v@.len(),
            i <= n,
            out@ == start + joined_pairs_text(pairs_of(v@.subrange(0, i as int))),
        decreases n - i,
    {
        assert(decreases_to!(v => v@[i as int]));
        assert(decreases_to!(v@[i as int] => v@[i as int].value));
        let ghost prev = pairs_of(v@.subrange(0, i as int));
        if i > 0 {
            out.push(',');
            out.push(' ');
        }
        push_text(v[i].key.as_str(), out);
        out.push(':');
        out.push(' ');
        write_expr(&v[i].value, out);
        proof {
            lemma_pairs_push(v@.subrange(0, i as int), v@[i as int]);
            assert(v@.subrange(0, i + 1) =~= v@.subrange(0, i as int).push(v@[i as int]));
            let cur = prev.push((v@[i as int].key@, ast_of(v@[i as int].value)));
            assert(pairs_of(v@.subrange(0, i + 1)) == cur);
            assert(cur.drop_last() =~= prev);
            if i == 0 {
                assert(prev.len() == 0);
                assert(joined_pairs_text(prev) =~= Seq::<char>::empty());
                assert(out@ =~= start + joined_pairs_text(cur));
            } else {
                assert(out@ =~= start + joined_pairs_text(cur));
            }
        }
        i = i + 1;
    }
    assert(v@.subrange(0, n as int) =~= v@);
}

/// The four groups in which the writing of a node is split: plain leaves, operators,
/// accesses and projections, and lists.
spec fn node_group(n: AstNode) -> nat {
    match n {
        AstNode::Identity | AstNode::Current | AstNode::Identifier(_) | AstNode::QuotedIdentifier(_)
        | AstNode::Literal(_) | AstNode::Number(_) | AstNode::String(_) | AstNode::Integer(_)
        | AstNode::Global(_) | AstNode::Slice { .. } => 0,
        AstNode::NotExpression(_) | AstNode::UnaryMinusExpression(_) | AstNode::AndExpression(..)
        | AstNode::OrExpression(..) | AstNode::AddExpression(..) | AstNode::SubtractExpression(..)
        | AstNode::MultiplyExpression(..) | AstNode::DivideExpression(..)
        | AstNode::ConcatenateExpression(..) | AstNode::UnionExpression(..)
        | AstNode::Comparator { .. } | AstNode::Pipe(..) => 1,
        AstNode::Function { .. } | AstNode::ArrayExpression(_) | AstNode::ObjectExpression(_) => 3,
        _ => 2,
    }
}

/// Appends the text of a leaf node or a slice.
fn write_leaf(node: &AstNode, out: &mut Vec<char>)
    requires
        node_group(*node) == 0,
    ensures
        final(out)@ == old(out)@ + expr_text(ast_of(*node)),
{
    let ghost start = out@;
    let ghost a = ast_of(*node);
    match node {
        AstNode::Identity | AstNode::Current => {
            out.push('@');
            assert(out@ =~= start + expr_text(a));
        },
        AstNode::Identifier(s) | AstNode::QuotedIdentifier(s) | AstNode::Literal(s) | AstNode::Number(s) => {
            push_text(s.as_str(), out);
        },
        AstNode::String(s) => {
            out.push('"');
            push_text(s.as_str(), out);
            out.push('"');
            assert(out@ =~= start + expr_text(a));
        },
        AstNode::Integer(v) => {
            push_signed_decimal(*v, out);
        },
        AstNode::Global(s) => {
            out.push('$');
            push_text(s.as_str(), out);
            assert(out@ =~= start + expr_text(a));
        },
        AstNode::Slice { start: lo, stop: hi, step } => {
            match lo {
                Some(v) => push_signed_decimal(*v, out),
                None => {},
            }
            out.push(':');
            match hi {
                Some(v) => push_signed_decimal(*v, out),
                None => {},
            }
            match step {
                Some(v) => {
                    out.push(':');
                    push_signed_decimal(*v, out);
                },
                None => {},
            }
            assert(out@ =~= start + expr_text(a));
        },
        _ => {},
    }
}

/// Appends the text of an operator node.
#[verifier::rlimit(60)]
fn write_operator(node: &AstNode, out: &mut Vec<char>)
    requires
        node_group(*node) == 1,
    ensures
        final(out)@ == old(out)@ + expr_text(ast_of(*node)),
    decreases node, 1nat,
{
    let ghost start = out@;
    let ghost a = ast_of(*node);
    match node {
        AstNode::NotExpression(x) => {
            out.push('!');
            write_operand(x, out);
            assert(out@ =~= start + expr_text(a));
        },
        AstNode::UnaryMinusExpression(x) => {
            out.push('-');
            write_operand(x, out);
            assert(out@ =~= start + expr_text(a));
        },
        AstNode::AndExpression(l, r) | AstNode::OrExpression(l, r) | AstNode::AddExpression(l, r)
        | AstNode::SubtractExpression(l, r) | AstNode::MultiplyExpression(l, r)
        | AstNode::DivideExpression(l, r) | AstNode::ConcatenateExpression(l, r) => {
            write_operand(l, out);
            push_infix_op(node, out);
            write_operand(r, out);
            assert(out@ =~= start + expr_text(a));
        },
        AstNode::UnionExpression(l, r) => {
            write_expr(l, out);
            out.push(',');
            out.push(' ');
            write_expr(r, out);
            assert(out@ =~= start + expr_text(a));
        },
        AstNode::Comparator { op, left, right } => {
            write_expr(left, out);
            out.push(' ');
            push_text(op.as_str(), out);
            out.push(' ');
            write_expr(right, out);
            assert(out@ =~= start + expr_text(a));
        },
        AstNode::Pipe(l, r) => {
            write_expr(l, out);
            out.push(' ');
            out.push('|');
            out.push(' ');
            write_expr(r, out);
            assert(out@ =~= start + expr_text(a));
        },
        _ => {},
    }
}

/// Appends the text of an access, a projection or a reference.
fn write_access(node: &AstNode, out: &mut Vec<char>)
    requires
        node_group(*node) == 2,
    ensures
        final(out)@ == old(out)@ + expr_text(ast_of(*node)),
    decreases node, 1nat,
{
    let ghost start = out@;
    let ghost a = ast_of(*node);
    match node {
        AstNode::ChainedExpression(cs) => {
            let dot = ".";
            proof { reveal_strlit("."); }
            assert(dot@ =~= seq!['.']);
            write_joined(cs, dot, out);
        },
        AstNode::BracketExpression(l, r) => {
            write_expr(l, out);
            out.push('[');
            write_expr(r, out);
            out.push(']');
            assert(out@ =~= start + expr_text(a));
        },
        AstNode::Index(x) => {
            write_expr(x, out);
        },
        AstNode::Projection { left, right, .. } => {
            write_expr(left, out);
            out.push('[');
            out.push('*');
            out.push(']');
            write_tail(right, out);
            assert(out@ =~= start + expr_text(a));
        },
        AstNode::ValueProjection { left, right } => {
            write_expr(left, out);
            out.push('.');
            out.push('*');
            write_tail(right, out);
            assert(out@ =~= start + expr_text(a));
        },
        AstNode::FilterProjection { left, right, condition } => {
            write_expr(left, out);
            out.push('[');
            out.push('?');
            write_expr(condition, out);
            out.push(']');
            write_tail(right, out);
            assert(out@ =~= start + expr_text(a));
        },
        AstNode::Flatten(x) => {
            write_expr(x, out);
            out.push('[');
            out.push(']');
            assert(out@ =~= start + expr_text(a));
        },
        AstNode::ExpressionReference(x) => {
            out.push('&');
            write_expr(x, out);
            assert(out@ =~= start + expr_text(a));
        },
        AstNode::KeyValuePair { key, value } => {
            push_text(key.as_str(), out);
            out.push(':');
            out.push(' ');
            write_expr(value, out);
            assert(out@ =~= start + expr_text(a));
        },
        _ => {},
    }
}

/// Appends the text of a function call, an array or an object.
fn write_collection(node: &AstNode, out: &mut Vec<char>)
    requires
        node_group(*node) == 3,
    ensures
        final(out)@ == old(out)@ + expr_text(ast_of(*node)),
    decreases node, 1nat,
{
    let ghost start = out@;
    let ghost a = ast_of(*node);
    let comma = ", ";
    proof { reveal_strlit(", "); }
    assert(comma@ =~= seq![',', ' ']);
    match node {
        AstNode::Function { name, args } => {
            push_text(name.as_str(), out);
            out.push('(');
            write_joined(args, comma, out);
            out.push(')');
            assert(out@ =~= start + expr_text(a));
        },
        AstNode::ArrayExpression(items) => {
            out.push('[');
            write_joined(items, comma, out);
            out.push(']');
            assert(out@ =~= start + expr_text(a));
        },
        AstNode::ObjectExpression(pairs) => {
            out.push('{');
            write_pairs(pairs, out);
            out.push('}');
            assert(out@ =~= start + expr_text(a));
        },
        _ => {},
    }
}

/// Appends the readable text of `node` to `out`.
fn write_expr(node: &AstNode, out: &mut Vec<char>)
    ensures
        final(out)@ == old(out)@ + expr_text(ast_of(*node)),
    decreases node, 2nat,
{
    match node {
        AstNode::Identity | AstNode::Current | AstNode::Identifier(_) | AstNode::QuotedIdentifier(_)
        | AstNode::Literal(_) | AstNode::Number(_) | AstNode::String(_) | AstNode::Integer(_)
        | AstNode::Global(_) | AstNode::Slice { .. } => write_leaf(node, out),
        AstNode::NotExpression(_) | AstNode::UnaryMinusExpression(_) | AstNode::AndExpression(..)
        | AstNode::OrExpression(..) | AstNode::AddExpression(..) | AstNode::SubtractExpression(..)
        | AstNode::MultiplyExpression(..) | AstNode::DivideExpression(..)
        | AstNode::ConcatenateExpression(..) | AstNode::UnionExpression(..)
        | AstNode::Comparator { .. } | AstNode::Pipe(..) => write_operator(node, out),
        AstNode::Function { .. } | AstNode::ArrayExpression(_) | AstNode::ObjectExpression(_) => write_collection(node, out),
        _ => write_access(node, out),
    }
}

impl AstNode {
    /// The node written back as readable expression text, for display and debugging; not
    /// a lossless round trip (identity and the current node both read `@`).
    pub fn to_expr_string(&self) -> (s: String)
        ensures
            s@ == expr_text(ast_of(*self)),
    {
        let mut out: Vec<char> = Vec::new();
        write_expr(self, &mut out);
        assert(out@ =~= expr_text(ast_of(*self)));
        string_from_chars(&out)
    }
}

} // verus!
