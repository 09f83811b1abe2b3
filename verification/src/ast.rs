//! The syntax tree of an expression.

use vstd::prelude::*;

verus! {

/// A node of the syntax tree. A number literal with a fraction or an exponent keeps its
/// decimal text, and a JSON literal its JSON text; the evaluator reads them into values.
#[derive(Debug, PartialEq)]
pub enum AstNode {
    Identity,
    Identifier(String),
    QuotedIdentifier(String),
    Literal(String),
    String(String),
    Number(String),
    Integer(i64),
    Current,
    Global(String),
    ExpressionReference(Box<AstNode>),
    NotExpression(Box<AstNode>),
    UnaryMinusExpression(Box<AstNode>),
    ConcatenateExpression(Box<AstNode>, Box<AstNode>),
    OrExpression(Box<AstNode>, Box<AstNode>),
    AndExpression(Box<AstNode>, Box<AstNode>),
    AddExpression(Box<AstNode>, Box<AstNode>),
    SubtractExpression(Box<AstNode>, Box<AstNode>),
    MultiplyExpression(Box<AstNode>, Box<AstNode>),
    DivideExpression(Box<AstNode>, Box<AstNode>),
    UnionExpression(Box<AstNode>, Box<AstNode>),
    Comparator { op: String, left: Box<AstNode>, right: Box<AstNode> },
    Pipe(Box<AstNode>, Box<AstNode>),
    ChainedExpression(Vec<AstNode>),
    BracketExpression(Box<AstNode>, Box<AstNode>),
    Index(Box<AstNode>),
    Slice { start: Option<i64>, stop: Option<i64>, step: Option<i64> },
    Projection { left: Box<AstNode>, right: Box<AstNode>, debug: Option<String> },
    ValueProjection { left: Box<AstNode>, right: Box<AstNode> },
    FilterProjection { left: Box<AstNode>, right: Box<AstNode>, condition: Box<AstNode> },
    Flatten(Box<AstNode>),
    Function { name: String, args: Vec<AstNode> },
    ArrayExpression(Vec<AstNode>),
    ObjectExpression(Vec<KeyValuePair>),
    KeyValuePair { key: String, value: Box<AstNode> },
}

/// A key and the expression that gives its value, in an object expression.
#[derive(Debug, PartialEq)]
pub struct KeyValuePair {
    pub key: String,
    pub value: AstNode,
}

/// The plain content of a syntax tree node.
pub enum Ast {
    Identity,
    Identifier(Seq<char>),
    QuotedIdentifier(Seq<char>),
    Literal(Seq<char>),
    String(Seq<char>),
    Number(Seq<char>),
    Integer(int),
    Current,
    Global(Seq<char>),
    ExpressionReference(Box<Ast>),
    NotExpression(Box<Ast>),
    UnaryMinusExpression(Box<Ast>),
    ConcatenateExpression(Box<Ast>, Box<Ast>),
    OrExpression(Box<Ast>, Box<Ast>),
    AndExpression(Box<Ast>, Box<Ast>),
    AddExpression(Box<Ast>, Box<Ast>),
    SubtractExpression(Box<Ast>, Box<Ast>),
    MultiplyExpression(Box<Ast>, Box<Ast>),
    DivideExpression(Box<Ast>, Box<Ast>),
    UnionExpression(Box<Ast>, Box<Ast>),
    Comparator { op: Seq<char>, left: Box<Ast>, right: Box<Ast> },
    Pipe(Box<Ast>, Box<Ast>),
    ChainedExpression(Seq<Ast>),
    BracketExpression(Box<Ast>, Box<Ast>),
    Index(Box<Ast>),
    Slice { start: Option<int>, stop: Option<int>, step: Option<int> },
    Projection { left: Box<Ast>, right: Box<Ast>, debug: Option<Seq<char>> },
    ValueProjection { left: Box<Ast>, right: Box<Ast> },
    FilterProjection { left: Box<Ast>, right: Box<Ast>, condition: Box<Ast> },
    Flatten(Box<Ast>),
    Function { name: Seq<char>, args: Seq<Ast> },
    ArrayExpression(Seq<Ast>),
    ObjectExpression(Seq<(Seq<char>, Ast)>),
    KeyValuePair { key: Seq<char>, value: Box<Ast> },
}

/// The plain content of an optional integer.
pub open spec fn opt_int(o: Option<i64>) -> Option<int> {
    match o {
        Some(v) => Some(v as int),
        None => None,
    }
}

/// The plain content of an optional string.
pub open spec fn opt_text(o: Option<String>) -> Option<Seq<char>> {
    match o {
        Some(s) => Some(s@),
        None => None,
    }
}

/// The plain content of a node.
pub open spec fn ast_of(n: AstNode) -> Ast
    decreases n,
{
    match n {
        AstNode::Identity => Ast::Identity,
        AstNode::Identifier(s) => Ast::Identifier(s@),
        AstNode::QuotedIdentifier(s) => Ast::QuotedIdentifier(s@),
        AstNode::Literal(s) => Ast::Literal(s@),
        AstNode::String(s) => Ast::String(s@),
        AstNode::Number(s) => Ast::Number(s@),
        AstNode::Integer(v) => Ast::Integer(v as int),
        AstNode::Current => Ast::Current,
        AstNode::Global(s) => Ast::Global(s@),
        AstNode::ExpressionReference(a) => Ast::ExpressionReference(Box::new(ast_of(*a))),
        AstNode::NotExpression(a) => Ast::NotExpression(Box::new(ast_of(*a))),
        AstNode::UnaryMinusExpression(a) => Ast::UnaryMinusExpression(Box::new(ast_of(*a))),
        AstNode::ConcatenateExpression(a, b) => Ast::ConcatenateExpression(Box::new(ast_of(*a)), Box::new(ast_of(*b))),
        AstNode::OrExpression(a, b) => Ast::OrExpression(Box::new(ast_of(*a)), Box::new(ast_of(*b))),
        AstNode::AndExpression(a, b) => Ast::AndExpression(Box::new(ast_of(*a)), Box::new(ast_of(*b))),
        AstNode::AddExpression(a, b) => Ast::AddExpression(Box::new(ast_of(*a)), Box::new(ast_of(*b))),
        AstNode::SubtractExpression(a, b) => Ast::SubtractExpression(Box::new(ast_of(*a)), Box::new(ast_of(*b))),
        AstNode::MultiplyExpression(a, b) => Ast::MultiplyExpression(Box::new(ast_of(*a)), Box::new(ast_of(*b))),
        AstNode::DivideExpression(a, b) => Ast::DivideExpression(Box::new(ast_of(*a)), Box::new(ast_of(*b))),
        AstNode::UnionExpression(a, b) => Ast::UnionExpression(Box::new(ast_of(*a)), Box::new(ast_of(*b))),
        AstNode::Comparator { op, left, right } => Ast::Comparator {
            op: op@,
            left: Box::new(ast_of(*left)),
            right: Box::new(ast_of(*right)),
        },
        AstNode::Pipe(a, b) => Ast::Pipe(Box::new(ast_of(*a)), Box::new(ast_of(*b))),
        AstNode::ChainedExpression(cs) => Ast::ChainedExpression(asts_of(cs@)),
        AstNode::BracketExpression(a, b) => Ast::BracketExpression(Box::new(ast_of(*a)), Box::new(ast_of(*b))),
        AstNode::Index(a) => Ast::Index(Box::new(ast_of(*a))),
        AstNode::Slice { start, stop, step } => Ast::Slice { start: opt_int(start), stop: opt_int(stop), step: opt_int(step) },
        AstNode::Projection { left, right, debug } => Ast::Projection {
            left: Box::new(ast_of(*left)),
            right: Box::new(ast_of(*right)),
            debug: opt_text(debug),
        },
        AstNode::ValueProjection { left, right } => Ast::ValueProjection {
            left: Box::new(ast_of(*left)),
            right: Box::new(ast_of(*right)),
        },
        AstNode::FilterProjection { left, right, condition } => Ast::FilterProjection {
            left: Box::new(ast_of(*left)),
            right: Box::new(ast_of(*right)),
            condition: Box::new(ast_of(*condition)),
        },
        AstNode::Flatten(a) => Ast::Flatten(Box::new(ast_of(*a))),
        AstNode::Function { name, args } => Ast::Function { name: name@, args: asts_of(args@) },
        AstNode::ArrayExpression(items) => Ast::ArrayExpression(asts_of(items@)),
        AstNode::ObjectExpression(pairs) => Ast::ObjectExpression(pairs_of(pairs@)),
        AstNode::KeyValuePair { key, value } => Ast::KeyValuePair { key: key@, value: Box::new(ast_of(*value)) },
    }
}

/// The plain content of a list of nodes.
pub open spec fn asts_of(v: Seq<AstNode>) -> Seq<Ast>
    decreases v,
{
    if v.len() == 0 {
        seq![]
    } else {
        seq![ast_of(v[0])] + asts_of(v.drop_first())
    }
}

/// The plain content of a list of key-value pairs.
pub open spec fn pairs_of(v: Seq<KeyValuePair>) -> Seq<(Seq<char>, Ast)>
    decreases v,
{
    if v.len() == 0 {
        seq![]
    } else {
        seq![(v[0].key@, ast_of(v[0].value))] + pairs_of(v.drop_first())
    }
}


/// Adding a node to a list adds its content to the list's content.
pub proof fn lemma_asts_push(v: Seq<AstNode>, x: AstNode)
    ensures
        asts_of(v.push(x)) == asts_of(v).push(ast_of(x)),
    decreases v.len(),
{
    if v.len() == 0 {
        let w = v.push(x);
        assert(w.drop_first() =~= Seq::<AstNode>::empty());
        assert(asts_of(w.drop_first()) =~= Seq::<Ast>::empty());
        assert(w[0] == x);
        assert(asts_of(v) =~= Seq::<Ast>::empty());
        assert(asts_of(w) =~= asts_of(v).push(ast_of(x)));
    } else {
        assert(v.push(x).drop_first() =~= v.drop_first().push(x));
        lemma_asts_push(v.drop_first(), x);
        assert(asts_of(v.push(x)) =~= asts_of(v).push(ast_of(x)));
    }
}

/// Adding a pair to a list adds its content to the list's content.
pub proof fn lemma_pairs_push(v: Seq<KeyValuePair>, x: KeyValuePair)
    ensures
        pairs_of(v.push(x)) == pairs_of(v).push((x.key@, ast_of(x.value))),
    decreases v.len(),
{
    if v.len() == 0 {
        let w = v.push(x);
        assert(w.drop_first() =~= Seq::<KeyValuePair>::empty());
        assert(pairs_of(w.drop_first()) =~= Seq::<(Seq<char>, Ast)>::empty());
        assert(w[0] == x);
        assert(pairs_of(v) =~= Seq::<(Seq<char>, Ast)>::empty());
        assert(pairs_of(w) =~= pairs_of(v).push((x.key@, ast_of(x.value))));
    } else {
        assert(v.push(x).drop_first() =~= v.drop_first().push(x));
        lemma_pairs_push(v.drop_first(), x);
        assert(pairs_of(v.push(x)) =~= pairs_of(v).push((x.key@, ast_of(x.value))));
    }
}

impl Clone for AstNode {
    /// A copy of the node with the same content.
    fn clone(&self) -> (r: Self)
        ensures
            ast_of(r) == ast_of(*self),
        decreases self,
    {
        match self {
            AstNode::Identity => AstNode::Identity,
            AstNode::Current => AstNode::Current,
            AstNode::Identifier(s) => AstNode::Identifier(s.clone()),
            AstNode::QuotedIdentifier(s) => AstNode::QuotedIdentifier(s.clone()),
            AstNode::Literal(s) => AstNode::Literal(s.clone()),
            AstNode::String(s) => AstNode::String(s.clone()),
            AstNode::Number(s) => AstNode::Number(s.clone()),
            AstNode::Global(s) => AstNode::Global(s.clone()),
            AstNode::Integer(v) => AstNode::Integer(*v),
            AstNode::ExpressionReference(a) => AstNode::ExpressionReference(Box::new((**a).clone())),
            AstNode::NotExpression(a) => AstNode::NotExpression(Box::new((**a).clone())),
            AstNode::UnaryMinusExpression(a) => AstNode::UnaryMinusExpression(Box::new((**a).clone())),
            AstNode::Index(a) => AstNode::Index(Box::new((**a).clone())),
            AstNode::Flatten(a) => AstNode::Flatten(Box::new((**a).clone())),
            AstNode::ConcatenateExpression(a, b) => AstNode::ConcatenateExpression(Box::new((**a).clone()), Box::new((**b).clone())),
            AstNode::OrExpression(a, b) => AstNode::OrExpression(Box::new((**a).clone()), Box::new((**b).clone())),
            AstNode::AndExpression(a, b) => AstNode::AndExpression(Box::new((**a).clone()), Box::new((**b).clone())),
            AstNode::AddExpression(a, b) => AstNode::AddExpression(Box::new((**a).clone()), Box::new((**b).clone())),
            AstNode::SubtractExpression(a, b) => AstNode::SubtractExpression(Box::new((**a).clone()), Box::new((**b).clone())),
            AstNode::MultiplyExpression(a, b) => AstNode::MultiplyExpression(Box::new((**a).clone()), Box::new((**b).clone())),
            AstNode::DivideExpression(a, b) => AstNode::DivideExpression(Box::new((**a).clone()), Box::new((**b).clone())),
            AstNode::UnionExpression(a, b) => AstNode::UnionExpression(Box::new((**a).clone()), Box::new((**b).clone())),
            AstNode::Pipe(a, b) => AstNode::Pipe(Box::new((**a).clone()), Box::new((**b).clone())),
            AstNode::BracketExpression(a, b) => AstNode::BracketExpression(Box::new((**a).clone()), Box::new((**b).clone())),
            AstNode::Comparator { op, left, right } => AstNode::Comparator {
                op: op.clone(),
                left: Box::new((**left).clone()),
                right: Box::new((**right).clone()),
            },
            AstNode::ChainedExpression(cs) => AstNode::ChainedExpression(clone_nodes(cs)),
            AstNode::Slice { start, stop, step } => AstNode::Slice { start: *start, stop: *stop, step: *step },
            AstNode::Projection { left, right, debug } => AstNode::Projection {
                left: Box::new((**left).clone()),
                right: Box::new((**right).clone()),
                debug: match debug { Some(d) => Some(d.clone()), None => None },
            },
            AstNode::ValueProjection { left, right } => AstNode::ValueProjection {
                left: Box::new((**left).clone()),
                right: Box::new((**right).clone()),
            },
            AstNode::FilterProjection { left, right, condition } => AstNode::FilterProjection {
                left: Box::new((**left).clone()),
                right: Box::new((**right).clone()),
                condition: Box::new((**condition).clone()),
            },
            AstNode::Function { name, args } => AstNode::Function { name: name.clone(), args: clone_nodes(args) },
            AstNode::ArrayExpression(items) => AstNode::ArrayExpression(clone_nodes(items)),
            AstNode::ObjectExpression(pairs) => AstNode::ObjectExpression(clone_pairs(pairs)),
            AstNode::KeyValuePair { key, value } => AstNode::KeyValuePair { key: key.clone(), value: Box::new((**value).clone()) },
        }
    }
}

impl Clone for KeyValuePair {
    /// A copy of the pair with the same content.
    fn clone(&self) -> (r: Self)
        ensures
            r.key@ == self.key@,
            ast_of(r.value) == ast_of(self.value),
        decreases self,
    {
        KeyValuePair { key: self.key.clone(), value: self.value.clone() }
    }
}

/// Copies of the nodes `v`, with the same content.
fn clone_nodes(v: &Vec<AstNode>) -> (r: Vec<AstNode>)
    ensures
        asts_of(r@) == asts_of(v@),
    decreases v,
{
    let mut out: Vec<AstNode> = Vec::new();
    let n = v.len();
    let mut i: usize = 0;
    while i < n
        invariant
            n == v@.len(),
            i <= n,
            asts_of(out@) == asts_of(v@.subrange(0, i as int)),
        decreases n - i,
    {
        assert(decreases_to!(v => v@[i as int]));
        let c = v[i].clone();
        proof {
            lemma_asts_push(out@, c);
            lemma_asts_push(v@.subrange(0, i as int), v@[i as int]);
            assert(v@.subrange(0, i + 1) =~= v@.subrange(0, i as int).push(v@[i as int]));
        }
        out.push(c);
        i = i + 1;
    }
    assert(v@.subrange(0, n as int) =~= v@);
    out
}

/// Copies of the pairs `v`, with the same content.
fn clone_pairs(v: &Vec<KeyValuePair>) -> (r: Vec<KeyValuePair>)
    ensures
        pairs_of(r@) == pairs_of(v@),
    decreases v,
{
    let mut out: Vec<KeyValuePair> = Vec::new();
    let n = v.len();
    let mut i: usize = 0;
    while i < n
        invariant
            n == v@.len(),
            i <= n,
            pairs_of(out@) == pairs_of(v@.subrange(0, i as int)),
        decreases n - i,
    {
        assert(decreases_to!(v => v@[i as int]));
        let c = v[i].clone();
        proof {
            lemma_pairs_push(out@, c);
            lemma_pairs_push(v@.subrange(0, i as int), v@[i as int]);
            assert(v@.subrange(0, i + 1) =~= v@.subrange(0, i as int).push(v@[i as int]));
        }
        out.push(c);
        i = i + 1;
    }
    assert(v@.subrange(0, n as int) =~= v@);
    out
}

} // verus!
