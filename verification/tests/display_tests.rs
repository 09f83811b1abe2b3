use json_formula_rs::ast::{AstNode, KeyValuePair};
use json_formula_rs::errors::JsonFormulaError;

fn ident(s: &str) -> Box<AstNode> {
    Box::new(AstNode::Identifier(s.to_string()))
}

#[test]
fn test_to_expr_string_identifier() {
    assert_eq!(AstNode::Identifier("foo".to_string()).to_expr_string(), "foo");
}

#[test]
fn test_to_expr_string_and() {
    let node = AstNode::AndExpression(ident("A"), ident("B"));
    assert_eq!(node.to_expr_string(), "A && B");
}

#[test]
fn test_to_expr_string_nested_binary() {
    let add = AstNode::AddExpression(ident("A"), ident("B"));
    let mul = AstNode::MultiplyExpression(Box::new(add), ident("C"));
    assert_eq!(mul.to_expr_string(), "(A + B) * C");
}

#[test]
fn test_to_expr_string_comparator() {
    let node = AstNode::Comparator {
        op: ">".to_string(),
        left: ident("x"),
        right: Box::new(AstNode::Number("10".to_string())),
    };
    assert_eq!(node.to_expr_string(), "x > 10");
}

#[test]
fn test_to_expr_string_function() {
    let node = AstNode::Function {
        name: "sum".to_string(),
        args: vec![
            AstNode::Identifier("a".to_string()),
            AstNode::Identifier("b".to_string()),
        ],
    };
    assert_eq!(node.to_expr_string(), "sum(a, b)");
}

#[test]
fn expr_text_of_slices() {
    let full = AstNode::Slice { start: None, stop: None, step: None };
    assert_eq!(full.to_expr_string(), ":");
    let stepped = AstNode::Slice { start: Some(-3), stop: None, step: Some(2) };
    assert_eq!(stepped.to_expr_string(), "-3::2");
    let bounded = AstNode::Slice { start: Some(1), stop: Some(10), step: None };
    assert_eq!(bounded.to_expr_string(), "1:10");
}

#[test]
fn expr_text_of_projections() {
    let plain = AstNode::Projection { left: ident("people"), right: Box::new(AstNode::Identity), debug: None };
    assert_eq!(plain.to_expr_string(), "people[*]");
    let named = AstNode::Projection { left: ident("people"), right: ident("age"), debug: None };
    assert_eq!(named.to_expr_string(), "people[*].age");
    let values = AstNode::ValueProjection { left: ident("obj"), right: Box::new(AstNode::Identity) };
    assert_eq!(values.to_expr_string(), "obj.*");
    let filter = AstNode::FilterProjection {
        left: ident("items"),
        right: ident("name"),
        condition: Box::new(AstNode::Comparator {
            op: "==".to_string(),
            left: ident("a"),
            right: Box::new(AstNode::Integer(1)),
        }),
    };
    assert_eq!(filter.to_expr_string(), "items[?a == 1].name");
    let flat = AstNode::Flatten(ident("x"));
    assert_eq!(flat.to_expr_string(), "x[]");
}

#[test]
fn expr_text_of_operators_and_values() {
    let not = AstNode::NotExpression(Box::new(AstNode::OrExpression(ident("a"), ident("b"))));
    assert_eq!(not.to_expr_string(), "!(a || b)");
    let minus = AstNode::UnaryMinusExpression(ident("n"));
    assert_eq!(minus.to_expr_string(), "-n");
    let union = AstNode::UnionExpression(
        Box::new(AstNode::AddExpression(ident("a"), ident("b"))),
        Box::new(AstNode::Integer(-7)),
    );
    assert_eq!(union.to_expr_string(), "a + b, -7");
    let concat = AstNode::ConcatenateExpression(
        Box::new(AstNode::String("x".to_string())),
        Box::new(AstNode::Global("y".to_string())),
    );
    assert_eq!(concat.to_expr_string(), "\"x\" & $y");
    let pipe = AstNode::Pipe(Box::new(AstNode::Current), Box::new(AstNode::Literal("[1,2]".to_string())));
    assert_eq!(pipe.to_expr_string(), "@ | [1,2]");
    let chain = AstNode::ChainedExpression(vec![
        AstNode::Identifier("a".to_string()),
        AstNode::QuotedIdentifier("b c".to_string()),
    ]);
    assert_eq!(chain.to_expr_string(), "a.b c");
    let bracket = AstNode::BracketExpression(ident("a"), Box::new(AstNode::Index(Box::new(AstNode::Integer(0)))));
    assert_eq!(bracket.to_expr_string(), "a[0]");
    let reference = AstNode::ExpressionReference(Box::new(AstNode::DivideExpression(ident("a"), ident("b"))));
    assert_eq!(reference.to_expr_string(), "&a / b");
}

#[test]
fn expr_text_of_collections() {
    let empty = AstNode::ArrayExpression(vec![]);
    assert_eq!(empty.to_expr_string(), "[]");
    let array = AstNode::ArrayExpression(vec![AstNode::Integer(1), AstNode::Number("2.5".to_string())]);
    assert_eq!(array.to_expr_string(), "[1, 2.5]");
    let object = AstNode::ObjectExpression(vec![
        KeyValuePair { key: "a".to_string(), value: AstNode::Integer(1) },
        KeyValuePair { key: "b".to_string(), value: AstNode::Identifier("c".to_string()) },
    ]);
    assert_eq!(object.to_expr_string(), "{a: 1, b: c}");
    let pair = AstNode::KeyValuePair { key: "k".to_string(), value: ident("v") };
    assert_eq!(pair.to_expr_string(), "k: v");
    let call = AstNode::Function { name: "now".to_string(), args: vec![] };
    assert_eq!(call.to_expr_string(), "now()");
}

#[test]
fn error_renders_kind_colon_message() {
    let e = JsonFormulaError::syntax("Unexpected token".to_string());
    assert_eq!(e.to_string(), "SyntaxError: Unexpected token");
    let t = JsonFormulaError::ty("bad type".to_string());
    assert_eq!(t.to_string(), "TypeError: bad type");
    let f = JsonFormulaError::function("no such function".to_string());
    assert_eq!(f.to_string(), "FunctionError: no such function");
    let v = JsonFormulaError::evaluation(String::new());
    assert_eq!(v.to_string(), "EvaluationError: ");
}
