use json_formula_rs::ast::{AstNode, KeyValuePair};
use json_formula_rs::errors::{JsonFormulaError, JsonFormulaErrorKind};
use json_formula_rs::parser::Parser;

fn parse(text: &str) -> Result<AstNode, JsonFormulaError> {
    let mut debug: Vec<String> = Vec::new();
    let mut parser = Parser::new(&[], &mut debug);
    parser.parse(text)
}

fn id(name: &str) -> AstNode {
    AstNode::Identifier(name.to_string())
}

fn bx(node: AstNode) -> Box<AstNode> {
    Box::new(node)
}

fn syntax_message(text: &str) -> String {
    let err = parse(text).unwrap_err();
    assert_eq!(err.kind, JsonFormulaErrorKind::SyntaxError);
    err.message
}

#[test]
fn parses_chained_fields() {
    assert_eq!(parse("foo.bar.baz").unwrap(), AstNode::ChainedExpression(vec![id("foo"), id("bar"), id("baz")]));
}

#[test]
fn and_binds_tighter_than_or() {
    assert_eq!(
        parse("a || b && c").unwrap(),
        AstNode::OrExpression(bx(id("a")), bx(AstNode::AndExpression(bx(id("b")), bx(id("c")))))
    );
}

#[test]
fn multiplication_binds_tighter_than_addition() {
    assert_eq!(
        parse("a + b * c").unwrap(),
        AstNode::AddExpression(bx(id("a")), bx(AstNode::MultiplyExpression(bx(id("b")), bx(id("c")))))
    );
    assert_eq!(
        parse("(a + b) * c").unwrap(),
        AstNode::MultiplyExpression(bx(AstNode::AddExpression(bx(id("a")), bx(id("b")))), bx(id("c")))
    );
}

#[test]
fn comparator_keeps_operator_text() {
    assert_eq!(
        parse("x > 10").unwrap(),
        AstNode::Comparator { op: ">".to_string(), left: bx(id("x")), right: bx(AstNode::Integer(10)) }
    );
}

#[test]
fn pipe_binds_loosest() {
    assert_eq!(
        parse("a | b || c").unwrap(),
        AstNode::Pipe(bx(id("a")), bx(AstNode::OrExpression(bx(id("b")), bx(id("c")))))
    );
}

#[test]
fn function_call_with_arguments() {
    assert_eq!(
        parse("sum(a, `1`)").unwrap(),
        AstNode::Function { name: "sum".to_string(), args: vec![id("a"), AstNode::Literal("1".to_string())] }
    );
    assert_eq!(parse("now()").unwrap(), AstNode::Function { name: "now".to_string(), args: vec![] });
}

#[test]
fn function_call_needs_plain_name() {
    assert_eq!(
        syntax_message("'f'(a)"),
        "Bad function syntax. Parenthesis must be preceded by an unquoted identifier"
    );
}

#[test]
fn wildcard_projection() {
    assert_eq!(
        parse("items[*].price").unwrap(),
        AstNode::Projection {
            left: bx(id("items")),
            right: bx(AstNode::ChainedExpression(vec![AstNode::Identity, id("price")])),
            debug: Some("Wildcard".to_string()),
        }
    );
}

#[test]
fn star_after_operand_is_multiplication() {
    assert_eq!(
        parse("[1, 2] * 3").unwrap(),
        AstNode::MultiplyExpression(
            bx(AstNode::ArrayExpression(vec![AstNode::Integer(1), AstNode::Integer(2)])),
            bx(AstNode::Integer(3))
        )
    );
}

#[test]
fn index_and_negative_index() {
    assert_eq!(
        parse("arr[1]").unwrap(),
        AstNode::BracketExpression(bx(id("arr")), bx(AstNode::Index(bx(AstNode::Integer(1)))))
    );
    assert_eq!(
        parse("arr[-1]").unwrap(),
        AstNode::BracketExpression(
            bx(id("arr")),
            bx(AstNode::Index(bx(AstNode::UnaryMinusExpression(bx(AstNode::Integer(1))))))
        )
    );
}

#[test]
fn slices_project_their_left_side() {
    assert_eq!(
        parse("a[1:-1:2]").unwrap(),
        AstNode::BracketExpression(
            bx(AstNode::Projection { left: bx(id("a")), right: bx(AstNode::Identity), debug: None }),
            bx(AstNode::Slice { start: Some(1), stop: Some(-1), step: Some(2) })
        )
    );
    assert_eq!(
        parse("[::-1]").unwrap(),
        AstNode::BracketExpression(
            bx(AstNode::Projection { left: bx(AstNode::Identity), right: bx(AstNode::Identity), debug: None }),
            bx(AstNode::Slice { start: None, stop: None, step: Some(-1) })
        )
    );
}

#[test]
fn slice_with_too_many_parts() {
    assert_eq!(syntax_message("a[1:2:3:4]"), "Slice expressions must have at most 3 parts");
}

#[test]
fn slice_parts_must_be_integers() {
    assert_eq!(syntax_message("a[b:2]"), "Slice expressions must be integers");
}

#[test]
fn filter_projection() {
    assert_eq!(
        parse("a[?b == `1`]").unwrap(),
        AstNode::FilterProjection {
            left: bx(id("a")),
            right: bx(AstNode::Identity),
            condition: bx(AstNode::Comparator {
                op: "==".to_string(),
                left: bx(id("b")),
                right: bx(AstNode::Literal("1".to_string())),
            }),
        }
    );
}

#[test]
fn flatten_projection() {
    assert_eq!(
        parse("a[]").unwrap(),
        AstNode::Projection {
            left: bx(AstNode::Flatten(bx(id("a")))),
            right: bx(AstNode::Identity),
            debug: None,
        }
    );
}

#[test]
fn object_expression_and_errors() {
    assert_eq!(
        parse("{a: b, 'c': `2`}").unwrap(),
        AstNode::ObjectExpression(vec![
            KeyValuePair { key: "a".to_string(), value: id("b") },
            KeyValuePair { key: "c".to_string(), value: AstNode::Literal("2".to_string()) },
        ])
    );
    assert_eq!(syntax_message("{}"), "Empty object expressions are not allowed");
    assert_eq!(syntax_message("{a: b,}"), "Trailing commas are not allowed in object expressions");
    assert_eq!(syntax_message("{1: b}"), "Object key must be an identifier or quoted identifier");
}

#[test]
fn list_trailing_comma_errors() {
    assert_eq!(syntax_message("[a, ]"), "Trailing commas are not allowed in array expressions");
    assert_eq!(syntax_message("x.[a, ]"), "Trailing commas are not allowed in list expressions");
}

#[test]
fn literal_after_dot_is_rejected() {
    assert_eq!(syntax_message("a.\"b\""), "Literal expressions are not allowed on the right side of a dot");
}

#[test]
fn projection_needs_dot_or_bracket() {
    assert_eq!(syntax_message("a[*]b"), "Projection expressions must be followed by a dot or bracket");
}

#[test]
fn leftover_token_is_rejected() {
    assert_eq!(syntax_message("a b"), "Unexpected token type: Identifier");
}

#[test]
fn empty_expression_is_rejected() {
    assert_eq!(syntax_message(""), "Unexpected token type: Eof, value: Some(String(\"\"))");
}

#[test]
fn unexpected_token_names_its_value() {
    assert_eq!(syntax_message(")"), "Unexpected token type: Rparen, value: Some(String(\")\"))");
}

#[test]
fn missing_closing_bracket() {
    assert_eq!(syntax_message("a[1"), "Expected token Rbracket, got Eof");
}

#[test]
fn not_and_unary_minus() {
    assert_eq!(parse("!a").unwrap(), AstNode::NotExpression(bx(id("a"))));
    assert_eq!(parse("-1").unwrap(), AstNode::UnaryMinusExpression(bx(AstNode::Integer(1))));
}

#[test]
fn globals_current_and_exprefs() {
    assert_eq!(parse("$x").unwrap(), AstNode::Global("$x".to_string()));
    assert_eq!(parse("@").unwrap(), AstNode::Current);
    assert_eq!(
        parse("map(&a, b)").unwrap(),
        AstNode::Function { name: "map".to_string(), args: vec![AstNode::ExpressionReference(bx(id("a"))), id("b")] }
    );
}

#[test]
fn number_literal_keeps_text() {
    assert_eq!(parse("1.25").unwrap(), AstNode::Number("1.25".to_string()));
}

#[test]
fn parser_records_lexer_notes() {
    let mut debug: Vec<String> = Vec::new();
    {
        let mut parser = Parser::new(&[], &mut debug);
        let ast = parser.parse("'name'").unwrap();
        assert_eq!(ast, AstNode::QuotedIdentifier("name".to_string()));
    }
    assert_eq!(debug.len(), 2);
    assert_eq!(debug[0], "Suspicious quotes: 'name'");
}

#[test]
fn lexer_errors_pass_through() {
    assert_eq!(syntax_message("a # b"), "Unknown character:#");
}

#[test]
fn clone_keeps_the_tree() {
    let ast = parse("a[?b > `1`].{x: c, y: [d, e]}").unwrap();
    assert_eq!(ast.clone(), ast);
}

#[test]
fn value_projection_with_star_after_dot() {
    assert_eq!(
        parse("a.*").unwrap(),
        AstNode::ValueProjection { left: bx(id("a")), right: bx(AstNode::Identity) }
    );
}
