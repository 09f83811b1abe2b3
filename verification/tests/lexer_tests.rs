use json_formula_rs::errors::JsonFormulaErrorKind;
use json_formula_rs::lexer::{lex_crashes, Lexer, Token, TokenKind, TokenValue};

fn lex_all(text: &str, globals: &[String]) -> (Result<Vec<Token>, json_formula_rs::errors::JsonFormulaError>, Vec<String>) {
    let mut debug: Vec<String> = Vec::new();
    let res = {
        let mut lexer = Lexer::new(globals, &mut debug);
        lexer.tokenize(text)
    };
    (res, debug)
}

fn kinds(tokens: &[Token]) -> Vec<TokenKind> {
    tokens.iter().map(|t| t.kind).collect()
}

#[test]
fn lexes_identifiers_and_dots() {
    let (res, debug) = lex_all("foo.bar", &[]);
    let tokens = res.unwrap();
    assert_eq!(kinds(&tokens), vec![TokenKind::Identifier, TokenKind::Dot, TokenKind::Identifier]);
    assert_eq!(tokens[0].value, Some(TokenValue::String("foo".to_string())));
    assert_eq!(tokens[1].value, Some(TokenValue::String(".".to_string())));
    assert_eq!(tokens[2].start, 4);
    assert!(debug.is_empty());
}

#[test]
fn lexes_integers_and_numbers() {
    let (res, _) = lex_all("12 + 1.5e3", &[]);
    let tokens = res.unwrap();
    assert_eq!(kinds(&tokens), vec![TokenKind::Int, TokenKind::Add, TokenKind::Number]);
    assert_eq!(tokens[0].value, Some(TokenValue::Integer(12)));
    assert_eq!(tokens[2].value, Some(TokenValue::Number("1.5e3".to_string())));
    assert_eq!(tokens[2].start, 5);
}

#[test]
fn leading_dot_number() {
    let (res, _) = lex_all(".5", &[]);
    let tokens = res.unwrap();
    assert_eq!(kinds(&tokens), vec![TokenKind::Number]);
    assert_eq!(tokens[0].value, Some(TokenValue::Number(".5".to_string())));
}

#[test]
fn integer_too_large_is_rejected() {
    let (res, _) = lex_all("99999999999999999999", &[]);
    let err = res.unwrap_err();
    assert_eq!(err.kind, JsonFormulaErrorKind::SyntaxError);
    assert_eq!(err.message, "Invalid number: 99999999999999999999");
}

#[test]
fn minus_is_unary_or_subtract_by_context() {
    let (res, _) = lex_all("-a - b", &[]);
    let tokens = res.unwrap();
    assert_eq!(
        kinds(&tokens),
        vec![TokenKind::UnaryMinus, TokenKind::Identifier, TokenKind::Subtract, TokenKind::Identifier]
    );
}

#[test]
fn ampersand_variants() {
    let (res, _) = lex_all("a && b & c", &[]);
    assert_eq!(
        kinds(&res.unwrap()),
        vec![TokenKind::Identifier, TokenKind::And, TokenKind::Identifier, TokenKind::Concatenate, TokenKind::Identifier]
    );
    let (res, _) = lex_all("sort_by(a, &b)", &[]);
    assert_eq!(
        kinds(&res.unwrap()),
        vec![
            TokenKind::Identifier,
            TokenKind::Lparen,
            TokenKind::Identifier,
            TokenKind::Comma,
            TokenKind::Expref,
            TokenKind::Identifier,
            TokenKind::Rparen
        ]
    );
}

#[test]
fn comparators_and_not() {
    let (res, _) = lex_all("a<=b != c <> d = e !f > g", &[]);
    let tokens = res.unwrap();
    let ops: Vec<Option<TokenValue>> = tokens
        .iter()
        .filter(|t| t.kind == TokenKind::Comparator)
        .map(|t| t.value.clone())
        .collect();
    assert_eq!(
        ops,
        vec![
            Some(TokenValue::Comparator("<=".to_string())),
            Some(TokenValue::Comparator("!=".to_string())),
            Some(TokenValue::Comparator("!=".to_string())),
            Some(TokenValue::Comparator("==".to_string())),
            Some(TokenValue::Comparator(">".to_string())),
        ]
    );
    assert!(tokens.iter().any(|t| t.kind == TokenKind::Not));
}

#[test]
fn brackets_filter_and_flatten() {
    let (res, _) = lex_all("a[?b][]c[0]", &[]);
    assert_eq!(
        kinds(&res.unwrap()),
        vec![
            TokenKind::Identifier,
            TokenKind::Filter,
            TokenKind::Identifier,
            TokenKind::Rbracket,
            TokenKind::Flatten,
            TokenKind::Identifier,
            TokenKind::Lbracket,
            TokenKind::Int,
            TokenKind::Rbracket
        ]
    );
}

#[test]
fn string_literal_is_decoded() {
    let (res, _) = lex_all("\"a\\nb\"", &[]);
    let tokens = res.unwrap();
    assert_eq!(kinds(&tokens), vec![TokenKind::String]);
    assert_eq!(tokens[0].value, Some(TokenValue::String("a\nb".to_string())));
}

#[test]
fn unterminated_string_literal() {
    let (res, _) = lex_all("\"abc", &[]);
    let err = res.unwrap_err();
    assert_eq!(err.kind, JsonFormulaErrorKind::SyntaxError);
    assert_eq!(err.message, "Unterminated string literal at 0, \"abc");
}

#[test]
fn json_literal_keeps_trimmed_text() {
    let (res, _) = lex_all("`  [1, 2]`", &[]);
    let tokens = res.unwrap();
    assert_eq!(kinds(&tokens), vec![TokenKind::Json]);
    assert_eq!(tokens[0].value, Some(TokenValue::Json("[1, 2]".to_string())));
}

#[test]
fn invalid_json_literal() {
    let (res, _) = lex_all("`{bad`", &[]);
    let err = res.unwrap_err();
    assert_eq!(err.kind, JsonFormulaErrorKind::SyntaxError);
    assert_eq!(err.message, "Invalid JSON literal: {bad");
}

#[test]
fn unterminated_json_literal() {
    let (res, _) = lex_all("`abc", &[]);
    let err = res.unwrap_err();
    assert_eq!(err.message, "Unterminated JSON literal at 1: `abc`");
}

#[test]
fn quoted_identifier_with_plain_name_notes_suspicion() {
    let (res, debug) = lex_all("'foo'", &[]);
    let tokens = res.unwrap();
    assert_eq!(kinds(&tokens), vec![TokenKind::QuotedIdentifier]);
    assert_eq!(tokens[0].value, Some(TokenValue::String("foo".to_string())));
    assert_eq!(
        debug,
        vec!["Suspicious quotes: 'foo'".to_string(), "Did you intend a literal? \"foo\"?".to_string()]
    );
}

#[test]
fn quoted_identifier_with_space_is_not_suspicious() {
    let (res, debug) = lex_all("'foo bar'", &[]);
    let tokens = res.unwrap();
    assert_eq!(tokens[0].value, Some(TokenValue::String("foo bar".to_string())));
    assert!(debug.is_empty());
}

#[test]
fn globals_follow_the_allowed_list() {
    let (res, _) = lex_all("$form", &[]);
    let tokens = res.unwrap();
    assert_eq!(kinds(&tokens), vec![TokenKind::Global]);
    assert_eq!(tokens[0].name, Some("$form".to_string()));
    assert_eq!(tokens[0].value, None);

    let allowed = vec!["$days".to_string()];
    let (res, _) = lex_all("$form", &allowed);
    let tokens = res.unwrap();
    assert_eq!(kinds(&tokens), vec![TokenKind::Identifier]);
    let (res, _) = lex_all("$days", &allowed);
    assert_eq!(kinds(&res.unwrap()), vec![TokenKind::Global]);
}

#[test]
fn global_after_dot_is_an_identifier() {
    let (res, _) = lex_all("a.$b", &[]);
    assert_eq!(kinds(&res.unwrap()), vec![TokenKind::Identifier, TokenKind::Dot, TokenKind::Identifier]);
}

#[test]
fn unknown_character_is_rejected() {
    let (res, _) = lex_all("a # b", &[]);
    let err = res.unwrap_err();
    assert_eq!(err.kind, JsonFormulaErrorKind::SyntaxError);
    assert_eq!(err.message, "Unknown character:#");
}

#[test]
fn token_starts_increase_within_input() {
    let text = "foo[?bar > `1`] | baz && 'q' ~ \"s\"";
    let (res, _) = lex_all(text, &[]);
    let tokens = res.unwrap();
    for w in tokens.windows(2) {
        assert!(w[0].start < w[1].start);
    }
    assert!(tokens.iter().all(|t| t.start < text.len()));
    assert!(tokens.iter().all(|t| t.kind != TokenKind::Eof));
}

#[test]
fn empty_input_gives_no_tokens() {
    let (res, debug) = lex_all("   ", &[]);
    assert!(res.unwrap().is_empty());
    assert!(debug.is_empty());
}

#[test]
fn cut_off_quoted_identifiers_are_detected() {
    assert!(lex_crashes("'abc", &[]));
    assert!(lex_crashes("a == '", &[]));
    assert!(!lex_crashes("'abc'", &[]));
    assert!(!lex_crashes("\"abc", &[]));
    assert!(!lex_crashes("", &[]));
}
