# json_formula_rs

A verified core for the [json-formula](https://opensource.adobe.com/json-formula/)
expression language, written in Verus.

`src/` is the verified library:

- `lexer_spec.rs` and `lexer.rs`: tokenizing. `lex` states, byte by byte, what the
  tokenizer does; `Lexer::tokenize` is proved to give exactly that, including the notes it
  records about suspicious quoting.
- `parser_spec.rs` and `parser.rs`: top-down operator-precedence parsing. `parse_source`
  states the syntax tree (or the syntax error) of an expression; `Parser::parse` is proved
  to return it.
- `ast.rs`: the syntax tree and its plain model; `display.rs`: the tree written back as
  readable expression text (`AstNode::to_expr_string`).
- `dates.rs`: reading the ISO 8601 style date texts of the date functions into a local
  date, an instant with a time zone, or a refusal.
- `interpreter.rs`, `types.rs`, `runtime.rs`, `utils.rs`, `functions.rs`: the parts of
  evaluation that work on plain values: slice bounds and positions, string ordering, type
  names and argument conversion rules, arity checks, the notes for missing fields, and the
  text, wildcard, case and calendar computations behind the built-in functions.
- `foreign.rs`: the calls into serde_json, regex, chrono and the Unicode case mappings of
  std, each with the contract the library relies on.

`app/` is the evaluator around the library: values with `f64` numbers, the built-in
functions, and the engine (`JsonFormula`) that compiles with the verified parser.

`tests/` exercises the library on concrete inputs.
