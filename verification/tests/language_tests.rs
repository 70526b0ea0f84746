use std::rc::Rc;
use tammr::eval::Evaluator;
use tammr::lexer::LexerError;
use tammr::object::Object;
use tammr::{KeywordType, Lexer, Parser, TokenType};

fn lex(input: &str) -> Vec<tammr::Token> {
    Lexer::new(input.to_string()).gen_tokens().expect("Could not tokenize")
}

fn eval_src(input: &str) -> Option<Object> {
    let mut parser = Parser::new(lex(input));
    let program = parser.parse_program()?;
    let mut evaluator = Evaluator::new();
    evaluator.eval(&program)
}

fn check(input: &str, expected: Object) {
    match eval_src(input) {
        Some(result) => assert_eq!(result, expected),
        None => panic!("No result for {}", input),
    }
}

fn first_display(input: &str) -> String {
    let mut parser = Parser::new(lex(input));
    let program = parser.parse_program().expect("no program");
    match &program[0] {
        tammr::ast::Statement::Expression { value, .. } => value.to_display_string(),
        other => panic!("Expected statement to be expression, got {:?}", other),
    }
}

/// The canonical display form is a pretty-printer fixpoint: rendering,
/// re-lexing, re-parsing and rendering again reproduces it.
fn check_display_fixpoint(input: &str) {
    let once = first_display(input);
    let mut with_semi = once.clone();
    with_semi.push(';');
    let twice = first_display(&with_semi);
    assert_eq!(once, twice);
}

#[test]
fn lexing_let_binding_token_sequence() {
    let tokens = lex("let five = 5;");
    let expected = vec![
        (TokenType::Keyword(KeywordType::Let), "let"),
        (TokenType::Ident, "five"),
        (TokenType::Assign, "="),
        (TokenType::Number, "5"),
        (TokenType::Semicolon, ";"),
        (TokenType::Eof, ""),
    ];
    assert_eq!(tokens.len(), expected.len());
    for (i, (tt, lit)) in expected.iter().enumerate() {
        assert_eq!(tokens[i].ttype, *tt);
        assert_eq!(tokens[i].literal, *lit);
    }
}

#[test]
fn quote_symmetry_single_quotes() {
    let tokens = lex(r#"'Hello, "World"!'"#);
    assert_eq!(tokens.len(), 2);
    assert_eq!(tokens[0].ttype, TokenType::String);
    assert_eq!(tokens[0].literal, "Hello, \"World\"!");
}

#[test]
fn fn_and_function_are_the_same_keyword() {
    let a = lex("fn");
    let b = lex("function");
    assert_eq!(a[0].ttype, TokenType::Keyword(KeywordType::Fn));
    assert_eq!(b[0].ttype, TokenType::Keyword(KeywordType::Fn));
}

#[test]
fn every_fixed_symbol_lexes() {
    let tokens = lex("; + - * / . = == ! != < > ( ) { } [ ] , :");
    let expected = vec![
        (TokenType::Semicolon, ";"),
        (TokenType::Add, "+"),
        (TokenType::Sub, "-"),
        (TokenType::Mul, "*"),
        (TokenType::Div, "/"),
        (TokenType::Period, "."),
        (TokenType::Assign, "="),
        (TokenType::Eq, "=="),
        (TokenType::Bang, "!"),
        (TokenType::NotEq, "!="),
        (TokenType::Lt, "<"),
        (TokenType::Gt, ">"),
        (TokenType::LParen, "("),
        (TokenType::RParen, ")"),
        (TokenType::LBrace, "{"),
        (TokenType::RBrace, "}"),
        (TokenType::LBracket, "["),
        (TokenType::RBracket, "]"),
        (TokenType::Comma, ","),
        (TokenType::Colon, ":"),
        (TokenType::Eof, ""),
    ];
    assert_eq!(tokens.len(), expected.len());
    for (i, (tt, lit)) in expected.iter().enumerate() {
        assert_eq!(tokens[i].ttype, *tt);
        assert_eq!(tokens[i].literal, *lit);
    }
}

#[test]
fn identifiers_may_contain_underscores() {
    let tokens = lex("snake_case_name");
    assert_eq!(tokens[0].ttype, TokenType::Ident);
    assert_eq!(tokens[0].literal, "snake_case_name");
}

#[test]
fn identifiers_may_start_with_an_underscore() {
    let tokens = lex("_private");
    assert_eq!(tokens[0].ttype, TokenType::Ident);
    assert_eq!(tokens[0].literal, "_private");
    check("let _x = 7; _x;", Object::Integer(7));
}

#[test]
fn huge_integer_literals_are_malformed_statements() {
    // the digit run does not fit a 64-bit signed integer, so the
    // statement is dropped and the program produces nothing
    assert_eq!(eval_src("99999999999999999999;"), None);
    check("9223372036854775807;", Object::Integer(i64::MAX));
}

#[test]
fn string_escapes_are_decoded() {
    let tokens = lex(r#""a\nb\tc\\d\"e""#);
    assert_eq!(tokens[0].literal, "a\nb\tc\\d\"e");
}

#[test]
fn unknown_escape_is_an_error() {
    let r = Lexer::new(String::from(r#""a\qb""#)).gen_tokens();
    assert!(matches!(r, Err(LexerError::UnexpectedCharacter('q', _))));
}

#[test]
fn unterminated_string_is_an_error() {
    let r = Lexer::new(String::from("\"abc")).gen_tokens();
    assert!(matches!(r, Err(LexerError::UnterminatedString(_))));
}

#[test]
fn unexpected_character_is_an_error() {
    let r = Lexer::new(String::from("let @ = 1;")).gen_tokens();
    assert!(matches!(r, Err(LexerError::UnexpectedCharacter('@', _))));
}

#[test]
fn unterminated_block_comment_is_an_error() {
    let r = Lexer::new(String::from("1 /* open")).gen_tokens();
    assert!(matches!(r, Err(LexerError::UnterminatedString(_))));
}

#[test]
fn comments_are_skipped() {
    check("1 /* noise */ + 2", Object::Integer(3));
    check("// just a comment\n5", Object::Integer(5));
    check("5 // trailing\n", Object::Integer(5));
}

#[test]
fn display_fixpoint_per_expression_form() {
    check_display_fixpoint("foobar;");
    check_display_fixpoint("5;");
    check_display_fixpoint("true;");
    check_display_fixpoint("\"hi\";");
    check_display_fixpoint("-5;");
    check_display_fixpoint("!ok;");
    check_display_fixpoint("5 + 5 * 2;");
    check_display_fixpoint("(5 + 5) * 2;");
    check_display_fixpoint("[1, 2 * 2, 3 + 3];");
    check_display_fixpoint("[];");
    check_display_fixpoint("{\"a\": 1, \"b\": 2};");
    check_display_fixpoint("{};");
    check_display_fixpoint("myArray[1 + 1];");
    check_display_fixpoint("add(1, 2 * 3, 4 + 5);");
    check_display_fixpoint("person.name;");
}

#[test]
fn precedence_display_forms() {
    assert_eq!(first_display("5 + 5 * 2;"), "(5 + (5 * 2))");
    assert_eq!(first_display("(5 + 5) * 2;"), "((5 + 5) * 2)");
    assert_eq!(first_display("a + b / c;"), "(a + (b / c))");
    assert_eq!(first_display("1 < 2 == true;"), "((1 < 2) == true)");
    assert_eq!(first_display("a * [1, 2][0];"), "(a * ([1, 2][0]))");
}

#[test]
fn evaluation_is_deterministic_across_fresh_environments() {
    let src = "let add = fn(x, y) { x + y; }; let a = [add(1, 2), \"s\" + \"t\"]; a;";
    let mut parser = Parser::new(lex(src));
    let program = parser.parse_program().expect("no program");
    let mut e1 = Evaluator::new();
    let mut e2 = Evaluator::new();
    let r1 = e1.eval(&program);
    let r2 = e2.eval(&program);
    assert_eq!(r1, r2);
    assert_eq!(e1.output(), e2.output());
    // and re-running on a fresh environment once more changes nothing
    let mut e3 = Evaluator::new();
    assert_eq!(e3.eval(&program), r1);
}

#[test]
fn closures_share_their_defining_scope() {
    let src = "
        let counter = fn() { let n = 0; fn() { n = n + 1; n; } };
        let c = counter();
        c(); c(); c();
    ";
    check(src, Object::Integer(3));
}

#[test]
fn let_shadows_and_reassignment_mutates_outer() {
    check("let x = 1; let f = fn() { let x = 2; x; }; f() + x;", Object::Integer(3));
    check("let x = 1; let f = fn() { x = 2; x; }; f() + x;", Object::Integer(4));
}

#[test]
fn reassignment_needs_an_existing_binding() {
    check("y = 5;", Object::Error("Identifier not found: y".to_string()));
    check("let x = 1; x = 2; x;", Object::Integer(2));
}

#[test]
fn division_truncates_and_zero_is_an_error() {
    check("7 / 2", Object::Integer(3));
    check("-7 / 2", Object::Integer(-3));
    check("1 / 0", Object::Error("Division by zero".to_string()));
}

#[test]
fn negative_and_out_of_range_indexing_yield_null_not_errors() {
    check("[1, 2, 3][-2]", Object::Integer(2));
    check("[1, 2, 3][-3]", Object::Integer(1));
    check("[1, 2, 3][-4]", Object::Null);
    check("[1, 2, 3][99]", Object::Null);
    check("\"hello\"[1]", Object::String("e".to_string()));
    check("\"hello\"[-1]", Object::String("o".to_string()));
    check("\"hello\"[9]", Object::Null);
}

#[test]
fn indexing_type_errors_are_fatal() {
    check("5[0]", Object::Error("Use index expression on arrays or strings".to_string()));
    check("[1][\"a\"]", Object::Error("Use index expression on arrays or strings".to_string()));
}

#[test]
fn builtin_first_behaviour() {
    check("first([7, 8])", Object::Integer(7));
    check("first([])", Object::Null);
    check("first(\"abc\")", Object::String("a".to_string()));
    check("first(\"\")", Object::Null);
    check(
        "first(1)",
        Object::Error("Argument to `first` must be ARRAY, got 1".to_string()),
    );
}

#[test]
fn builtin_push_does_not_mutate() {
    check("let a = [1]; let b = push(a, 2); len(a) + len(b);", Object::Integer(3));
    check(
        "push([1], 2)",
        Object::Array(Rc::new(vec![Object::Integer(1), Object::Integer(2)])),
    );
}

#[test]
fn builtin_pop_drops_the_last_element() {
    check(
        "pop([1, 2, 3])",
        Object::Array(Rc::new(vec![Object::Integer(1), Object::Integer(2)])),
    );
    check("pop([])", Object::Array(Rc::new(vec![])));
    check("let a = [1, 2]; pop(a); len(a);", Object::Integer(2));
}

#[test]
fn println_collects_output_lines() {
    let mut parser = Parser::new(lex("println(1, \"a\", true); print(2);"));
    let program = parser.parse_program().expect("no program");
    let mut evaluator = Evaluator::new();
    evaluator.eval(&program);
    assert_eq!(evaluator.output(), &vec!["1 a true ".to_string(), "2 ".to_string()]);
}

#[test]
fn fprintln_formats_placeholders() {
    let mut parser = Parser::new(lex("fprintln(\"x={} y={}\", 1, \"two\");"));
    let program = parser.parse_program().expect("no program");
    let mut evaluator = Evaluator::new();
    evaluator.eval(&program);
    assert_eq!(evaluator.output(), &vec!["x=1 y=two".to_string()]);
}

#[test]
fn fprintln_misuse_is_an_error() {
    check(
        "fprintln(\"{}\")",
        Object::Error("Not enough arguments provided for format string".to_string()),
    );
    check(
        "fprintln(\"x\", 1)",
        Object::Error("Too many arguments provided for format string".to_string()),
    );
    check(
        "fprintln(\"}\")",
        Object::Error("Invalid format string: unmatched '}'".to_string()),
    );
    check(
        "fprintln(1)",
        Object::Error("First argument to fprintln must be a string".to_string()),
    );
}

#[test]
fn string_dot_properties() {
    check("\"abc\".length", Object::Integer(3));
    check("\"abc\".is_alpha", Object::Boolean(true));
    check("\"a1\".is_alpha", Object::Boolean(false));
    check("\"123\".is_numeric", Object::Boolean(true));
    check("\"a1b2\".is_alphanumeric", Object::Boolean(true));
    check("\"ABC\".is_uppercase", Object::Boolean(true));
    check("\"abc\".is_lowercase", Object::Boolean(true));
    check("\"Abc\".is_capitalized", Object::Boolean(true));
    check("\"abc\".is_capitalized", Object::Boolean(false));
    check("\"\".is_capitalized", Object::Boolean(false));
    check("\"\".is_empty", Object::Boolean(true));
    check("\" \t\".is_whitespace", Object::Boolean(true));
    check("\"!?\".is_punctuation", Object::Boolean(true));
    check("\"abc\".is_ascii", Object::Boolean(true));
    check(
        "\"hi\".bytes",
        Object::Array(Rc::new(vec![Object::Integer(104), Object::Integer(105)])),
    );
    check(
        "\"hi\".chars",
        Object::Array(Rc::new(vec![
            Object::String("h".to_string()),
            Object::String("i".to_string()),
        ])),
    );
    check("\"x\".no_such", Object::Error("No property named no_such".to_string()));
}

#[test]
fn dot_notation_type_errors() {
    check("5 .foo", Object::Error("Use dot notation properly".to_string()));
}

#[test]
fn hash_keys_must_be_strings() {
    check("{1: 2}", Object::Error("Hash keys must be strings".to_string()));
}

#[test]
fn condition_must_be_boolean() {
    check("if (1) { 2 }", Object::Error("Use if conditionals on booleans".to_string()));
}

#[test]
fn calling_a_non_function_is_an_error() {
    check("let x = 5; x(1);", Object::Error("Not a function: 5".to_string()));
}

#[test]
fn call_arity_must_match() {
    check(
        "let f = fn(x) { x; }; f(1, 2);",
        Object::Error("Wrong number of arguments. Expected 1, got 2".to_string()),
    );
}

#[test]
fn prefix_operator_type_errors() {
    check("!5", Object::Error("Use ! prefix operator on booleans!".to_string()));
    check("-true", Object::Error("Use - prefix operator on integers or floats".to_string()));
}

#[test]
fn infix_operator_type_errors() {
    check("1 + true", Object::Error("Use infix operators on integers".to_string()));
    check("\"a\" - \"b\"", Object::Error("Invalid operator: -".to_string()));
    check("true + false", Object::Error("Invalid operator: +".to_string()));
}

#[test]
fn string_equality_operators() {
    check("\"a\" == \"a\"", Object::Boolean(true));
    check("\"a\" != \"b\"", Object::Boolean(true));
    check("\"a\" == \"b\"", Object::Boolean(false));
}

#[test]
fn unknown_identifier_is_an_error() {
    check(
        "nosuchthing",
        Object::Error("Identifier not found (eval_identifier): nosuchthing".to_string()),
    );
}

#[test]
fn top_level_errors_are_reported_and_evaluation_continues() {
    let mut parser = Parser::new(lex("len(1); 42;"));
    let program = parser.parse_program().expect("no program");
    let mut evaluator = Evaluator::new();
    let r = evaluator.eval(&program);
    assert_eq!(r, Some(Object::Integer(42)));
    assert_eq!(
        evaluator.output(),
        &vec!["Argument to `len` not supported, got Integer".to_string()]
    );
}

#[test]
fn empty_program_yields_nothing() {
    assert_eq!(eval_src(""), None);
}

#[test]
fn let_annotation_is_metadata_only() {
    check("let number n = 3; let str s = \"x\"; n;", Object::Integer(3));
    check("let bool b = 5; b;", Object::Integer(5));
}

#[test]
fn builtins_can_be_named_as_values() {
    check("let f = len; f(\"abcd\");", Object::Integer(4));
}
