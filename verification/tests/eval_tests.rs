use tammr::eval::Evaluator;
use tammr::object::Object;
use tammr::{Lexer, Parser};

fn eval_src(input: &str) -> Option<Object> {
    let mut l = Lexer::new(input.to_string());
    let tokens = l.gen_tokens().expect("Could not tokenize");
    let mut parser = Parser::new(tokens);
    let program = parser.parse_program()?;
    let mut evaluator = Evaluator::new();
    evaluator.eval(&program)
}

fn check(input: &str, expected: Object) {
    if let Some(result) = eval_src(input) {
        assert_eq!(result, expected);
    }
}

#[test]
fn test_dot_notation() {
    let tests = vec![
        (
            r#"
                let kv person = {"name": "Joe"};
                person.name
                "#,
            Object::String("Joe".to_string()),
        ),
        (
            r#"
            let person = {"name": "Joe", "age": 90};
            person.age
            "#,
            Object::Integer(90),
        ),
    ];

    for (input, expected) in tests {
        match eval_src(input) {
            Some(result) => assert_eq!(result, expected),
            None => panic!("No result"),
        }
    }
}

#[test]
fn test_hash_index() {
    let tests = vec![
        (
            r#"
                let kv myHash = {"one": 1, "two": 2};
                myHash["one"]
                "#,
            Object::Integer(1),
        ),
        (
            r#"
                let kv myHash = {"one": 1, "two": 2};
                myHash["two"]
                "#,
            Object::Integer(2),
        ),
        (
            r#"
                let kv myHash = {"one": 1, "two": 2};
                myHash["three"]
                "#,
            Object::Null,
        ),
        (
            r#"
                let kv myHash = {"one": 1, "two": 2};
                myHash["one"] + myHash["two"]
                "#,
            Object::Integer(3),
        ),
    ];

    for (input, expected) in tests {
        match eval_src(input) {
            Some(result) => assert_eq!(result, expected),
            None => panic!("No result"),
        }
    }
}

fn check_hash_literal(input: &str, object: Vec<(Object, Object)>) {
    if let Some(result) = eval_src(input) {
        match result {
            Object::Hash(hash) => {
                for (key, value) in hash.iter() {
                    for (expected_key, expected_value) in object.iter() {
                        if key == expected_key {
                            assert_eq!(value, expected_value);
                        }
                    }
                }
            }
            _ => panic!("Expected hash, got {}", result.display_string()),
        }
    }
}

#[test]
fn eval_tests_test_hash_literal() {
    check_hash_literal(
        r#"
                {
                    "one": 10 - 9,
                    "three": 6 / 2,
                }
                "#,
        vec![
            (Object::String("one".to_string()), Object::Integer(1)),
            (Object::String("three".to_string()), Object::Integer(3)),
        ],
    );
}

#[test]
fn eval_test_hash_literal() {
    check_hash_literal(
        r#"
                {
                    "one": 10 - 9,
                    "three": 6 / 2,
                }
                "#,
        vec![
            (Object::String("one".to_string()), Object::Integer(1)),
            (Object::String("three".to_string()), Object::Integer(3)),
        ],
    );
}

fn check_array_index_cases() {
    let tests = vec![
        ("[1, 2, 3][0]", Object::Integer(1)),
        ("[1, 2, 3][1]", Object::Integer(2)),
        ("[1, 2, 3][2]", Object::Integer(3)),
        ("let i = 0; [1][i];", Object::Integer(1)),
        ("[1, 2, 3][1 + 1];", Object::Integer(3)),
        ("let myArray = [1, 2, 3]; myArray[2];", Object::Integer(3)),
        (
            "let myArray = [1, 2, 3]; myArray[0] + myArray[1] + myArray[2];",
            Object::Integer(6),
        ),
        (
            "let myArray = [1, 2, 3]; let i = myArray[0]; myArray[i]",
            Object::Integer(2),
        ),
        ("[1, 2, 3][3]", Object::Null),
        ("[1, 2, 3][-1]", Object::Integer(3)),
    ];

    for (input, expected) in tests {
        check(input, expected);
    }
}

#[test]
fn eval_tests_test_array_index() {
    check_array_index_cases();
}

#[test]
fn eval_test_array_index() {
    check_array_index_cases();
}

fn check_array_literal_cases() {
    let test = vec![
        (
            "[1, 2 * 2, 3 + 3]",
            vec![Object::Integer(1), Object::Integer(4), Object::Integer(6)],
        ),
        (
            "[1, 2, 3]",
            vec![Object::Integer(1), Object::Integer(2), Object::Integer(3)],
        ),
        ("[]", vec![]),
    ];

    for (input, expected) in test {
        if let Some(result) = eval_src(input) {
            match result {
                Object::Array(arr) => {
                    for (i, obj) in arr.iter().enumerate() {
                        assert_eq!(*obj, expected[i]);
                    }
                }
                _ => panic!("Expected array, got {}", result.display_string()),
            }
        }
    }
}

#[test]
fn eval_tests_test_array_literal() {
    check_array_literal_cases();
}

#[test]
fn eval_test_array_literal() {
    check_array_literal_cases();
}

fn check_builtin_len_cases() {
    let tests = vec![
        ("len(\"\")", Object::Integer(0)),
        ("len(\"four\")", Object::Integer(4)),
        ("len(\"hello world\")", Object::Integer(11)),
        (
            "len(1)",
            Object::Error("Argument to `len` not supported, got Integer".to_string()),
        ),
        (
            "len(\"one\", \"two\")",
            Object::Error("Wrong number of arguments. Got 2, expected 1".to_string()),
        ),
    ];

    for (input, expected) in tests {
        check(input, expected);
    }
}

#[test]
fn eval_tests_test_builtin_len() {
    check_builtin_len_cases();
}

#[test]
fn eval_test_builtin_len() {
    check_builtin_len_cases();
}

fn check_string_concatenation_cases() {
    let tests = vec![
        (
            "\"Hello\" + \" \" + \"World!\"",
            Object::String("Hello World!".to_string()),
        ),
        (
            "\"Hello\" + \" \" + \"World!\" + \" \" + \"From\" + \" \" + \"Rust!\"",
            Object::String("Hello World! From Rust!".to_string()),
        ),
    ];

    for (input, expected) in tests {
        check(input, expected);
    }
}

#[test]
fn eval_tests_test_string_concatenation() {
    check_string_concatenation_cases();
}

#[test]
fn eval_test_string_concatenation() {
    check_string_concatenation_cases();
}

#[test]
fn eval_tests_test_string_literal() {
    check("\"Hello World!\"", Object::String("Hello World!".to_string()));
}

#[test]
fn eval_test_string_literal() {
    check("\"Hello World!\"", Object::String("Hello World!".to_string()));
}

#[test]
fn eval_tests_function_call_test() {
    let tests = vec![
        (
            "let identity = function(x) { x; }; identity(5);",
            Object::Integer(5),
        ),
        (
            "let identity = function(x) { return x; }; identity(5);",
            Object::Integer(5),
        ),
        (
            "let double = function(x) { x * 2; }; double(5);",
            Object::Integer(10),
        ),
        (
            "let add = function(x, y) { x + y; }; add(5, 5);",
            Object::Integer(10),
        ),
        (
            "let add = function(x, y) { x + y; }; add(5 + 5, add(5, 5));",
            Object::Integer(20),
        ),
        ("function(x) { x; }(5)", Object::Integer(5)),
    ];

    for (input, expected) in tests {
        check(input, expected);
    }
}

#[test]
fn eval_function_call_test() {
    let tests = vec![
        ("let identity = fn(x) { x; }; identity(5);", Object::Integer(5)),
        ("let identity = fn(x) { return x; }; identity(5);", Object::Integer(5)),
        ("let double = fn(x) { x * 2; }; double(5);", Object::Integer(10)),
        ("let add = fn(x, y) { x + y; }; add(5, 5);", Object::Integer(10)),
        (
            "let add = fn(x, y) { x + y; }; add(5 + 5, add(5, 5));",
            Object::Integer(20),
        ),
        ("fn(x) { x; }(5)", Object::Integer(5)),
    ];

    for (input, expected) in tests {
        check(input, expected);
    }
}

fn check_let_env_cases() {
    let tests = vec![
        ("let x = 10; x;", Object::Integer(10)),
        ("let x = 10 * 10; x;", Object::Integer(100)),
        ("let x = 10; let y = 10; x + y;", Object::Integer(20)),
        ("let x = 10; let y = 10; let z = x + y; z;", Object::Integer(20)),
    ];

    for (input, expected) in tests {
        check(input, expected);
    }
}

#[test]
fn eval_tests_let_env() {
    check_let_env_cases();
}

#[test]
fn eval_let_env() {
    check_let_env_cases();
}

fn check_return_statement_cases() {
    let tests = vec![
        ("return 10;", Object::Integer(10)),
        ("return 10; 9;", Object::Integer(10)),
        ("return 2 * 5; 9;", Object::Integer(10)),
        ("9; return 2 * 5; 9;", Object::Integer(10)),
        (
            "if (10 > 1) {
                    if (10 > 1) {
                        return 10;
                    }
                    return 1;
                }",
            Object::Integer(10),
        ),
    ];

    for (input, expected) in tests {
        if let Some(result) = eval_src(input) {
            match result {
                Object::Return(obj) => assert_eq!(*obj, expected),
                other => assert_eq!(other, expected),
            }
        }
    }
}

#[test]
fn eval_tests_test_return_statements() {
    check_return_statement_cases();
}

#[test]
fn eval_test_return_statements() {
    check_return_statement_cases();
}

fn check_conditional_cases() {
    let tests = vec![
        ("if (true) { 10 }", Object::Integer(10)),
        ("if (false) { 10 }", Object::Null),
        ("if (1 < 2) { 10 }", Object::Integer(10)),
        ("if (1 > 2) { 10 }", Object::Null),
        ("if (1 > 2) { 10 } else { 20 }", Object::Integer(20)),
        ("if (1 < 2) { 10 } else { 20 }", Object::Integer(10)),
    ];

    for (input, expected) in tests {
        check(input, expected);
    }
}

#[test]
fn eval_tests_test_conditionals() {
    check_conditional_cases();
}

#[test]
fn eval_test_conditionals() {
    check_conditional_cases();
}

fn check_infix_conditional_cases() {
    let tests = vec![
        ("1 < 2", true),
        ("1 > 2", false),
        ("1 == 2", false),
        ("1 != 2", true),
        ("true == true", true),
        ("true != true", false),
        ("false == false", true),
        ("false != false", false),
        ("false == true", false),
        ("false != true", true),
        ("true == false", false),
        ("true != false", true),
    ];

    for (input, expected) in tests {
        check(input, Object::Boolean(expected));
    }
}

#[test]
fn eval_tests_test_infix_conditionals() {
    check_infix_conditional_cases();
}

#[test]
fn eval_test_infix_conditionals() {
    check_infix_conditional_cases();
}

fn check_prefix_bang_cases() {
    let tests = vec![
        ("!true", false),
        ("!false", true),
        ("!!true", true),
        ("!!false", false),
    ];

    for (input, expected) in tests {
        check(input, Object::Boolean(expected));
    }
}

#[test]
fn eval_tests_test_prefix_bang_minus() {
    check_prefix_bang_cases();
}

#[test]
fn eval_test_prefix_bang_minus() {
    check_prefix_bang_cases();
}

fn check_int_minus_prefix_cases() {
    let tests = vec![
        ("-5", -5),
        ("-10", -10),
        ("-15", -15),
        ("-20", -20),
        ("-25", -25),
        ("-30", -30),
        ("-35", -35),
        ("-40", -40),
        ("-45", -45),
        ("-50", -50),
    ];

    for (input, expected) in tests {
        check(input, Object::Integer(expected));
    }
}

#[test]
fn eval_tests_test_int_minus_prefix() {
    check_int_minus_prefix_cases();
}

#[test]
fn eval_test_int_minus_prefix() {
    check_int_minus_prefix_cases();
}

#[test]
fn eval_tests_eval_bang_prefix() {
    check("!true", Object::Boolean(false));
}

#[test]
fn eval_eval_bang_prefix() {
    check("!true", Object::Boolean(false));
}

#[test]
fn eval_tests_eval_int() {
    check("5", Object::Integer(5));
}

#[test]
fn eval_eval_int() {
    check("5", Object::Integer(5));
}

#[test]
fn eval_tests_eval_boolean() {
    check("true;", Object::Boolean(true));
}

#[test]
fn eval_eval_boolean() {
    check("true;", Object::Boolean(true));
}
