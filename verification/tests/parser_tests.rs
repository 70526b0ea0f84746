use tammr::ast::Statement;
use tammr::{Lexer, Parser};

fn parse(input: &str) -> Vec<Statement> {
    let mut l = Lexer::new(input.to_string());
    let tokens = l.gen_tokens().unwrap();
    let mut p = Parser::new(tokens);
    match p.parse_program() {
        Some(program) => program,
        None => panic!("Parse program returned None"),
    }
}

#[test]
fn if_statement() {
    let input = r#"
            if (x < y) {
                return x;
            } else {
                return y;
            }
            "#;
    let program = parse(input);
    if program.len() != 1 {
        panic!("Program does not contain 1 statement, got {}", program.len());
    }

    let stmt = &program[0];
    match stmt {
        Statement::Expression { value, .. } => {
            if value.to_display_string() != "((x < y) {[return x;]} else [return y;])" {
                panic!(
                    "Expected value to be ((x < y) {{[ return true; ]}} else {{[ return false; ]}}), got {}",
                    value.to_display_string()
                );
            }
        }
        _ => {
            panic!("Expected statement to be expression, got {:?}", stmt);
        }
    }
}

#[test]
fn group_expr() {
    let program = parse("(5 + 5) * 2;");
    if program.len() != 1 {
        panic!("Program does not contain 1 statement, got {}, program: {:?}", program.len(), program);
    }

    let stmt = &program[0];
    match stmt {
        Statement::Expression { value, .. } => {
            if value.to_display_string() != "((5 + 5) * 2)" {
                panic!("Expected value to be ((5 + 5) * 2), got {}", value.to_display_string());
            }
        }
        _ => {
            panic!("Expected statement to be expression, got {:?}", stmt);
        }
    }
}

#[test]
fn boolean_expr() {
    let program = parse("true;");
    if program.len() != 1 {
        panic!("Program does not contain 1 statement, got {}", program.len());
    }

    let stmt = &program[0];
    match stmt {
        Statement::Expression { value, .. } => {
            if value.to_display_string() != "true" {
                panic!("Expected value to be true, got {}", value.to_display_string());
            }
        }
        _ => {
            panic!("Expected statement to be expression, got {:?}", stmt);
        }
    }
}

#[test]
fn infix_expr() {
    let program = parse("5 + 5 * 2;");
    if program.len() != 1 {
        panic!("Program does not contain 1 statement, got {}", program.len());
    }

    let stmt = &program[0];
    match stmt {
        Statement::Expression { value, .. } => {
            if value.to_display_string() != "(5 + (5 * 2))" {
                panic!("Expected value to be (5 + (5 * 2)), got {}", value.to_display_string());
            }
        }
        _ => {
            panic!("Expected statement to be expression, got {:?}", stmt);
        }
    }
}

#[test]
fn prefix_expr() {
    let program = parse("-5;");
    if program.len() != 1 {
        panic!("Program does not contain 1 statement, got {}", program.len());
    }

    let stmt = &program[0];
    match stmt {
        Statement::Expression { value, .. } => {
            if value.to_display_string() != "(-5)" {
                panic!("Expected value to be -5, got {}", value.to_display_string());
            }
        }
        _ => {
            panic!("Expected statement to be expression, got {:?}", stmt);
        }
    }
}

#[test]
fn integer_expr() {
    let program = parse("5;");
    if program.len() != 1 {
        panic!("Program does not contain 1 statement, got {}", program.len());
    }

    let stmt = &program[0];
    match stmt {
        Statement::Expression { value, .. } => {
            if value.to_display_string() != "5" {
                panic!("Expected value to be 5, got {}", value.to_display_string());
            }
        }
        _ => {
            panic!("Expected statement to be expression, got {:?}", stmt);
        }
    }
}

#[test]
fn identifier_expr() {
    let program = parse("foobar;");
    if program.len() != 1 {
        panic!("Program does not contain 1 statement, got {}", program.len());
    }

    let stmt = &program[0];
    match stmt {
        Statement::Expression { value, .. } => {
            if value.to_display_string() != "foobar" {
                panic!("Expected value to be foobar, got {}", value.to_display_string());
            }
        }
        _ => {
            panic!("Expected statement to be expression, got {:?}", stmt);
        }
    }
}

#[test]
fn return_statement() {
    let input = r#"
            return 5;
            return 10;
            return 993322;
            "#;
    let program = parse(input);
    if program.len() != 3 {
        panic!("Program does not contain 3 statements, got {}", program.len());
    }
}

#[test]
fn let_statement() {
    let input = r#"
            let x = 5;
            let y = 10;
            let foobar = 838383;
            "#;
    let program = parse(input);
    if program.len() != 3 {
        panic!("Program does not contain 3 statements, got {}", program.len());
    }

    let tests = vec!["x", "y", "foobar"];

    for (i, tt) in tests.iter().enumerate() {
        let stmt = &program[i];
        match stmt {
            Statement::Let { name, .. } => {
                if name.value != *tt {
                    panic!("Expected name to be {}, got {}", tt, name.value);
                }
            }
            _ => {
                panic!("Expected statement to be let, got {:?}", stmt);
            }
        }
    }
}
