use ilox::ast::{Expr, LiteralValue, Statement};
use ilox::parser::{ParseError, Parser};
use ilox::scanner::Scanner;
use ilox::token::{Identifier, Token};

fn number(text: &str, line: usize) -> Token {
    Token::Number { value: text.to_string(), line }
}

fn parse_source(source: &str) -> (Vec<Statement>, Vec<String>) {
    let mut errors = Vec::new();
    let tokens = {
        let mut scanner = Scanner::new(source, &mut errors);
        scanner.scan();
        scanner.into_tokens()
    };
    assert!(errors.is_empty(), "scanning failed: {:?}", errors);
    let statements = {
        let mut parser = Parser::new(tokens, &mut errors);
        parser.parse()
    };
    (statements, errors)
}

#[test]
fn test_parsing_print_statements() {
    let tokens = vec![
        Token::Print { line: 1 },
        number("42", 1),
        Token::Semicolon { line: 1 },
        Token::Eof,
    ];

    let mut errors = Vec::new();
    let mut parser = Parser::new(tokens, &mut errors);
    let statements = parser.parse();

    assert_eq!(statements.len(), 1);
    assert!(errors.is_empty(), "Expected no errors, but got: {:?}", errors);

    match &statements[0] {
        Statement::Print(_print) => {}
        _ => panic!("Expected a print statement."),
    }
}

#[test]
fn test_parsing_expression_statements() {
    let tokens = vec![number("42", 1), Token::Semicolon { line: 1 }, Token::Eof];

    let mut errors = Vec::new();
    let mut parser = Parser::new(tokens, &mut errors);
    let statements = parser.parse();

    assert_eq!(statements.len(), 1);
    assert!(errors.is_empty(), "Expected no errors, but got: {:?}", errors);

    match &statements[0] {
        Statement::Expression(_expr) => {}
        _ => panic!("Expected an expression statement."),
    }
}

#[test]
fn test_parsing_errors_on_missing_semi_colons() {
    let tokens = vec![Token::Print { line: 1 }, number("42", 1), Token::Eof];

    let mut errors = Vec::new();
    let mut parser = Parser::new(tokens, &mut errors);
    parser.parse();

    assert_eq!(errors.len(), 1);
    assert_eq!(errors[0], "[line 1] Error: Expected ';' after value.");
}

#[test]
fn test_parsing_a_print_statement() {
    let tokens = vec![
        Token::Print { line: 1 },
        Token::Identifier(Identifier {
            value: "x".to_string(),
            line: 1,
        }),
        Token::Plus { line: 1 },
        Token::Identifier(Identifier {
            value: "y".to_string(),
            line: 1,
        }),
        Token::Semicolon { line: 1 },
        Token::Eof,
    ];

    let mut errors = Vec::new();
    let mut parser = Parser::new(tokens, &mut errors);
    let result = parser.parse();

    assert_eq!(errors.len(), 0, "Expected no errors, but got: {:?}", errors);
    assert_eq!(result.len(), 1);

    match &result[0] {
        Statement::Print(print_stmt) => match *print_stmt.expression {
            Expr::Binary(ref binary) => {
                match *binary.left {
                    Expr::Variable(ref var) => {
                        assert_eq!(
                            var.token,
                            Box::new(Identifier {
                                value: "x".to_string(),
                                line: 1
                            })
                        );
                    }
                    _ => panic!("Expected a variable expression."),
                }
                assert_eq!(binary.operator, Box::new(Token::Plus { line: 1 }));
                match *binary.right {
                    Expr::Variable(ref var) => {
                        assert_eq!(
                            var.token,
                            Box::new(Identifier {
                                value: "y".to_string(),
                                line: 1
                            })
                        );
                    }
                    _ => panic!("Expected a variable expression."),
                }
            }
            _ => panic!("Expected a literal expression."),
        },
        _ => panic!("Expected a print statement."),
    }
}

#[test]
fn test_parsing_assignments() {
    let tokens = vec![
        Token::Identifier(Identifier {
            value: "x".to_string(),
            line: 1,
        }),
        Token::Equal { line: 1 },
        number("42", 1),
        Token::Semicolon { line: 1 },
        Token::Eof,
    ];

    let mut errors = Vec::new();
    let mut parser = Parser::new(tokens, &mut errors);
    let result = parser.parse();

    assert_eq!(errors.len(), 0, "Expected no errors, but got: {:?}", errors);
    assert_eq!(result.len(), 1);

    match &result[0] {
        Statement::Expression(expr) => match &*expr.expression {
            Expr::Assignment(assignment) => {
                assert_eq!(assignment.name.value, "x");

                match &*assignment.value {
                    Expr::Literal(literal) => match &literal.value {
                        LiteralValue::Number(value) => {
                            assert_eq!(value.parse::<f64>().unwrap(), 42.0);
                        }
                        _ => panic!("Expected a number literal."),
                    },
                    _ => panic!("Expected a literal expression."),
                }
            }
            _ => panic!("Expected an assignment expression."),
        },
        _ => panic!("Expected an expression statement."),
    }
}

#[test]
fn test_parsing_shadowed_assignments() {
    let tokens = vec![
        Token::Var { line: 1 },
        Token::Identifier(Identifier {
            value: "x".to_string(),
            line: 1,
        }),
        Token::Equal { line: 1 },
        number("42", 1),
        Token::Semicolon { line: 1 },
        Token::LeftBrace { line: 2 },
        Token::Var { line: 3 },
        Token::Identifier(Identifier {
            value: "x".to_string(),
            line: 3,
        }),
        Token::Equal { line: 3 },
        number("30", 3),
        Token::Semicolon { line: 3 },
        Token::RightBrace { line: 4 },
        Token::Eof,
    ];

    let mut errors = Vec::new();
    let mut parser = Parser::new(tokens, &mut errors);
    let result = parser.parse();

    assert_eq!(errors.len(), 0, "Expected no errors, but got: {:?}", errors);
    assert_eq!(result.len(), 2);
}

#[test]
fn parse_error_gives_its_text() {
    let error = ParseError::ExpectedTokenError("[line 1] Error: Expected variable name.".to_string());
    assert_eq!(error.to_string(), "[line 1] Error: Expected variable name.");
}

#[test]
fn one_diagnostic_for_each_missing_semicolon() {
    let (statements, errors) = parse_source("print 1\nprint 2;\nx = 3\nvar y = 4;\nprint 5;");
    assert_eq!(
        errors,
        vec![
            "[line 1] Error: Expected ';' after value.".to_string(),
            "[line 3] Error: Expected ';' after value.".to_string(),
        ]
    );
    assert_eq!(statements.len(), 1);
    assert!(matches!(statements[0], Statement::Print(_)));
}

#[test]
fn synchronizing_takes_the_keyword_it_failed_at() {
    let (statements, errors) = parse_source("print 1 print 2; print 3;");
    assert_eq!(errors, vec!["[line 1] Error: Expected ';' after value.".to_string()]);
    assert_eq!(statements.len(), 1);
    match &statements[0] {
        Statement::Print(it) => match &*it.expression {
            Expr::Literal(literal) => assert!(matches!(&literal.value, LiteralValue::Number(n) if n == "3")),
            _ => panic!("expected a literal"),
        },
        _ => panic!("expected a print statement"),
    }
}

#[test]
fn synchronizing_stops_behind_a_semicolon() {
    let (statements, errors) = parse_source("var 1 = 2; print 3;");
    assert_eq!(errors, vec!["[line 1] Error: Expected variable name.".to_string()]);
    assert_eq!(statements.len(), 1);
    assert!(matches!(statements[0], Statement::Print(_)));
}

#[test]
fn messages_of_declarations() {
    let (_, errors) = parse_source("var x 1;");
    assert_eq!(errors, vec!["[line 1] Error: Expected '=' after variable name.".to_string()]);
    let (_, errors) = parse_source("var x = 1");
    assert_eq!(errors, vec!["[line 1] Error: Expected ';' after variable declaration.".to_string()]);
    let (_, errors) = parse_source("var");
    assert_eq!(errors, vec!["[line 1] Error: Expected variable name.".to_string()]);
}

#[test]
fn messages_of_control_flow() {
    let (_, errors) = parse_source("if x) print 1;");
    assert_eq!(errors[0], "[line 1] Error: Expected '(' after 'if'.");
    let (_, errors) = parse_source("if (x print 1;");
    assert_eq!(errors[0], "[line 1] Error: Expected ')' after if condition.");
    let (_, errors) = parse_source("while x) print 1;");
    assert_eq!(errors[0], "[line 1] Error: Expected '(' after 'while'.");
    let (_, errors) = parse_source("\nwhile (x print 1;");
    assert_eq!(errors[0], "[line 2] Error: Expected ')' after while condition.");
    let (statements, errors) = parse_source("{ print 1;\n print 2;");
    assert_eq!(errors, vec!["[line 2] Error: Expected '}' after block, but found EOF".to_string()]);
    assert!(statements.is_empty());
}

#[test]
fn invalid_assignment_target_keeps_the_left_side() {
    let (statements, errors) = parse_source("1 = 2;");
    assert_eq!(errors, vec!["[line 1] Error: Invalid assignment target.".to_string()]);
    assert_eq!(statements.len(), 1);
    match &statements[0] {
        Statement::Expression(it) => match &*it.expression {
            Expr::Literal(literal) => assert!(matches!(&literal.value, LiteralValue::Number(n) if n == "1")),
            _ => panic!("expected the left side"),
        },
        _ => panic!("expected an expression statement"),
    }
}

#[test]
fn unclosed_group_is_recorded_and_kept() {
    let (statements, errors) = parse_source("(1 + 2;");
    assert_eq!(errors, vec!["[line 1] Error at '(': Expect ')' after expression.".to_string()]);
    assert_eq!(statements.len(), 1);
    let (statements, errors) = parse_source("print (1");
    assert_eq!(
        errors,
        vec![
            "[line 1] Error: Expected ')' after expression.".to_string(),
            "[line 1] Error: Expected ';' after value.".to_string()
        ]
    );
    assert!(statements.is_empty());
}

#[test]
fn empty_primary_is_nil() {
    let (statements, errors) = parse_source("print ;");
    assert!(errors.is_empty());
    match &statements[0] {
        Statement::Print(it) => match &*it.expression {
            Expr::Literal(literal) => assert!(matches!(literal.value, LiteralValue::Nil)),
            _ => panic!("expected a literal"),
        },
        _ => panic!("expected a print statement"),
    }
}

#[test]
fn a_stray_token_at_the_start_is_reported_on_its_own_line() {
    let (statements, errors) = parse_source("\n\n) print 1;");
    assert_eq!(errors, vec!["[line 3] Error: Expected ';' after value.".to_string()]);
    assert_eq!(statements.len(), 1);
}

#[test]
fn for_is_no_statement() {
    let (statements, errors) = parse_source("for (;;) print 1;");
    assert!(!errors.is_empty());
    assert!(statements.iter().all(|s| matches!(s, Statement::Print(_) | Statement::Expression(_))));
}

#[test]
fn parsing_without_an_end_mark_stops_at_the_last_token() {
    let tokens = vec![number("1", 1), Token::Semicolon { line: 1 }];
    let mut errors = Vec::new();
    let mut parser = Parser::new(tokens, &mut errors);
    let statements = parser.parse();
    assert_eq!(statements.len(), 1);
    assert!(errors.is_empty());
    let mut errors = Vec::new();
    let mut parser = Parser::new(Vec::new(), &mut errors);
    assert!(parser.parse().is_empty());
    assert!(errors.is_empty());
}
