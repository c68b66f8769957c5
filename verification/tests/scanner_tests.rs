use ilox::scanner::Scanner;
use ilox::token::{Identifier, Token};

fn scan(source: &str) -> Vec<Token> {
    let mut errors = Vec::new();
    let mut scanner = Scanner::new(source, &mut errors);
    scanner.scan();
    scanner.into_tokens()
}

fn scan_with_errors(source: &str) -> (Vec<Token>, Vec<String>) {
    let mut errors = Vec::new();
    let tokens = {
        let mut scanner = Scanner::new(source, &mut errors);
        scanner.scan();
        scanner.into_tokens()
    };
    (tokens, errors)
}

fn number_of(token: &Token) -> (f64, usize) {
    match token {
        Token::Number { value, line } => (value.parse().unwrap(), *line),
        other => panic!("expected a number, got {:?}", other),
    }
}

#[test]
fn test_scanning_single_character_tokens() {
    let map = vec![
        ('(', Token::LeftParen { line: 1 }),
        (')', Token::RightParen { line: 1 }),
        ('{', Token::LeftBrace { line: 1 }),
        ('}', Token::RightBrace { line: 1 }),
        (',', Token::Comma { line: 1 }),
        ('.', Token::Dot { line: 1 }),
        ('-', Token::Minus { line: 1 }),
        ('+', Token::Plus { line: 1 }),
        (';', Token::Semicolon { line: 1 }),
        ('*', Token::Star { line: 1 }),
        ('/', Token::Slash { line: 1 }),
    ];

    for (char, token) in map {
        let source = String::from(char);
        let tokens = scan(&source);
        assert_eq!(tokens.len(), 2);
        assert_eq!(tokens[0], token);
    }
}

#[test]
fn test_scanning_something_equal_tokens() {
    let map = vec![
        ("!".to_string(), Token::Bang { line: 1 }),
        ("!=".to_string(), Token::BangEqual { line: 1 }),
        ("=".to_string(), Token::Equal { line: 1 }),
        ("==".to_string(), Token::EqualEqual { line: 1 }),
        (">".to_string(), Token::Greater { line: 1 }),
        (">=".to_string(), Token::GreaterEqual { line: 1 }),
        ("<".to_string(), Token::Less { line: 1 }),
        ("<=".to_string(), Token::LessEqual { line: 1 }),
    ];

    for (source, token) in map {
        let tokens = scan(&source);
        assert_eq!(tokens.len(), 2);
        assert_eq!(tokens[0], token);
    }
}

#[test]
fn test_scanning_comments() {
    let source = "// some content hello\n".to_string();
    let tokens = scan(&source);
    assert_eq!(tokens.len(), 1);
    assert_eq!(tokens[0], Token::Eof);
}

#[test]
fn test_scanning_strings() {
    let source = "\"some string content\"".to_string();
    let tokens = scan(&source);
    assert_eq!(tokens.len(), 2);
    assert_eq!(
        tokens[0],
        Token::String {
            value: "some string content".to_string(),
            line: 1
        }
    );
}

#[test]
fn test_scanning_numbers() {
    let source = "123".to_string();
    let tokens = scan(&source);
    assert_eq!(tokens.len(), 2);
    assert_eq!(number_of(&tokens[0]), (123.0, 1));
    assert_eq!(
        tokens[0],
        Token::Number {
            value: "123".to_string(),
            line: 1
        }
    );
}

#[test]
fn test_scanning_numbers_with_fractional_values() {
    let source = "123.321".to_string();
    let tokens = scan(&source);
    assert_eq!(tokens.len(), 2);
    assert_eq!(number_of(&tokens[0]), (123.321, 1));
    assert_eq!(
        tokens[0],
        Token::Number {
            value: "123.321".to_string(),
            line: 1
        }
    );
}

#[test]
fn test_scanning_identifiers() {
    let source = "iDentifier_".to_string();
    let tokens = scan(&source);
    assert_eq!(tokens.len(), 2);
    assert_eq!(
        tokens[0],
        Token::Identifier(Identifier {
            value: "iDentifier_".to_string(),
            line: 1
        })
    );
}

#[test]
fn test_scanning_keywords() {
    let keywords = vec![
        ("and".to_string(), Token::And { line: 1 }),
        ("class".to_string(), Token::Class { line: 1 }),
        ("else".to_string(), Token::Else { line: 1 }),
        (
            "false".to_string(),
            Token::False {
                value: false,
                line: 1,
            },
        ),
        ("for".to_string(), Token::For { line: 1 }),
        ("fun".to_string(), Token::Fun { line: 1 }),
        ("if".to_string(), Token::If { line: 1 }),
        ("nil".to_string(), Token::Nil { line: 1 }),
        ("or".to_string(), Token::Or { line: 1 }),
        ("print".to_string(), Token::Print { line: 1 }),
        ("return".to_string(), Token::Return { line: 1 }),
        ("super".to_string(), Token::Super { line: 1 }),
        ("this".to_string(), Token::This { line: 1 }),
        (
            "true".to_string(),
            Token::True {
                value: true,
                line: 1,
            },
        ),
        ("var".to_string(), Token::Var { line: 1 }),
        ("while".to_string(), Token::While { line: 1 }),
    ];

    for (keyword, token) in keywords {
        let source = keyword.clone();
        let tokens = scan(&source);
        assert_eq!(tokens.len(), 2);
        assert_eq!(tokens[0], token);
    }
}

#[test]
fn scanning_always_ends_with_the_end_mark() {
    for source in ["", "   ", "@", "\"open", "var x = 1;", "// only a comment", "1.5;"] {
        let tokens = scan(source);
        assert_eq!(tokens.last(), Some(&Token::Eof));
        let marks = tokens.iter().filter(|t| **t == Token::Eof).count();
        assert_eq!(marks, 1);
    }
}

#[test]
fn unterminated_string_gives_one_diagnostic_and_no_token() {
    let (tokens, errors) = scan_with_errors("\"abc\ndef");
    assert_eq!(tokens, vec![Token::Eof]);
    assert_eq!(errors, vec!["Unterminated string at line 2".to_string()]);
}

#[test]
fn unexpected_character_is_reported_and_skipped() {
    let (tokens, errors) = scan_with_errors("1 @\n# 2");
    assert_eq!(
        tokens,
        vec![
            Token::Number { value: "1".to_string(), line: 1 },
            Token::Number { value: "2".to_string(), line: 2 },
            Token::Eof
        ]
    );
    assert_eq!(
        errors,
        vec![
            "Unexpected character '@' at line 1".to_string(),
            "Unexpected character '#' at line 2".to_string()
        ]
    );
}

#[test]
fn diagnostics_are_added_behind_those_already_there() {
    let mut errors = vec!["earlier".to_string()];
    {
        let mut scanner = Scanner::new("?", &mut errors);
        scanner.scan();
        scanner.into_tokens();
    }
    assert_eq!(errors, vec!["earlier".to_string(), "Unexpected character '?' at line 1".to_string()]);
}

#[test]
fn strings_keep_their_line_feeds_and_count_them() {
    let tokens = scan("\"a\nb\" x");
    assert_eq!(
        tokens,
        vec![
            Token::String { value: "a\nb".to_string(), line: 2 },
            Token::Identifier(Identifier { value: "x".to_string(), line: 2 }),
            Token::Eof
        ]
    );
}

#[test]
fn a_point_belongs_to_a_number_only_before_a_digit() {
    let tokens = scan("1.5+2. 3.x");
    assert_eq!(
        tokens,
        vec![
            Token::Number { value: "1.5".to_string(), line: 1 },
            Token::Plus { line: 1 },
            Token::Number { value: "2".to_string(), line: 1 },
            Token::Dot { line: 1 },
            Token::Number { value: "3".to_string(), line: 1 },
            Token::Dot { line: 1 },
            Token::Identifier(Identifier { value: "x".to_string(), line: 1 }),
            Token::Eof
        ]
    );
}

#[test]
fn comments_run_to_the_end_of_their_line() {
    let tokens = scan("a // b c\nd / e");
    assert_eq!(
        tokens,
        vec![
            Token::Identifier(Identifier { value: "a".to_string(), line: 1 }),
            Token::Identifier(Identifier { value: "d".to_string(), line: 2 }),
            Token::Slash { line: 2 },
            Token::Identifier(Identifier { value: "e".to_string(), line: 2 }),
            Token::Eof
        ]
    );
}

#[test]
fn words_may_hold_any_letters_and_numbers() {
    let tokens = scan("été_2 ２ printer");
    assert_eq!(
        tokens,
        vec![
            Token::Identifier(Identifier { value: "été_2".to_string(), line: 1 }),
            Token::Identifier(Identifier { value: "２".to_string(), line: 1 }),
            Token::Identifier(Identifier { value: "printer".to_string(), line: 1 }),
            Token::Eof
        ]
    );
}

#[test]
fn lexemes_and_lines_of_tokens() {
    assert_eq!(Token::BangEqual { line: 3 }.lexeme(), "!=");
    assert_eq!(Token::BangEqual { line: 3 }.line(), 3);
    assert_eq!(Token::While { line: 4 }.lexeme(), "while");
    assert_eq!(Token::Number { value: "1.50".to_string(), line: 7 }.lexeme(), "1.50");
    assert_eq!(Token::Number { value: "1.50".to_string(), line: 7 }.line(), 7);
    assert_eq!(Token::Eof.lexeme(), "");
    assert_eq!(Token::Eof.line(), 0);
    let name = Identifier { value: "x".to_string(), line: 9 };
    assert_eq!(name.to_string(), "x");
    assert_eq!(Token::Identifier(name.clone()).line(), 9);
    assert_eq!(Token::True { value: true, line: 1 }.clone(), Token::True { value: true, line: 1 });
}

#[test]
fn lines_are_written_in_decimal() {
    let source = "\n".repeat(11) + "@" + &"\n".repeat(1000) + "\"open";
    let (tokens, errors) = scan_with_errors(&source);
    assert_eq!(tokens, vec![Token::Eof]);
    assert_eq!(
        errors,
        vec![
            "Unexpected character '@' at line 12".to_string(),
            "Unterminated string at line 1012".to_string()
        ]
    );
    assert_eq!(ilox::text::decimal_text(0), "0");
    assert_eq!(ilox::text::decimal_text(7), "7");
    assert_eq!(ilox::text::decimal_text(10), "10");
    assert_eq!(ilox::text::decimal_text(1234567890), "1234567890");
    assert_eq!(ilox::text::decimal_text(usize::MAX), usize::MAX.to_string());
    assert!(ilox::text::digit('0') && ilox::text::digit('9') && !ilox::text::digit('a'));
    assert_eq!(ilox::scanner::characters("aé\n"), vec!['a', 'é', '\n']);
}
