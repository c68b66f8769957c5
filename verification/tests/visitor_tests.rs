use ilox::ast::{Binary, Expr, Grouping, Literal, LiteralValue, Unary};
use ilox::parser::Parser;
use ilox::scanner::Scanner;
use ilox::token::Token;
use ilox::visitor::AstPrinter;

#[test]
fn test_ast_printer() {
    let binary = Binary {
        left: Box::new(Expr::Literal(Literal {
            value: LiteralValue::String("5".to_string()),
        })),
        operator: Box::new(Token::Plus { line: 1 }),
        right: Box::new(Expr::Literal(Literal {
            value: LiteralValue::String("3".to_string()),
        })),
    };

    let mut printer = AstPrinter;
    assert_eq!(printer.visit_binary(&binary), "(+ 5 3)".to_string());
}

#[test]
fn test_ast_printer_more_complex_case() {
    let expr = Binary {
        left: Box::new(Expr::Unary(Unary {
            operator: Box::new(Token::Minus { line: 1 }),
            right: Box::new(Expr::Literal(Literal {
                value: LiteralValue::String("123".to_string()),
            })),
        })),
        operator: Box::new(Token::Star { line: 1 }),
        right: Box::new(Expr::Grouping(Grouping {
            expression: Box::new(Expr::Literal(Literal {
                value: LiteralValue::String("45.67".to_string()),
            })),
        })),
    };

    let mut printer = AstPrinter;
    assert_eq!(
        printer.visit_binary(&expr),
        "(* (- 123) (group 45.67))".to_string()
    );
}

fn dump(source: &str) -> Vec<String> {
    let mut errors = Vec::new();
    let tokens = {
        let mut scanner = Scanner::new(source, &mut errors);
        scanner.scan();
        scanner.into_tokens()
    };
    let statements = {
        let mut parser = Parser::new(tokens, &mut errors);
        parser.parse()
    };
    assert!(errors.is_empty(), "{:?}", errors);
    let mut printer = AstPrinter;
    statements.iter().map(|s| printer.visit_statement(s)).collect()
}

#[test]
fn statements_in_prefix_notation() {
    assert_eq!(dump("print 1 + 2 * 3;"), vec!["print (+ 1 (* 2 3))"]);
    assert_eq!(dump("var x = !true;"), vec!["x=(! true)"]);
    assert_eq!(dump("x = y = nil;"), vec!["x = y = nil"]);
    assert_eq!(dump("a or b and c;"), vec!["(or a (and b c))"]);
    assert_eq!(dump("{ print \"a\"; x; }"), vec!["{print a;\nx;\n}"]);
    assert_eq!(dump("{}"), vec!["{}"]);
    assert_eq!(dump("if (a) print 1; else print 2;"), vec!["(if a print 1 print 2)"]);
    assert_eq!(dump("if (a) print 1;"), vec!["(if a print 1)"]);
    assert_eq!(dump("while (a < 1.50) a = a + 1;"), vec!["(while (< a 1.50) a = (+ a 1))"]);
    assert_eq!(dump("(1 - 2) / -3 >= 4 == false;"), vec!["(== (>= (/ (group (- 1 2)) (- 3)) 4) false)"]);
}

#[test]
fn operators_of_one_level_group_to_the_left() {
    assert_eq!(dump("1 - 2 - 3;"), vec!["(- (- 1 2) 3)"]);
    assert_eq!(dump("!!a;"), vec!["(! (! a))"]);
    assert_eq!(dump("a = b = c;"), vec!["a = b = c"]);
    assert_eq!(dump("if (a) if (b) print 1; else print 2;"), vec!["(if a (if b print 1 print 2))"]);
}

fn parse_views(source: &str) -> Vec<String> {
    dump(source)
}

#[test]
fn a_block_of_plain_statements_prints_to_text_that_parses_to_the_same() {
    let first = parse_views("{ x; print 12.50; y = z = nil; print true; }");
    assert_eq!(first, vec!["{x;\nprint 12.50;\ny = z = nil;\nprint true;\n}"]);
    let second = parse_views(&first[0]);
    assert_eq!(second, first);
}

#[test]
fn prefix_notation_does_not_parse_back() {
    let first = parse_views("{ print 1 + 2; }");
    assert_eq!(first, vec!["{print (+ 1 2);\n}"]);
    let mut errors = Vec::new();
    let tokens = {
        let mut scanner = Scanner::new(&first[0], &mut errors);
        scanner.scan();
        scanner.into_tokens()
    };
    {
        let mut parser = Parser::new(tokens, &mut errors);
        parser.parse();
    }
    assert!(!errors.is_empty());
}
