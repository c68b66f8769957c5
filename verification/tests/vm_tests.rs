use ilox::ast::{
    Assignment, Binary, Expr, ExpressionStatement, IfStatement, Literal, LiteralValue, Logical,
    Statement, Unary, Variable, VariableStatement, WhileStatement,
};
use ilox::machine::Operation;
use ilox::token::{Identifier, Token};
use ilox::value::{RuntimeError, Value};
use ilox::vm::{Action, Reply, Run, Vm};

fn drive(vm: &mut Vm, run: &mut Run, output: &mut Vec<String>) -> Result<(), RuntimeError> {
    let mut reply = Reply::Nothing;
    loop {
        reply = match vm.step(run, reply) {
            Action::Continue => Reply::Nothing,
            Action::Parse(digits) => Reply::Number(digits.parse::<f64>().unwrap().to_bits()),
            Action::Calculate(operation, left, right) => {
                let (left, right) = (f64::from_bits(left), f64::from_bits(right));
                let result = match operation {
                    Operation::Add => left + right,
                    Operation::Subtract => left - right,
                    Operation::Multiply => left * right,
                    Operation::Divide => left / right,
                };
                Reply::Number(result.to_bits())
            }
            Action::Format(bits) => Reply::Text(f64::from_bits(bits).to_string()),
            Action::Print(line) => {
                output.push(line);
                Reply::Nothing
            }
            Action::Done => return Ok(()),
            Action::Failed(error) => return Err(error),
        };
    }
}

fn evaluate(vm: &mut Vm, expression: &Expr) -> Result<Value, RuntimeError> {
    let mut run = Run::expression(expression);
    let mut output = Vec::new();
    drive(vm, &mut run, &mut output)?;
    Ok(run.result().unwrap())
}

fn execute(vm: &mut Vm, statement: &Statement) -> Result<(), RuntimeError> {
    let mut run = Run::statement(statement);
    let mut output = Vec::new();
    drive(vm, &mut run, &mut output)
}

fn number(value: f64) -> Value {
    Value::Number(value.to_bits())
}

fn literal_number(value: f64) -> LiteralValue {
    LiteralValue::Number(value.to_string())
}

fn name(text: &str) -> Box<Identifier> {
    Box::new(Identifier {
        value: text.to_string(),
        line: 1,
    })
}

#[test]
fn test_evaluating_literals() {
    let mut vm = Vm::new();
    let literal = Expr::Literal(Literal {
        value: literal_number(42.0),
    });
    let result = evaluate(&mut vm, &literal).unwrap();
    assert_eq!(result, number(42.0));

    let literal = Expr::Literal(Literal {
        value: LiteralValue::String("Hello".to_string()),
    });
    let result = evaluate(&mut vm, &literal).unwrap();
    assert_eq!(result, Value::String("Hello".to_string()));

    let bool = Expr::Literal(Literal {
        value: LiteralValue::Boolean(true),
    });
    let result = evaluate(&mut vm, &bool).unwrap();
    assert_eq!(result, Value::Boolean(true))
}

#[test]
fn test_evaluating_unary() {
    let mut vm = Vm::new();
    let unary = Expr::Unary(Unary {
        operator: Box::new(Token::Minus { line: 1 }),
        right: Box::new(Expr::Literal(Literal {
            value: literal_number(42.0),
        })),
    });
    let result = evaluate(&mut vm, &unary).unwrap();
    assert_eq!(result, number(-42.0));

    let unary = Expr::Unary(Unary {
        operator: Box::new(Token::Bang { line: 1 }),
        right: Box::new(Expr::Literal(Literal {
            value: LiteralValue::Boolean(true),
        })),
    });
    let result = evaluate(&mut vm, &unary).unwrap();
    assert_eq!(result, Value::Boolean(false));
}

fn binary(left: LiteralValue, operator: Token, right: LiteralValue) -> Expr {
    Expr::Binary(Binary {
        left: Box::new(Expr::Literal(Literal { value: left })),
        operator: Box::new(operator),
        right: Box::new(Expr::Literal(Literal { value: right })),
    })
}

#[test]
fn test_evaluating_number_addition() {
    let mut vm = Vm::new();
    let binary = binary(literal_number(42.0), Token::Plus { line: 1 }, literal_number(58.0));
    let result = evaluate(&mut vm, &binary).unwrap();
    assert_eq!(result, number(100.0));
}

#[test]
fn test_evaluating_string_addition() {
    let mut vm = Vm::new();
    let binary = binary(
        LiteralValue::String("Hello".to_string()),
        Token::Plus { line: 1 },
        LiteralValue::String(" World".to_string()),
    );
    let result = evaluate(&mut vm, &binary).unwrap();
    assert_eq!(result, Value::String("Hello World".to_string()));
}

#[test]
fn test_evaluating_invalid_addition() {
    let mut vm = Vm::new();
    let first = binary(
        LiteralValue::String("Hello".to_string()),
        Token::Plus { line: 1 },
        literal_number(42.0),
    );
    assert!(evaluate(&mut vm, &first).is_err());

    let second = binary(LiteralValue::Boolean(false), Token::Plus { line: 1 }, literal_number(42.0));
    assert!(evaluate(&mut vm, &second).is_err());
}

#[test]
fn test_evaluating_subtraction() {
    let mut vm = Vm::new();
    let binary = binary(literal_number(5.0), Token::Minus { line: 1 }, literal_number(2.0));
    let result = evaluate(&mut vm, &binary).unwrap();
    assert_eq!(result, number(3.0));
}

#[test]
fn test_evaluating_invalid_subtraction() {
    let mut vm = Vm::new();
    let first = binary(
        LiteralValue::String("Hello".to_string()),
        Token::Minus { line: 1 },
        literal_number(42.0),
    );
    assert!(evaluate(&mut vm, &first).is_err());

    let second = binary(LiteralValue::Boolean(false), Token::Minus { line: 1 }, literal_number(42.0));
    assert!(evaluate(&mut vm, &second).is_err());
}

#[test]
fn test_evaluating_division() {
    let mut vm = Vm::new();
    let binary = binary(literal_number(5.0), Token::Slash { line: 1 }, literal_number(2.0));
    let result = evaluate(&mut vm, &binary).unwrap();
    assert_eq!(result, number(2.5));
}

#[test]
fn test_evaluating_invalid_division() {
    let mut vm = Vm::new();
    let first = binary(
        literal_number(5.5),
        Token::Slash { line: 1 },
        LiteralValue::String("Hello".to_string()),
    );
    assert!(evaluate(&mut vm, &first).is_err());

    let second = binary(literal_number(5.5), Token::Slash { line: 1 }, literal_number(0.0));
    assert!(evaluate(&mut vm, &second).is_err());
}

#[test]
fn test_evaluating_multiplication() {
    let mut vm = Vm::new();
    let binary = binary(literal_number(5.0), Token::Star { line: 1 }, literal_number(2.0));
    let result = evaluate(&mut vm, &binary).unwrap();
    assert_eq!(result, number(10.0));
}

#[test]
fn test_evaluating_invalid_multiplication() {
    let mut vm = Vm::new();
    let first = binary(
        literal_number(5.5),
        Token::Star { line: 1 },
        LiteralValue::String("Hello".to_string()),
    );
    assert!(evaluate(&mut vm, &first).is_err());

    let second = binary(literal_number(5.5), Token::Star { line: 1 }, LiteralValue::Boolean(false));
    assert!(evaluate(&mut vm, &second).is_err());
}

fn define_x(value: Expr) -> Statement {
    Statement::Variable(VariableStatement {
        name: name("x"),
        value: Box::new(value),
    })
}

fn assign_x(value: f64) -> Statement {
    Statement::Expression(ExpressionStatement {
        expression: Box::new(Expr::Assignment(Assignment {
            name: name("x"),
            value: Box::new(Expr::Literal(Literal {
                value: literal_number(value),
            })),
        })),
    })
}

fn read_x(vm: &mut Vm) -> Value {
    let variable_expression = Expr::Variable(Variable { token: name("x") });
    evaluate(vm, &variable_expression).unwrap()
}

fn number_expression(value: f64) -> Expr {
    Expr::Literal(Literal {
        value: literal_number(value),
    })
}

fn boolean_expression(value: bool) -> Expr {
    Expr::Literal(Literal {
        value: LiteralValue::Boolean(value),
    })
}

#[test]
fn test_evaluating_global_variables() {
    let mut vm = Vm::new();

    let definition_statement = define_x(number_expression(42.0));
    execute(&mut vm, &definition_statement).unwrap();

    assert_eq!(read_x(&mut vm), number(42.0));
}

#[test]
fn test_evaluating_assignment() {
    let mut vm = Vm::new();

    let statements = vec![define_x(number_expression(42.0)), assign_x(10.0)];

    for statement in &statements {
        execute(&mut vm, statement).unwrap();
    }

    assert_eq!(read_x(&mut vm), number(10.0));
}

#[test]
fn test_if_statement() {
    let mut vm = Vm::new();

    let statements = vec![
        define_x(number_expression(42.0)),
        Statement::If(IfStatement {
            condition: Box::new(boolean_expression(true)),
            then_branch: Box::new(assign_x(10.0)),
            else_branch: None,
        }),
    ];

    for statement in &statements {
        execute(&mut vm, statement).unwrap();
    }

    assert_eq!(read_x(&mut vm), number(10.0));
}

#[test]
fn test_if_statement_with_else() {
    let mut vm = Vm::new();

    let statements = vec![
        define_x(number_expression(42.0)),
        Statement::If(IfStatement {
            condition: Box::new(boolean_expression(false)),
            then_branch: Box::new(assign_x(10.0)),
            else_branch: Some(Box::new(assign_x(5.0))),
        }),
    ];

    for statement in &statements {
        execute(&mut vm, statement).unwrap();
    }

    assert_eq!(read_x(&mut vm), number(5.0));
}

fn logical(left: Expr, operator: Token, right: Expr) -> Expr {
    Expr::Logical(Logical {
        left: Box::new(left),
        operator: Box::new(operator),
        right: Box::new(right),
    })
}

#[test]
fn test_or_statement() {
    let mut vm = Vm::new();

    let statements = vec![define_x(logical(
        boolean_expression(false),
        Token::Or { line: 1 },
        number_expression(5.0),
    ))];

    for statement in &statements {
        execute(&mut vm, statement).unwrap();
    }

    assert_eq!(read_x(&mut vm), number(5.0));
}

#[test]
fn test_or_statement_short_circuit() {
    let mut vm = Vm::new();

    let statements = vec![define_x(logical(
        number_expression(15.0),
        Token::Or { line: 1 },
        number_expression(5.0),
    ))];

    for statement in &statements {
        execute(&mut vm, statement).unwrap();
    }

    assert_eq!(read_x(&mut vm), number(15.0));
}

#[test]
fn test_and_statement() {
    let mut vm = Vm::new();

    let statements = vec![define_x(logical(
        boolean_expression(true),
        Token::And { line: 1 },
        number_expression(5.0),
    ))];

    for statement in &statements {
        execute(&mut vm, statement).unwrap();
    }

    assert_eq!(read_x(&mut vm), number(5.0));
}

#[test]
fn test_and_statement_short_circuit() {
    let mut vm = Vm::new();

    let statements = vec![define_x(logical(
        boolean_expression(false),
        Token::And { line: 1 },
        number_expression(5.0),
    ))];

    for statement in &statements {
        execute(&mut vm, statement).unwrap();
    }

    assert_eq!(read_x(&mut vm), Value::Boolean(false));
}

#[test]
fn test_while_loop() {
    let mut vm = Vm::new();

    let statements = vec![
        define_x(number_expression(0.0)),
        Statement::While(WhileStatement {
            condition: Box::new(Expr::Binary(Binary {
                left: Box::new(Expr::Variable(Variable { token: name("x") })),
                operator: Box::new(Token::Less { line: 1 }),
                right: Box::new(number_expression(5.0)),
            })),
            body: Box::new(define_x(Expr::Binary(Binary {
                left: Box::new(Expr::Variable(Variable { token: name("x") })),
                operator: Box::new(Token::Plus { line: 1 }),
                right: Box::new(number_expression(1.0)),
            }))),
        }),
    ];

    for statement in &statements {
        execute(&mut vm, statement).unwrap();
    }

    assert_eq!(read_x(&mut vm), number(5.0));
}

#[test]
fn unknown_operators_stop_the_program() {
    let mut vm = Vm::new();
    let odd = binary(literal_number(1.0), Token::Comma { line: 1 }, literal_number(2.0));
    match evaluate(&mut vm, &odd) {
        Err(RuntimeError::UnknownOperatorError(text)) => assert_eq!(text, "Unknown binary operator: ,"),
        other => panic!("unexpected {:?}", other),
    }
    let odd = Expr::Unary(Unary {
        operator: Box::new(Token::Plus { line: 1 }),
        right: Box::new(number_expression(1.0)),
    });
    match evaluate(&mut vm, &odd) {
        Err(RuntimeError::UnknownOperatorError(text)) => assert_eq!(text, "Unknown unary operator: +"),
        other => panic!("unexpected {:?}", other),
    }
}

#[test]
fn a_reply_of_the_wrong_kind_stops_the_run() {
    let mut vm = Vm::new();
    let expression = number_expression(1.0);
    let mut run = Run::expression(&expression);
    assert!(matches!(vm.step(&mut run, Reply::Nothing), Action::Parse(digits) if digits == "1"));
    match vm.step(&mut run, Reply::Text("one".to_string())) {
        Action::Failed(RuntimeError::ArgumentError(text)) => {
            assert_eq!(text, "The host did not answer the machine's request")
        }
        other => panic!("unexpected {:?}", other),
    }
    assert!(matches!(vm.step(&mut run, Reply::Nothing), Action::Done));
    assert!(run.result().is_none());
}

#[test]
fn the_steps_of_a_sum() {
    let mut vm = Vm::new();
    let sum = binary(literal_number(1.0), Token::Plus { line: 1 }, literal_number(2.0));
    let mut run = Run::expression(&sum);
    assert!(matches!(vm.step(&mut run, Reply::Nothing), Action::Continue));
    assert!(matches!(vm.step(&mut run, Reply::Nothing), Action::Parse(digits) if digits == "1"));
    assert!(matches!(vm.step(&mut run, Reply::Number(1f64.to_bits())), Action::Continue));
    assert!(matches!(vm.step(&mut run, Reply::Nothing), Action::Parse(digits) if digits == "2"));
    assert!(matches!(vm.step(&mut run, Reply::Number(2f64.to_bits())), Action::Continue));
    match vm.step(&mut run, Reply::Nothing) {
        Action::Calculate(Operation::Add, left, right) => {
            assert_eq!((left, right), (1f64.to_bits(), 2f64.to_bits()))
        }
        other => panic!("unexpected {:?}", other),
    }
    assert!(matches!(vm.step(&mut run, Reply::Number(3f64.to_bits())), Action::Continue));
    assert!(matches!(vm.step(&mut run, Reply::Nothing), Action::Done));
    assert_eq!(run.result(), Some(number(3.0)));
    assert!(vm.truthy(&number(0.0)));
    assert!(!vm.truthy(&Value::Nil));
    assert_eq!(vm.environment().depth(), 0);
}
