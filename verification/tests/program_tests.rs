use ilox::ast::Statement;
use ilox::machine::Operation;
use ilox::number::{equal, less, nan, negate, zero};
use ilox::parser::Parser;
use ilox::scanner::Scanner;
use ilox::value::{RuntimeError, Value};
use ilox::vm::{Action, Reply, Run, Vm};

fn parse(source: &str) -> (Vec<Statement>, Vec<String>) {
    let mut errors = Vec::new();
    let tokens = {
        let mut scanner = Scanner::new(source, &mut errors);
        scanner.scan();
        scanner.into_tokens()
    };
    if !errors.is_empty() {
        return (Vec::new(), errors);
    }
    let statements = {
        let mut parser = Parser::new(tokens, &mut errors);
        parser.parse()
    };
    (statements, errors)
}

fn answer(action: Action, output: &mut Vec<String>) -> Result<Option<Reply>, RuntimeError> {
    Ok(Some(match action {
        Action::Continue => Reply::Nothing,
        Action::Parse(digits) => Reply::Number(digits.parse::<f64>().unwrap().to_bits()),
        Action::Calculate(operation, left, right) => {
            let (left, right) = (f64::from_bits(left), f64::from_bits(right));
            Reply::Number(
                match operation {
                    Operation::Add => left + right,
                    Operation::Subtract => left - right,
                    Operation::Multiply => left * right,
                    Operation::Divide => left / right,
                }
                .to_bits(),
            )
        }
        Action::Format(bits) => Reply::Text(f64::from_bits(bits).to_string()),
        Action::Print(line) => {
            output.push(line);
            Reply::Nothing
        }
        Action::Done => return Ok(None),
        Action::Failed(error) => return Err(error),
    }))
}

fn run_in(vm: &mut Vm, source: &str) -> (Vec<String>, Vec<String>, Option<RuntimeError>) {
    let (statements, errors) = parse(source);
    let mut output = Vec::new();
    if !errors.is_empty() {
        return (output, errors, None);
    }
    for statement in &statements {
        let mut run = Run::statement(statement);
        let mut reply = Reply::Nothing;
        loop {
            match answer(vm.step(&mut run, reply), &mut output) {
                Ok(Some(next)) => reply = next,
                Ok(None) => break,
                Err(error) => return (output, errors, Some(error)),
            }
        }
    }
    (output, errors, None)
}

fn run(source: &str) -> (Vec<String>, Vec<String>, Option<RuntimeError>) {
    run_in(&mut Vm::new(), source)
}

fn prints(source: &str) -> Vec<String> {
    let (output, errors, failure) = run(source);
    assert!(errors.is_empty(), "{:?}", errors);
    assert!(failure.is_none(), "{:?}", failure);
    output
}

fn fails(source: &str) -> RuntimeError {
    let (_, errors, failure) = run(source);
    assert!(errors.is_empty(), "{:?}", errors);
    failure.expect("the program should stop with an error")
}

#[test]
fn arithmetic_follows_precedence() {
    assert_eq!(prints("print 1 + 2 * 3;"), vec!["7"]);
}

#[test]
fn strings_are_joined() {
    assert_eq!(prints("var x = \"hi\"; print x + \" there\";"), vec!["hi there"]);
}

#[test]
fn a_loop_counts() {
    assert_eq!(
        prints("var n = 0; while (n < 3) { n = n + 1; print n; }"),
        vec!["1", "2", "3"]
    );
}

#[test]
fn a_block_shadows_and_gives_back() {
    assert_eq!(prints("var a = 1; { var a = 2; print a; } print a;"), vec!["2", "1"]);
}

#[test]
fn the_else_branch_runs_on_false() {
    assert_eq!(prints("if (false) print \"y\"; else print \"n\";"), vec!["n"]);
}

#[test]
fn logical_operators_give_an_operand() {
    assert_eq!(prints("print \"a\" or 1;"), vec!["a"]);
    assert_eq!(prints("print false and 9;"), vec!["false"]);
    assert_eq!(prints("print nil or \"b\";"), vec!["b"]);
    assert_eq!(prints("print 1 and 2;"), vec!["2"]);
}

#[test]
fn the_right_operand_is_not_evaluated_when_the_left_decides() {
    assert_eq!(
        prints("var s = 0; false and (s = 1); true or (s = 2); print s;"),
        vec!["0"]
    );
    assert_eq!(
        prints("var s = 0; true and (s = 1); print s; false or (s = 2); print s;"),
        vec!["1", "2"]
    );
}

#[test]
fn division_by_zero_and_by_what_is_no_number() {
    match fails("print 1 / 0;") {
        RuntimeError::ZeroDivision(text) => assert_eq!(text, "Cannot divide 1 by zero"),
        other => panic!("unexpected {:?}", other),
    }
    match fails("print 7.5 / -0;") {
        RuntimeError::ZeroDivision(text) => assert_eq!(text, "Cannot divide 7.5 by zero"),
        other => panic!("unexpected {:?}", other),
    }
    match fails("print 1 / \"a\";") {
        RuntimeError::ArgumentError(text) => assert_eq!(text, "Expected number, but got a"),
        other => panic!("unexpected {:?}", other),
    }
    match fails("print nil / 2;") {
        RuntimeError::ArgumentError(text) => assert_eq!(text, "Invalid operands for /: nil and 2"),
        other => panic!("unexpected {:?}", other),
    }
}

#[test]
fn messages_of_operands_that_do_not_fit() {
    match fails("print \"a\" + 1;") {
        RuntimeError::ArgumentError(text) => assert_eq!(text, "Expected string, but got 1"),
        other => panic!("unexpected {:?}", other),
    }
    match fails("print 1 + true;") {
        RuntimeError::ArgumentError(text) => assert_eq!(text, "Expected number, but got true"),
        other => panic!("unexpected {:?}", other),
    }
    match fails("print true + \"a\";") {
        RuntimeError::ArgumentError(text) => assert_eq!(text, "Invalid operands for +: true and a"),
        other => panic!("unexpected {:?}", other),
    }
    match fails("print \"a\" - \"b\";") {
        RuntimeError::ArgumentError(text) => assert_eq!(text, "Invalid operands for -: a and b"),
        other => panic!("unexpected {:?}", other),
    }
    match fails("print nil * 2.5;") {
        RuntimeError::ArgumentError(text) => assert_eq!(text, "Invalid operands for *: nil and 2.5"),
        other => panic!("unexpected {:?}", other),
    }
    match fails("print -\"a\";") {
        RuntimeError::ArgumentError(text) => assert_eq!(text, "Expected number, but got a"),
        other => panic!("unexpected {:?}", other),
    }
}

#[test]
fn nan_is_not_equal_to_itself() {
    let huge = "1".to_string() + &"0".repeat(400);
    let source = format!("var inf = {}; var nan = inf - inf; print nan == nan; print nan != nan; print inf == inf;", huge);
    assert_eq!(prints(&source), vec!["false", "true", "true"]);
    let nan_bits = f64::NAN.to_bits();
    assert_ne!(Value::Number(nan_bits), Value::Number(nan_bits));
    assert!(nan(nan_bits));
    assert!(!equal(nan_bits, nan_bits));
    assert!(!less(nan_bits, 1f64.to_bits()));
    assert!(!less(1f64.to_bits(), nan_bits));
}

#[test]
fn undefined_names_stop_the_program() {
    match fails("print ghost;") {
        RuntimeError::UndefinedVariable(text) => assert_eq!(text, "ghost variable is not defined"),
        other => panic!("unexpected {:?}", other),
    }
    match fails("ghost = 1;") {
        RuntimeError::UndefinedVariable(text) => assert_eq!(text, "ghost variable is not defined"),
        other => panic!("unexpected {:?}", other),
    }
}

#[test]
fn comparisons_of_numbers_and_of_other_values() {
    assert_eq!(
        prints("print 1 < 2; print 2 <= 2; print 3 > 4; print 4 >= 5; print -1 < 0; print -2 < -1;"),
        vec!["true", "true", "false", "false", "true", "true"]
    );
    assert_eq!(
        prints("print \"a\" < \"b\"; print nil <= nil; print true > false; print 1 >= \"1\";"),
        vec!["false", "false", "false", "false"]
    );
    assert_eq!(
        prints("print 1 == 1; print 1 == \"1\"; print nil == nil; print \"a\" == \"a\"; print true != false; print 0 == -0;"),
        vec!["true", "false", "true", "true", "true", "true"]
    );
}

#[test]
fn the_order_of_numbers_on_their_bits() {
    let samples = [
        f64::NEG_INFINITY,
        -1e300,
        -2.5,
        -1.0,
        -f64::MIN_POSITIVE,
        -0.0,
        0.0,
        5e-324,
        1.0,
        1.5,
        1e300,
        f64::INFINITY,
        f64::NAN,
    ];
    for a in samples {
        for b in samples {
            assert_eq!(less(a.to_bits(), b.to_bits()), a < b, "{} < {}", a, b);
            assert_eq!(equal(a.to_bits(), b.to_bits()), a == b, "{} == {}", a, b);
        }
        assert_eq!(f64::from_bits(negate(a.to_bits())).to_bits(), (-a).to_bits());
        assert_eq!(zero(a.to_bits()), a == 0.0);
        assert_eq!(nan(a.to_bits()), a.is_nan());
    }
}

#[test]
fn truthiness() {
    assert_eq!(
        prints("print !nil; print !false; print !0; print !\"\"; print !true;"),
        vec!["true", "true", "false", "false", "false"]
    );
    assert!(Value::Number(0f64.to_bits()).truthy());
    assert!(Value::String(String::new()).truthy());
    assert!(!Value::Boolean(false).truthy());
    assert!(!Value::Nil.truthy());
}

#[test]
fn values_as_text() {
    assert_eq!(Value::Number(7f64.to_bits()).to_string("7"), "7");
    assert_eq!(Value::String("a".to_string()).to_string("unused"), "a");
    assert_eq!(Value::Boolean(true).to_string(""), "true");
    assert_eq!(Value::Boolean(false).to_string(""), "false");
    assert_eq!(Value::Nil.to_string(""), "nil");
    assert_eq!(Value::String("a".to_string()).clone(), Value::String("a".to_string()));
    assert_eq!(RuntimeError::ZeroDivision("z".to_string()).clone().to_string(), "z");
    assert_eq!(RuntimeError::ArgumentError("a".to_string()).to_string(), "a");
    assert_eq!(RuntimeError::UnknownOperatorError("u".to_string()).to_string(), "u");
    assert_eq!(RuntimeError::UndefinedVariable("v".to_string()).to_string(), "v");
}

#[test]
fn a_block_leaves_the_enclosing_scopes_as_they_were() {
    let mut vm = Vm::new();
    let (_, _, failure) = run_in(&mut vm, "var a = 1; var b = 2; { var c = 3; var a = 4; b = 5; { var d = 6; } }");
    assert!(failure.is_none());
    assert_eq!(vm.environment().depth(), 0);
    assert_eq!(vm.environment().get("a").unwrap(), Value::Number(1f64.to_bits()));
    assert_eq!(vm.environment().get("b").unwrap(), Value::Number(5f64.to_bits()));
    assert!(vm.environment().get("c").is_err());
    assert!(vm.environment().get("d").is_err());
}

#[test]
fn an_error_inside_blocks_closes_their_scopes() {
    let mut vm = Vm::new();
    let (output, _, failure) = run_in(&mut vm, "var a = 1; { var a = 2; { var b = 3; print a; print ghost; } }");
    assert_eq!(output, vec!["2"]);
    assert!(matches!(failure, Some(RuntimeError::UndefinedVariable(_))));
    assert_eq!(vm.environment().depth(), 0);
    assert_eq!(vm.environment().get("a").unwrap(), Value::Number(1f64.to_bits()));
    assert!(vm.environment().get("b").is_err());
    let (output, _, failure) = run_in(&mut vm, "print a;");
    assert_eq!(output, vec!["1"]);
    assert!(failure.is_none());
}

#[test]
fn evaluating_twice_gives_the_same() {
    let mut vm = Vm::new();
    let (output, _, failure) = run_in(
        &mut vm,
        "var x = 3; var s = \"a\"; print (x * 2 - 1) / 4 <= x or s + s == \"aa\"; print (x * 2 - 1) / 4 <= x or s + s == \"aa\"; print x; print s;",
    );
    assert!(failure.is_none());
    assert_eq!(output, vec!["true", "true", "3", "a"]);
}

#[test]
fn the_first_error_ends_the_batch() {
    let (output, errors, failure) = run("print 1; print nil - 1; print 2;");
    assert!(errors.is_empty());
    assert_eq!(output, vec!["1"]);
    assert!(matches!(failure, Some(RuntimeError::ArgumentError(_))));
}

#[test]
fn variables_last_from_one_batch_to_the_next() {
    let mut vm = Vm::new();
    run_in(&mut vm, "var total = 1;");
    run_in(&mut vm, "total = total + 41;");
    let (output, _, _) = run_in(&mut vm, "print total;");
    assert_eq!(output, vec!["42"]);
}

#[test]
fn numbers_are_printed_as_the_host_writes_them() {
    assert_eq!(prints("print 1.50; print 007; print 10 / 4; print -3; print 0.1 + 0.2;"), vec!["1.5", "7", "2.5", "-3", "0.30000000000000004"]);
}

#[test]
fn string_literals_are_taken_as_they_stand() {
    assert_eq!(prints("print \"a\\nb\";"), vec!["a\\nb"]);
    assert_eq!(prints("print \"two\nlines\";"), vec!["two\nlines"]);
}

#[test]
fn a_long_loop_runs_to_its_end() {
    assert_eq!(
        prints("var n = 0; var sum = 0; while (n < 20000) { n = n + 1; sum = sum + n; } print sum;"),
        vec!["200010000"]
    );
}

#[test]
fn nested_blocks_and_loops() {
    assert_eq!(
        prints("var i = 0; while (i < 3) { var j = 0; while (j < i) { print i * 10 + j; j = j + 1; } i = i + 1; }"),
        vec!["10", "20", "21"]
    );
    assert_eq!(
        prints("var a = \"outer\"; { var b = a; { var a = \"inner\"; print a; print b; } a = \"changed\"; } print a;"),
        vec!["inner", "outer", "changed"]
    );
}

#[test]
fn a_declaration_is_no_loop_body() {
    let (output, errors, failure) = run("var n = 0; while (n < 5) var n = n + 1; print n;");
    assert!(output.is_empty());
    assert!(failure.is_none());
    assert_eq!(errors, vec!["[line 1] Error: Expected ';' after value.".to_string()]);
}
