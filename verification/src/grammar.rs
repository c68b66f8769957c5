//! The grammar, told as functions from tokens to syntax trees: what parsing a
//! list of tokens gives, diagnostics and recovery included.

use crate::ast::{ExprView, LiteralView, StatementView};
use crate::text::decimal;
use crate::token::TokenView;
use vstd::prelude::*;

verus! {

/// The token at `pos`; behind the last token the end-of-input mark.
pub open spec fn at(tokens: Seq<TokenView>, pos: nat) -> TokenView {
    if pos < tokens.len() {
        tokens[pos as int]
    } else {
        TokenView::Eof
    }
}

/// How many tokens stand at or behind `pos`.
pub open spec fn remaining(tokens: Seq<TokenView>, pos: nat) -> nat {
    if pos < tokens.len() {
        (tokens.len() - pos) as nat
    } else {
        0
    }
}

/// The line that a diagnostic at `pos` names: that of the token before
/// `pos`, or of the first token when there is none before.
pub open spec fn line_before(tokens: Seq<TokenView>, pos: nat) -> nat {
    if 0 < pos <= tokens.len() {
        tokens[pos - 1].line()
    } else {
        at(tokens, 0).line()
    }
}

/// A diagnostic without a place in the line.
pub open spec fn parse_error(line: nat, message: Seq<char>) -> Seq<char> {
    "[line "@ + decimal(line) + "] Error: "@ + message
}

/// A diagnostic that names the lexeme it was found at.
pub open spec fn parse_error_at(line: nat, lexeme: Seq<char>, message: Seq<char>) -> Seq<char> {
    "[line "@ + decimal(line) + "] Error at '"@ + lexeme + "': "@ + message
}

/// What parsing one piece of the grammar gives: the piece, how many tokens
/// it took, and the diagnostics it recorded on the way.
pub struct Parsed<T> {
    pub value: T,
    pub used: nat,
    pub errors: Seq<Seq<char>>,
}

/// The levels of operators that stand between two operands, loosest first.
#[derive(Clone, Copy)]
pub enum Level {
    Or,
    And,
    Equality,
    Comparison,
    Term,
    Factor,
}

impl Level {
    /// A number that falls as the operators bind tighter.
    pub open spec fn rank(self) -> nat {
        match self {
            Level::Or => 18,
            Level::And => 15,
            Level::Equality => 12,
            Level::Comparison => 9,
            Level::Term => 6,
            Level::Factor => 3,
        }
    }

    /// Whether `token` is an operator of this level.
    pub open spec fn has(self, token: TokenView) -> bool {
        match self {
            Level::Or => token is Or,
            Level::And => token is And,
            Level::Equality => token is BangEqual || token is EqualEqual,
            Level::Comparison => token is Greater || token is GreaterEqual || token is Less
                || token is LessEqual,
            Level::Term => token is Minus || token is Plus,
            Level::Factor => token is Slash || token is Star,
        }
    }

    /// The node for two operands joined at this level: `and` and `or` make
    /// a logical node, the others a binary one.
    pub open spec fn join(self, left: ExprView, operator: TokenView, right: ExprView) -> ExprView {
        match self {
            Level::Or | Level::And => ExprView::Logical {
                left: Box::new(left),
                operator,
                right: Box::new(right),
            },
            _ => ExprView::Binary { left: Box::new(left), operator, right: Box::new(right) },
        }
    }
}

/// expression := assignment
#[verifier::opaque]
pub open spec fn expression(tokens: Seq<TokenView>, pos: nat) -> Parsed<ExprView>
    decreases remaining(tokens, pos), 20nat,
{
    assignment(tokens, pos)
}

/// assignment := logic_or ( "=" assignment )?
///
/// The value is parsed whatever stands on the left. If that is a variable
/// the result assigns to it; if not, the left side is the result and a
/// diagnostic is recorded.
#[verifier::opaque]
pub open spec fn assignment(tokens: Seq<TokenView>, pos: nat) -> Parsed<ExprView>
    decreases remaining(tokens, pos), 19nat,
{
    let target = infix(tokens, pos, Level::Or);
    let mid = pos + target.used;
    if at(tokens, mid) is Equal {
        let value = assignment(tokens, mid + 1);
        let used = target.used + 1 + value.used;
        match target.value {
            ExprView::Variable { token } => Parsed {
                value: ExprView::Assignment { name: token, value: Box::new(value.value) },
                used,
                errors: target.errors + value.errors,
            },
            _ => Parsed {
                value: target.value,
                used,
                errors: target.errors + value.errors + seq![
                    parse_error(line_before(tokens, pos + used), "Invalid assignment target."@),
                ],
            },
        }
    } else {
        target
    }
}

/// One level of left-associative operators: an operand, then any number of
/// operators of the level, each with its operand.
#[verifier::opaque]
pub open spec fn infix(tokens: Seq<TokenView>, pos: nat, level: Level) -> Parsed<ExprView>
    decreases remaining(tokens, pos), level.rank(),
{
    infix_rest(tokens, pos, operand(tokens, pos, level), level)
}

/// The operand of a level: the next tighter level, and below the tightest
/// a unary expression.
#[verifier::opaque]
pub open spec fn operand(tokens: Seq<TokenView>, pos: nat, level: Level) -> Parsed<ExprView>
    decreases remaining(tokens, pos), (level.rank() - 1) as nat,
{
    match level {
        Level::Or => infix(tokens, pos, Level::And),
        Level::And => infix(tokens, pos, Level::Equality),
        Level::Equality => infix(tokens, pos, Level::Comparison),
        Level::Comparison => infix(tokens, pos, Level::Term),
        Level::Term => infix(tokens, pos, Level::Factor),
        Level::Factor => unary(tokens, pos),
    }
}

/// Goes on from `left`, which began at `start`, while an operator of the
/// level follows.
#[verifier::opaque]
pub open spec fn infix_rest(
    tokens: Seq<TokenView>,
    start: nat,
    left: Parsed<ExprView>,
    level: Level,
) -> Parsed<ExprView>
    decreases remaining(tokens, start + left.used), (level.rank() - 1) as nat,
{
    let here = start + left.used;
    if level.has(at(tokens, here)) {
        let right = operand(tokens, here + 1, level);
        infix_rest(
            tokens,
            start,
            Parsed {
                value: level.join(left.value, at(tokens, here), right.value),
                used: left.used + 1 + right.used,
                errors: left.errors + right.errors,
            },
            level,
        )
    } else {
        left
    }
}

/// unary := ("!" | "-") unary | primary
#[verifier::opaque]
pub open spec fn unary(tokens: Seq<TokenView>, pos: nat) -> Parsed<ExprView>
    decreases remaining(tokens, pos), 1nat,
{
    if at(tokens, pos) is Bang || at(tokens, pos) is Minus {
        let right = unary(tokens, pos + 1);
        Parsed {
            value: ExprView::Unary { operator: at(tokens, pos), right: Box::new(right.value) },
            used: 1 + right.used,
            errors: right.errors,
        }
    } else {
        primary(tokens, pos)
    }
}

/// The value that a token writes out, if it is a literal.
pub open spec fn literal_value(token: TokenView) -> Option<LiteralView> {
    match token {
        TokenView::False { value, .. } => Some(LiteralView::Boolean(value)),
        TokenView::True { value, .. } => Some(LiteralView::Boolean(value)),
        TokenView::Nil { .. } => Some(LiteralView::Nil),
        TokenView::Number { value, .. } => Some(LiteralView::Number(value)),
        TokenView::String { value, .. } => Some(LiteralView::String(value)),
        _ => None,
    }
}

/// An expression that is a single literal.
pub open spec fn literal(value: LiteralView) -> Parsed<ExprView> {
    Parsed { value: ExprView::Literal { value }, used: 1, errors: Seq::empty() }
}

/// The diagnostic for a parenthesis that is not closed at `pos`.
pub open spec fn unclosed_group(tokens: Seq<TokenView>, pos: nat) -> Seq<char> {
    if at(tokens, pos) is Eof {
        parse_error(line_before(tokens, pos), "Expected ')' after expression."@)
    } else {
        parse_error_at(at(tokens, pos).line(), "("@, "Expect ')' after expression."@)
    }
}

/// The rest of `"(" expression ")"`, behind the opening parenthesis. A
/// parenthesis that is not closed is recorded, and the group stands as far
/// as it was read.
#[verifier::opaque]
pub open spec fn group(tokens: Seq<TokenView>, pos: nat) -> Parsed<ExprView>
    decreases remaining(tokens, pos), 21nat,
{
    let inner = expression(tokens, pos);
    let end = pos + inner.used;
    let node = ExprView::Grouping { expression: Box::new(inner.value) };
    if at(tokens, end) is RightParen {
        Parsed { value: node, used: inner.used + 1, errors: inner.errors }
    } else {
        Parsed {
            value: node,
            used: inner.used,
            errors: inner.errors + seq![unclosed_group(tokens, end)],
        }
    }
}

/// primary := "true" | "false" | "nil" | NUMBER | STRING | IDENT
///          | "(" expression ")"
///
/// Where none of these stands, the result is the literal `nil` and no token
/// is taken.
#[verifier::opaque]
pub open spec fn primary(tokens: Seq<TokenView>, pos: nat) -> Parsed<ExprView>
    decreases remaining(tokens, pos), 0nat,
{
    match literal_value(at(tokens, pos)) {
        Some(value) => literal(value),
        None => match at(tokens, pos) {
            TokenView::Identifier(name) => Parsed {
                value: ExprView::Variable { token: name },
                used: 1,
                errors: Seq::empty(),
            },
            TokenView::LeftParen { .. } => behind_keyword(group(tokens, pos + 1)),
            _ => Parsed {
                value: ExprView::Literal { value: LiteralView::Nil },
                used: 0,
                errors: Seq::empty(),
            },
        },
    }
}

/// A statement, or the diagnostic that says why there is none.
pub type Outcome = Result<StatementView, Seq<char>>;

/// A statement that failed after `used` tokens.
pub open spec fn failed(used: nat, errors: Seq<Seq<char>>, message: Seq<char>) -> Parsed<Outcome> {
    Parsed { value: Err(message), used, errors }
}

/// The rest of `"var" IDENT "=" expression ";"`, behind the keyword. The
/// token in the place of the name is taken whatever it is.
#[verifier::opaque]
pub open spec fn var_declaration(tokens: Seq<TokenView>, pos: nat) -> Parsed<Outcome> {
    let taken: nat = if at(tokens, pos) is Eof {
        0
    } else {
        1
    };
    match at(tokens, pos) {
        TokenView::Identifier(name) => {
            if at(tokens, pos + 1) is Equal {
                let value = expression(tokens, pos + 2);
                let end = pos + 2 + value.used;
                if at(tokens, end) is Semicolon {
                    Parsed {
                        value: Ok(StatementView::Variable { name, value: value.value }),
                        used: value.used + 3,
                        errors: value.errors,
                    }
                } else {
                    failed(
                        value.used + 2,
                        value.errors,
                        parse_error(name.line, "Expected ';' after variable declaration."@),
                    )
                }
            } else {
                failed(
                    1,
                    Seq::empty(),
                    parse_error(name.line, "Expected '=' after variable name."@),
                )
            }
        },
        _ => failed(
            taken,
            Seq::empty(),
            parse_error(line_before(tokens, pos + taken), "Expected variable name."@),
        ),
    }
}

/// The rest of `"print" expression ";"`, behind the keyword.
#[verifier::opaque]
pub open spec fn print_statement(tokens: Seq<TokenView>, pos: nat) -> Parsed<Outcome> {
    let value = expression(tokens, pos);
    let end = pos + value.used;
    if at(tokens, end) is Semicolon {
        Parsed {
            value: Ok(StatementView::Print { expression: value.value }),
            used: value.used + 1,
            errors: value.errors,
        }
    } else {
        failed(
            value.used,
            value.errors,
            parse_error(line_before(tokens, end), "Expected ';' after value."@),
        )
    }
}

/// `expression ";"`
#[verifier::opaque]
pub open spec fn expression_statement(tokens: Seq<TokenView>, pos: nat) -> Parsed<Outcome> {
    let value = expression(tokens, pos);
    let end = pos + value.used;
    if at(tokens, end) is Semicolon {
        Parsed {
            value: Ok(StatementView::Expression { expression: value.value }),
            used: value.used + 1,
            errors: value.errors,
        }
    } else {
        failed(
            value.used,
            value.errors,
            parse_error(line_before(tokens, end), "Expected ';' after value."@),
        )
    }
}

/// declaration := "var" IDENT "=" expression ";" | statement
#[verifier::opaque]
pub open spec fn declaration(tokens: Seq<TokenView>, pos: nat) -> Parsed<Outcome>
    decreases remaining(tokens, pos), 9nat,
{
    if at(tokens, pos) is Var {
        behind_keyword(var_declaration(tokens, pos + 1))
    } else {
        statement(tokens, pos)
    }
}

/// statement := "if" .. | "print" .. | "while" .. | "{" .. | expression ";"
#[verifier::opaque]
pub open spec fn statement(tokens: Seq<TokenView>, pos: nat) -> Parsed<Outcome>
    decreases remaining(tokens, pos), 8nat,
{
    if at(tokens, pos) is If {
        behind_keyword(if_statement(tokens, pos + 1))
    } else if at(tokens, pos) is Print {
        behind_keyword(print_statement(tokens, pos + 1))
    } else if at(tokens, pos) is While {
        behind_keyword(while_statement(tokens, pos + 1))
    } else if at(tokens, pos) is LeftBrace {
        behind_keyword(block(tokens, pos + 1))
    } else {
        expression_statement(tokens, pos)
    }
}

/// A piece of the grammar with the token that opened it counted in.
pub open spec fn behind_keyword<T>(rest: Parsed<T>) -> Parsed<T> {
    Parsed { value: rest.value, used: rest.used + 1, errors: rest.errors }
}

/// The rest of `"if" "(" expression ")" statement ( "else" statement )?`,
/// behind the keyword. An `else` belongs to the nearest `if`.
#[verifier::opaque]
pub open spec fn if_statement(tokens: Seq<TokenView>, pos: nat) -> Parsed<Outcome>
    decreases remaining(tokens, pos), 7nat,
{
    if !(at(tokens, pos) is LeftParen) {
        failed(
            0,
            Seq::empty(),
            parse_error(line_before(tokens, pos), "Expected '(' after 'if'."@),
        )
    } else {
        let condition = expression(tokens, pos + 1);
        let close = pos + 1 + condition.used;
        if !(at(tokens, close) is RightParen) {
            failed(
                condition.used + 1,
                condition.errors,
                parse_error(line_before(tokens, close), "Expected ')' after if condition."@),
            )
        } else {
            let then = statement(tokens, close + 1);
            let used = condition.used + 2 + then.used;
            let errors = condition.errors + then.errors;
            match then.value {
                Err(message) => failed(used, errors, message),
                Ok(then_branch) => if at(tokens, pos + used) is Else {
                    let other = statement(tokens, pos + used + 1);
                    match other.value {
                        Err(message) => failed(
                            used + 1 + other.used,
                            errors + other.errors,
                            message,
                        ),
                        Ok(else_branch) => Parsed {
                            value: Ok(
                                StatementView::If {
                                    condition: condition.value,
                                    then_branch: Box::new(then_branch),
                                    else_branch: Some(Box::new(else_branch)),
                                },
                            ),
                            used: used + 1 + other.used,
                            errors: errors + other.errors,
                        },
                    }
                } else {
                    Parsed {
                        value: Ok(
                            StatementView::If {
                                condition: condition.value,
                                then_branch: Box::new(then_branch),
                                else_branch: None,
                            },
                        ),
                        used,
                        errors,
                    }
                },
            }
        }
    }
}

/// The rest of `"while" "(" expression ")" statement`, behind the keyword.
#[verifier::opaque]
pub open spec fn while_statement(tokens: Seq<TokenView>, pos: nat) -> Parsed<Outcome>
    decreases remaining(tokens, pos), 7nat,
{
    if !(at(tokens, pos) is LeftParen) {
        failed(
            0,
            Seq::empty(),
            parse_error(line_before(tokens, pos), "Expected '(' after 'while'."@),
        )
    } else {
        let condition = expression(tokens, pos + 1);
        let close = pos + 1 + condition.used;
        if !(at(tokens, close) is RightParen) {
            failed(
                condition.used + 1,
                condition.errors,
                parse_error(line_before(tokens, close), "Expected ')' after while condition."@),
            )
        } else {
            let body = statement(tokens, close + 1);
            let used = condition.used + 2 + body.used;
            let errors = condition.errors + body.errors;
            match body.value {
                Err(message) => failed(used, errors, message),
                Ok(inner) => Parsed {
                    value: Ok(
                        StatementView::While { condition: condition.value, body: Box::new(inner) },
                    ),
                    used,
                    errors,
                },
            }
        }
    }
}

/// The statements of a block up to its closing brace, or the diagnostic of
/// the first that fails, or of the end of the input if it comes first.
pub struct Items {
    pub statements: Seq<StatementView>,
    pub failure: Option<Seq<char>>,
    pub used: nat,
    pub errors: Seq<Seq<char>>,
}

/// How far the cursor moves over a statement that took `used` tokens. A
/// statement takes at least one (see `law_statement_takes_a_token`), so
/// this is `used`.
pub open spec fn stride(used: nat) -> nat {
    if used == 0 {
        1
    } else {
        used
    }
}

/// The declarations of a block, behind its opening brace, up to and with
/// the closing brace.
#[verifier::opaque]
pub open spec fn block_items(tokens: Seq<TokenView>, pos: nat) -> Items
    decreases remaining(tokens, pos), 10nat,
{
    if at(tokens, pos) is RightBrace {
        Items { statements: Seq::empty(), failure: None, used: 1, errors: Seq::empty() }
    } else if at(tokens, pos) is Eof {
        Items {
            statements: Seq::empty(),
            failure: Some(
                parse_error(line_before(tokens, pos), "Expected '}' after block, but found EOF"@),
            ),
            used: 0,
            errors: Seq::empty(),
        }
    } else {
        let first = declaration(tokens, pos);
        match first.value {
            Err(message) => Items {
                statements: Seq::empty(),
                failure: Some(message),
                used: first.used,
                errors: first.errors,
            },
            Ok(one) => {
                let rest = block_items(tokens, pos + stride(first.used));
                Items {
                    statements: seq![one] + rest.statements,
                    failure: rest.failure,
                    used: stride(first.used) + rest.used,
                    errors: first.errors + rest.errors,
                }
            },
        }
    }
}

/// The rest of `"{" declaration* "}"`, behind the opening brace.
#[verifier::opaque]
pub open spec fn block(tokens: Seq<TokenView>, pos: nat) -> Parsed<Outcome>
    decreases remaining(tokens, pos), 11nat,
{
    let items = block_items(tokens, pos);
    Parsed {
        value: match items.failure {
            Some(message) => Err(message),
            None => Ok(StatementView::Block { statements: items.statements }),
        },
        used: items.used,
        errors: items.errors,
    }
}

/// A token that a statement may begin with, or the end of the input.
pub open spec fn starts_statement(token: TokenView) -> bool {
    token is Eof || token is Class || token is Fun || token is Var || token is For || token is If
        || token is While || token is Print || token is Return
}

/// Where the search for a statement boundary stops, from `pos` on: behind a
/// semicolon, before a token that begins a statement, or at the end.
#[verifier::opaque]
pub open spec fn boundary(tokens: Seq<TokenView>, pos: nat) -> nat
    decreases remaining(tokens, pos),
{
    if pos >= tokens.len() {
        pos
    } else if pos > 0 && tokens[pos - 1] is Semicolon {
        pos
    } else if starts_statement(tokens[pos as int]) {
        pos
    } else {
        boundary(tokens, pos + 1)
    }
}

/// Where parsing goes on after a statement failed at `pos`: one token is
/// passed over in any case, unless the input ends there, then the cursor
/// moves to the next boundary.
#[verifier::opaque]
pub open spec fn synchronize(tokens: Seq<TokenView>, pos: nat) -> nat {
    if at(tokens, pos) is Eof {
        boundary(tokens, pos)
    } else {
        boundary(tokens, pos + 1)
    }
}

/// The statements of a program and the diagnostics of parsing it.
pub struct Program {
    pub statements: Seq<StatementView>,
    pub errors: Seq<Seq<char>>,
}

/// Parses declarations from `pos` to the end of the input. One that fails
/// leaves its diagnostic behind those it recorded itself, and parsing goes
/// on where `synchronize` says.
#[verifier::opaque]
pub open spec fn program(tokens: Seq<TokenView>, pos: nat) -> Program
    decreases remaining(tokens, pos),
{
    if at(tokens, pos) is Eof {
        Program { statements: Seq::empty(), errors: Seq::empty() }
    } else {
        let first = declaration(tokens, pos);
        match first.value {
            Ok(one) => {
                proof {
                    law_statement_takes_a_token(tokens, pos);
                }
                let rest = program(tokens, pos + first.used);
                Program {
                    statements: seq![one] + rest.statements,
                    errors: first.errors + rest.errors,
                }
            },
            Err(message) => {
                proof {
                    lemma_synchronize_is_ahead(tokens, pos + first.used);
                }
                let rest = program(tokens, synchronize(tokens, pos + first.used));
                Program {
                    statements: rest.statements,
                    errors: first.errors + seq![message] + rest.errors,
                }
            },
        }
    }
}

/// The next boundary is never behind the cursor, nor beyond the end when
/// the cursor is not.
pub proof fn lemma_boundary_is_ahead(tokens: Seq<TokenView>, pos: nat)
    ensures
        pos <= boundary(tokens, pos),
        pos <= tokens.len() ==> boundary(tokens, pos) <= tokens.len(),
    decreases remaining(tokens, pos),
{
    reveal(boundary);
    if pos < tokens.len() && !(pos > 0 && tokens[pos - 1] is Semicolon) && !starts_statement(
        tokens[pos as int],
    ) {
        lemma_boundary_is_ahead(tokens, pos + 1);
    }
}

/// A statement that parses takes at least one token.
pub proof fn law_statement_takes_a_token(tokens: Seq<TokenView>, pos: nat)
    ensures
        declaration(tokens, pos).value is Ok ==> declaration(tokens, pos).used > 0,
        declaration(tokens, pos).value is Ok ==> stride(declaration(tokens, pos).used)
            == declaration(tokens, pos).used,
{
    reveal(declaration);
    reveal(statement);
    reveal(expression_statement);
}

/// The search for a statement boundary ends behind a semicolon, before a
/// token that a statement may begin with, or at the end of the tokens.
pub proof fn law_boundary(tokens: Seq<TokenView>, pos: nat)
    ensures
        ({
            let found = boundary(tokens, pos);
            ||| found >= tokens.len()
            ||| found > 0 && tokens[found - 1] is Semicolon
            ||| starts_statement(tokens[found as int])
        }),
    decreases remaining(tokens, pos),
{
    reveal(boundary);
    if pos < tokens.len() && !(pos > 0 && tokens[pos - 1] is Semicolon) && !starts_statement(
        tokens[pos as int],
    ) {
        law_boundary(tokens, pos + 1);
    }
}

/// A value that no semicolon follows makes one diagnostic, behind those of
/// the expression itself: the statement fails with it, and the program goes
/// on at the boundary that `synchronize` finds.
pub proof fn law_missing_semicolon(tokens: Seq<TokenView>, pos: nat)
    requires
        !(at(tokens, pos) is Eof),
        !(at(tokens, pos) is Var),
        !(at(tokens, pos) is If),
        !(at(tokens, pos) is Print),
        !(at(tokens, pos) is While),
        !(at(tokens, pos) is LeftBrace),
        !(at(tokens, pos + expression(tokens, pos).used) is Semicolon),
    ensures
        ({
            let value = expression(tokens, pos);
            let message = parse_error(
                line_before(tokens, pos + value.used),
                "Expected ';' after value."@,
            );
            let rest = program(tokens, synchronize(tokens, pos + value.used));
            &&& declaration(tokens, pos) == failed(value.used, value.errors, message)
            &&& program(tokens, pos).statements == rest.statements
            &&& program(tokens, pos).errors == value.errors + seq![message] + rest.errors
        }),
{
    reveal(declaration);
    reveal(statement);
    reveal(expression_statement);
    reveal(program);
}

/// Synchronizing never moves the cursor back, and moves it on unless the
/// input ends at it.
pub proof fn lemma_synchronize_is_ahead(tokens: Seq<TokenView>, pos: nat)
    ensures
        pos <= synchronize(tokens, pos),
        !(at(tokens, pos) is Eof) ==> pos < synchronize(tokens, pos),
{
    reveal(synchronize);
    lemma_boundary_is_ahead(tokens, pos);
    lemma_boundary_is_ahead(tokens, pos + 1);
}

} // verus!
