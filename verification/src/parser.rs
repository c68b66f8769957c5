//! The parser: recursive descent over a list of tokens, held to the grammar.

use crate::ast::{
    statement_views, Assignment, Binary, BlockStatement, Expr, ExpressionStatement, Grouping,
    IfStatement, Literal, LiteralValue, Logical, PrintStatement, Statement, StatementView, Unary,
    Variable, VariableStatement, WhileStatement,
};
use crate::grammar::{
    assignment, at, block, block_items, boundary, declaration, expression, expression_statement,
    group, if_statement, infix, infix_rest, lemma_synchronize_is_ahead, line_before, literal_value,
    operand, parse_error, parse_error_at, primary, print_statement, program, remaining,
    starts_statement, statement, synchronize, unary, var_declaration, while_statement, Level,
    Outcome, Parsed,
};
use crate::text::{decimal_text, texts};
use crate::token::{views, Identifier, Token, TokenView};
use vstd::prelude::*;
use vstd::string::*;

verus! {

/// Why a statement could not be parsed.
pub enum ParseError {
    /// A token that the grammar asks for is missing; the text says which.
    ExpectedTokenError(String),
}

impl ParseError {
    /// The diagnostic.
    pub open spec fn message(&self) -> Seq<char> {
        match *self {
            ParseError::ExpectedTokenError(text) => text@,
        }
    }

    /// The diagnostic as text.
    pub fn to_string(&self) -> (text: String)
        ensures
            text@ == self.message(),
    {
        match self {
            ParseError::ExpectedTokenError(text) => text.clone(),
        }
    }
}

/// The state of a parser, as contracts see it.
pub struct ParserView {
    /// The tokens being parsed.
    pub tokens: Seq<TokenView>,
    /// The first token not taken yet.
    pub current: nat,
    /// The caller's diagnostics, with those the parser has added.
    pub errors: Seq<Seq<char>>,
}

/// The state after `used` more tokens were taken and `errors` recorded.
pub open spec fn moved(state: ParserView, used: nat, errors: Seq<Seq<char>>) -> ParserView {
    ParserView {
        tokens: state.tokens,
        current: state.current + used,
        errors: state.errors + errors,
    }
}

/// What a parsing function returned, as contracts see it.
pub open spec fn outcome(result: Result<Statement, ParseError>) -> Outcome {
    match result {
        Ok(statement) => Ok(statement@),
        Err(error) => Err(error.message()),
    }
}

/// A recursive-descent parser over a list of tokens. Diagnostics go to the
/// caller's list; after a statement that fails, parsing goes on at the next
/// statement boundary.
pub struct Parser<'a> {
    current: usize,
    tokens: Vec<Token>,
    errors: &'a mut Vec<String>,
}

/// Writes a diagnostic for `line`.
fn diagnostic(line: usize, message: &str) -> (text: String)
    ensures
        text@ == parse_error(line as nat, message@),
{
    let mut text = String::from_str("[line ");
    let number = decimal_text(line);
    text.append(number.as_str());
    text.append("] Error: ");
    text.append(message);
    assert(text@ =~= parse_error(line as nat, message@));
    text
}

/// Writes a diagnostic for `line` that names a lexeme.
fn diagnostic_at(line: usize, lexeme: &str, message: &str) -> (text: String)
    ensures
        text@ == parse_error_at(line as nat, lexeme@, message@),
{
    let mut text = String::from_str("[line ");
    let number = decimal_text(line);
    text.append(number.as_str());
    text.append("] Error at '");
    text.append(lexeme);
    text.append("': ");
    text.append(message);
    assert(text@ =~= parse_error_at(line as nat, lexeme@, message@));
    text
}

/// Whether `token` is an operator of `level`.
fn is_operator(level: Level, token: &Token) -> (yes: bool)
    ensures
        yes == level.has(token@),
{
    match level {
        Level::Or => match token {
            Token::Or { .. } => true,
            _ => false,
        },
        Level::And => match token {
            Token::And { .. } => true,
            _ => false,
        },
        Level::Equality => match token {
            Token::BangEqual { .. } | Token::EqualEqual { .. } => true,
            _ => false,
        },
        Level::Comparison => match token {
            Token::Greater { .. } | Token::GreaterEqual { .. } | Token::Less { .. } | Token::LessEqual { .. } => true,
            _ => false,
        },
        Level::Term => match token {
            Token::Minus { .. } | Token::Plus { .. } => true,
            _ => false,
        },
        Level::Factor => match token {
            Token::Slash { .. } | Token::Star { .. } => true,
            _ => false,
        },
    }
}

/// Whether a statement may begin with `token`.
fn opens_statement(token: &Token) -> (yes: bool)
    ensures
        yes == starts_statement(token@),
{
    match token {
        Token::Eof | Token::Class { .. } | Token::Fun { .. } | Token::Var { .. } | Token::For { .. } | Token::If { .. } | Token::While { .. } | Token::Print { .. } | Token::Return { .. } => true,
        _ => false,
    }
}

/// The value that `token` writes out, if it is a literal.
fn literal_of(token: &Token) -> (value: Option<LiteralValue>)
    ensures
        match value {
            Some(literal) => literal_value(token@) == Some(literal@),
            None => literal_value(token@).is_none(),
        },
{
    match token {
        Token::False { value, .. } => Some(LiteralValue::Boolean(*value)),
        Token::True { value, .. } => Some(LiteralValue::Boolean(*value)),
        Token::Nil { .. } => Some(LiteralValue::Nil),
        Token::Number { value, .. } => Some(LiteralValue::Number(value.clone())),
        Token::String { value, .. } => Some(LiteralValue::String(value.clone())),
        _ => None,
    }
}

/// The name that `token` is, if it is an identifier.
fn name_of(token: &Token) -> (name: Option<Identifier>)
    ensures
        match name {
            Some(identifier) => token@ == TokenView::Identifier(identifier@),
            None => !(token@ is Identifier),
        },
{
    match token {
        Token::Identifier(name) => Some(name.clone()),
        _ => None,
    }
}

/// Whether `token` closes a group.
fn closes_group(token: &Token) -> (yes: bool)
    ensures
        yes == (token@ is RightParen),
{
    match token {
        Token::RightParen { .. } => true,
        _ => false,
    }
}

/// Whether `token` opens a group.
fn opens_group(token: &Token) -> (yes: bool)
    ensures
        yes == (token@ is LeftParen),
{
    match token {
        Token::LeftParen { .. } => true,
        _ => false,
    }
}

/// The node for two operands joined at `level`.
fn join(level: Level, left: Expr, operator: Token, right: Expr) -> (node: Expr)
    ensures
        node@ == level.join(left@, operator@, right@),
{
    match level {
        Level::Or | Level::And => Expr::Logical(
            Logical { left: Box::new(left), operator: Box::new(operator), right: Box::new(right) },
        ),
        _ => Expr::Binary(
            Binary { left: Box::new(left), operator: Box::new(operator), right: Box::new(right) },
        ),
    }
}

impl<'a> Parser<'a> {
    pub closed spec fn view(&self) -> ParserView {
        ParserView {
            tokens: views(self.tokens@),
            current: self.current as nat,
            errors: texts((*self.errors)@),
        }
    }

    /// The list that the diagnostics go to. What it holds once the parser
    /// has let go of it is what the caller reads.
    pub closed spec fn sink(&self) -> &'a mut Vec<String> {
        self.errors
    }

    /// The cursor stands at a token or right behind the last one.
    pub closed spec fn well_formed(&self) -> bool {
        self.current <= self.tokens@.len()
    }

    /// A parser at the first of `tokens` that will add its diagnostics to
    /// `errors`.
    pub fn new(tokens: Vec<Token>, errors: &'a mut Vec<String>) -> (parser: Parser<'a>)
        ensures
            parser.well_formed(),
            parser@ == (ParserView {
                tokens: views(tokens@),
                current: 0,
                errors: texts(old(errors)@),
            }),
            *final(parser.sink()) == *final(errors),
    {
        Parser { current: 0, tokens, errors }
    }

    /// Parses declarations up to the end of the input and returns those
    /// that parsed.
    pub fn parse(&mut self) -> (statements: Vec<Statement>)
        requires
            old(self).well_formed(),
        ensures
            final(self).well_formed(),
            statement_views(statements@) == program(old(self)@.tokens, old(self)@.current).statements,
            final(self)@.errors == old(self)@.errors + program(
                old(self)@.tokens,
                old(self)@.current,
            ).errors,
            final(self)@.tokens == old(self)@.tokens,
            at(final(self)@.tokens, final(self)@.current) is Eof,
            *final(final(self).sink()) == *final(old(self).sink()),
    {
        let ghost before = self@;
        let ghost goal = program(before.tokens, before.current);
        let mut statements: Vec<Statement> = Vec::new();
        let ghost mut errors: Seq<Seq<char>> = Seq::empty();
        assert(statement_views(statements@) + goal.statements =~= goal.statements);
        assert(errors + goal.errors =~= goal.errors);
        assert(before.errors + errors =~= before.errors);
        while !self.at_end()
            invariant
                self.well_formed(),
                before == old(self)@,
                self@.tokens == before.tokens,
                self@.errors == before.errors + errors,
                goal.statements == statement_views(statements@) + program(
                    before.tokens,
                    self@.current,
                ).statements,
                goal.errors == errors + program(before.tokens, self@.current).errors,
                *final(self.sink()) == *final(old(self).sink()),
            decreases remaining(before.tokens, self@.current),
        {
            reveal(program);
            let ghost here = self@;
            let ghost first = declaration(here.tokens, here.current);
            let ghost done = statement_views(statements@);
            match self.declaration() {
                Ok(statement) => {
                    statements.push(statement);
                    proof {
                        let rest = program(here.tokens, here.current + first.used);
                        assert(statement_views(statements@) =~= done.push(statement@));
                        assert(done + (seq![statement@] + rest.statements) =~= done.push(
                            statement@,
                        ) + rest.statements);
                        assert(errors + (first.errors + rest.errors) =~= (errors + first.errors)
                            + rest.errors);
                        assert(before.errors + (errors + first.errors) =~= (before.errors + errors)
                            + first.errors);
                        errors = errors + first.errors;
                    }
                },
                Err(error) => {
                    let message = error.to_string();
                    self.report(message);
                    let ghost noted = self@;
                    self.synchronize();
                    proof {
                        lemma_synchronize_is_ahead(here.tokens, here.current + first.used);
                        let rest = program(
                            here.tokens,
                            synchronize(here.tokens, here.current + first.used),
                        );
                        assert(noted.errors =~= before.errors + (errors + first.errors + seq![
                            message@,
                        ]));
                        assert(errors + (first.errors + seq![message@] + rest.errors) =~= (errors
                            + first.errors + seq![message@]) + rest.errors);
                        errors = errors + first.errors + seq![message@];
                    }
                },
            }
        }
        proof {
            reveal(program);
            assert(statement_views(statements@) + Seq::<StatementView>::empty()
                =~= statement_views(statements@));
            assert(errors + Seq::<Seq<char>>::empty() =~= errors);
        }
        statements
    }

    /// Adds `message` to the diagnostics.
    fn report(&mut self, message: String)
        ensures
            final(self)@ == moved(old(self)@, 0, seq![message@]),
            final(self).well_formed() == old(self).well_formed(),
            *final(final(self).sink()) == *final(old(self).sink()),
    {
        self.errors.push(message);
        assert(texts((*self.errors)@) =~= texts((*old(self).errors)@) + seq![message@]);
    }

    /// Whether the input ends at the cursor.
    fn at_end(&self) -> (yes: bool)
        requires
            self.well_formed(),
        ensures
            yes == (at(self@.tokens, self@.current) is Eof),
    {
        match self.peek() {
            Some(Token::Eof) | None => true,
            _ => false,
        }
    }

    /// The line that a diagnostic at the cursor names.
    fn previous_line(&self) -> (line: usize)
        requires
            self.well_formed(),
        ensures
            line == line_before(self@.tokens, self@.current),
    {
        match self.previous() {
            Some(token) => token.line(),
            None => if self.tokens.len() > 0 {
                self.tokens[0].line()
            } else {
                0
            },
        }
    }

    /// declaration := "var" IDENT "=" expression ";" | statement
    fn declaration(&mut self) -> (result: Result<Statement, ParseError>)
        requires
            old(self).well_formed(),
        ensures
            final(self).well_formed(),
            outcome(result) == declaration(old(self)@.tokens, old(self)@.current).value,
            final(self)@ == moved(
                old(self)@,
                declaration(old(self)@.tokens, old(self)@.current).used,
                declaration(old(self)@.tokens, old(self)@.current).errors,
            ),
            result is Ok ==> declaration(old(self)@.tokens, old(self)@.current).used > 0,
            *final(final(self).sink()) == *final(old(self).sink()),
        decreases remaining(old(self)@.tokens, old(self)@.current), 9nat,
    {
        reveal(declaration);
        reveal(statement);
        match self.peek() {
            Some(Token::Var { .. }) => {
                self.advance();
                self.var_declaration()
            },
            _ => self.statement(),
        }
    }

    /// The rest of a variable declaration, behind `var`.
    fn var_declaration(&mut self) -> (result: Result<Statement, ParseError>)
        requires
            old(self).well_formed(),
        ensures
            final(self).well_formed(),
            outcome(result) == var_declaration(old(self)@.tokens, old(self)@.current).value,
            final(self)@ == moved(
                old(self)@,
                var_declaration(old(self)@.tokens, old(self)@.current).used,
                var_declaration(old(self)@.tokens, old(self)@.current).errors,
            ),
            *final(final(self).sink()) == *final(old(self).sink()),
    {
        reveal(var_declaration);
        let ghost before = self@;
        let name = match self.peek() {
            Some(Token::Identifier(name)) => Some(name.clone()),
            _ => None,
        };
        self.advance();
        let identifier = match name {
            Some(identifier) => identifier,
            None => {
                assert(self@.errors =~= before.errors + Seq::<Seq<char>>::empty());
                return Err(
                    ParseError::ExpectedTokenError(
                        diagnostic(self.previous_line(), "Expected variable name."),
                    ),
                );
            },
        };
        match self.peek() {
            Some(Token::Equal { .. }) => {
                self.advance();
            },
            _ => {
                assert(self@.errors =~= before.errors + Seq::<Seq<char>>::empty());
                return Err(
                    ParseError::ExpectedTokenError(
                        diagnostic(identifier.line, "Expected '=' after variable name."),
                    ),
                );
            },
        }
        let initializer = self.expression();
        match self.peek() {
            Some(Token::Semicolon { .. }) => {
                self.advance();
                Ok(
                    Statement::Variable(
                        VariableStatement {
                            name: Box::new(identifier),
                            value: Box::new(initializer),
                        },
                    ),
                )
            },
            _ => Err(
                ParseError::ExpectedTokenError(
                    diagnostic(identifier.line, "Expected ';' after variable declaration."),
                ),
            ),
        }
    }

    /// statement := "if" .. | "print" .. | "while" .. | "{" .. | expression ";"
    fn statement(&mut self) -> (result: Result<Statement, ParseError>)
        requires
            old(self).well_formed(),
        ensures
            final(self).well_formed(),
            outcome(result) == statement(old(self)@.tokens, old(self)@.current).value,
            final(self)@ == moved(
                old(self)@,
                statement(old(self)@.tokens, old(self)@.current).used,
                statement(old(self)@.tokens, old(self)@.current).errors,
            ),
            result is Ok ==> statement(old(self)@.tokens, old(self)@.current).used > 0,
            *final(final(self).sink()) == *final(old(self).sink()),
        decreases remaining(old(self)@.tokens, old(self)@.current), 8nat,
    {
        reveal(statement);
        reveal(if_statement);
        reveal(while_statement);
        reveal(block);
        match self.peek() {
            Some(Token::If { .. }) => {
                self.advance();
                self.if_statement()
            },
            Some(Token::Print { .. }) => {
                self.advance();
                self.print_statement()
            },
            Some(Token::While { .. }) => {
                self.advance();
                self.while_statement()
            },
            Some(Token::LeftBrace { .. }) => {
                self.advance();
                self.block()
            },
            _ => self.expression_statement(),
        }
    }

    /// The rest of a loop, behind `while`.
    fn while_statement(&mut self) -> (result: Result<Statement, ParseError>)
        requires
            old(self).well_formed(),
        ensures
            final(self).well_formed(),
            outcome(result) == while_statement(old(self)@.tokens, old(self)@.current).value,
            final(self)@ == moved(
                old(self)@,
                while_statement(old(self)@.tokens, old(self)@.current).used,
                while_statement(old(self)@.tokens, old(self)@.current).errors,
            ),
            *final(final(self).sink()) == *final(old(self).sink()),
        decreases remaining(old(self)@.tokens, old(self)@.current), 7nat,
    {
        reveal(while_statement);
        reveal(statement);
        let ghost before = self@;
        match self.peek() {
            Some(Token::LeftParen { .. }) => {
                self.advance();
            },
            _ => {
                assert(self@.errors =~= before.errors + Seq::<Seq<char>>::empty());
                return Err(
                    ParseError::ExpectedTokenError(
                        diagnostic(self.previous_line(), "Expected '(' after 'while'."),
                    ),
                );
            },
        }
        let condition = self.expression();
        match self.peek() {
            Some(Token::RightParen { .. }) => {
                self.advance();
            },
            _ => {
                return Err(
                    ParseError::ExpectedTokenError(
                        diagnostic(self.previous_line(), "Expected ')' after while condition."),
                    ),
                );
            },
        }
        let ghost inner = expression(before.tokens, before.current + 1);
        let ghost rest = statement(before.tokens, before.current + 2 + inner.used);
        let body = match self.statement() {
            Ok(body) => body,
            Err(error) => {
                assert(self@.errors =~= before.errors + (inner.errors + rest.errors));
                return Err(error);
            },
        };
        assert(self@.errors =~= before.errors + (inner.errors + rest.errors));
        Ok(Statement::While(WhileStatement { condition: Box::new(condition), body: Box::new(body) }))
    }

    /// The rest of a block, behind its opening brace.
    fn block(&mut self) -> (result: Result<Statement, ParseError>)
        requires
            old(self).well_formed(),
        ensures
            final(self).well_formed(),
            outcome(result) == block(old(self)@.tokens, old(self)@.current).value,
            final(self)@ == moved(
                old(self)@,
                block(old(self)@.tokens, old(self)@.current).used,
                block(old(self)@.tokens, old(self)@.current).errors,
            ),
            *final(final(self).sink()) == *final(old(self).sink()),
        decreases remaining(old(self)@.tokens, old(self)@.current), 11nat,
    {
        reveal(block);
        reveal(block_items);
        reveal(declaration);
        let ghost before = self@;
        let ghost goal = block_items(before.tokens, before.current);
        let mut statements: Vec<Statement> = Vec::new();
        let ghost mut errors: Seq<Seq<char>> = Seq::empty();
        assert(statement_views(statements@) + goal.statements =~= goal.statements);
        assert(errors + goal.errors =~= goal.errors);
        assert(before.errors + errors =~= before.errors);
        loop
            invariant
                self.well_formed(),
                before == old(self)@,
                goal == block_items(before.tokens, before.current),
                self@.tokens == before.tokens,
                self@.current >= before.current,
                self@.errors == before.errors + errors,
                goal.statements == statement_views(statements@) + block_items(
                    before.tokens,
                    self@.current,
                ).statements,
                goal.failure == block_items(before.tokens, self@.current).failure,
                goal.used == (self@.current - before.current) + block_items(
                    before.tokens,
                    self@.current,
                ).used,
                goal.errors == errors + block_items(before.tokens, self@.current).errors,
                *final(self.sink()) == *final(old(self).sink()),
            decreases remaining(before.tokens, self@.current),
        {
            reveal(block);
            reveal(block_items);
            reveal(declaration);
            let ghost here = self@;
            let ghost done = statement_views(statements@);
            match self.peek() {
                Some(Token::RightBrace { .. }) => {
                    self.advance();
                    proof {
                        assert(done + Seq::<StatementView>::empty() =~= done);
                        assert(errors + Seq::<Seq<char>>::empty() =~= errors);
                        let node = Statement::Block(BlockStatement { statements });
                        assert(node@ == StatementView::Block { statements: goal.statements }) by {
                            assert(node@->Block_statements =~= done);
                        }
                    }
                    return Ok(Statement::Block(BlockStatement { statements }));
                },
                Some(Token::Eof) | None => {
                    proof {
                        assert(errors + Seq::<Seq<char>>::empty() =~= errors);
                    }
                    return Err(
                        ParseError::ExpectedTokenError(
                            diagnostic(
                                self.previous_line(),
                                "Expected '}' after block, but found EOF",
                            ),
                        ),
                    );
                },
                _ => {
                    let ghost first = declaration(here.tokens, here.current);
                    match self.declaration() {
                        Ok(statement) => {
                            statements.push(statement);
                            proof {
                                let rest = block_items(here.tokens, here.current + first.used);
                                assert(statement_views(statements@) =~= done.push(statement@));
                                assert(done + (seq![statement@] + rest.statements) =~= done.push(
                                    statement@,
                                ) + rest.statements);
                                assert(errors + (first.errors + rest.errors) =~= (errors
                                    + first.errors) + rest.errors);
                                assert(before.errors + (errors + first.errors) =~= (before.errors
                                    + errors) + first.errors);
                                errors = errors + first.errors;
                            }
                        },
                        Err(error) => {
                            proof {
                                assert(before.errors + (errors + first.errors) =~= (before.errors
                                    + errors) + first.errors);
                            }
                            return Err(error);
                        },
                    }
                },
            }
        }
    }

    /// The rest of a print statement, behind `print`.
    fn print_statement(&mut self) -> (result: Result<Statement, ParseError>)
        requires
            old(self).well_formed(),
        ensures
            final(self).well_formed(),
            outcome(result) == print_statement(old(self)@.tokens, old(self)@.current).value,
            final(self)@ == moved(
                old(self)@,
                print_statement(old(self)@.tokens, old(self)@.current).used,
                print_statement(old(self)@.tokens, old(self)@.current).errors,
            ),
            *final(final(self).sink()) == *final(old(self).sink()),
    {
        reveal(print_statement);
        let value = self.expression();
        match self.peek() {
            Some(Token::Semicolon { .. }) => {
                self.advance();
                Ok(Statement::Print(PrintStatement { expression: Box::new(value) }))
            },
            _ => Err(
                ParseError::ExpectedTokenError(
                    diagnostic(self.previous_line(), "Expected ';' after value."),
                ),
            ),
        }
    }

    /// `expression ";"`
    fn expression_statement(&mut self) -> (result: Result<Statement, ParseError>)
        requires
            old(self).well_formed(),
        ensures
            final(self).well_formed(),
            outcome(result) == expression_statement(old(self)@.tokens, old(self)@.current).value,
            final(self)@ == moved(
                old(self)@,
                expression_statement(old(self)@.tokens, old(self)@.current).used,
                expression_statement(old(self)@.tokens, old(self)@.current).errors,
            ),
            result is Ok ==> expression_statement(old(self)@.tokens, old(self)@.current).used > 0,
            *final(final(self).sink()) == *final(old(self).sink()),
    {
        reveal(expression_statement);
        let value = self.expression();
        match self.peek() {
            Some(Token::Semicolon { .. }) => {
                self.advance();
                Ok(Statement::Expression(ExpressionStatement { expression: Box::new(value) }))
            },
            _ => Err(
                ParseError::ExpectedTokenError(
                    diagnostic(self.previous_line(), "Expected ';' after value."),
                ),
            ),
        }
    }

    /// The rest of a conditional, behind `if`.
    fn if_statement(&mut self) -> (result: Result<Statement, ParseError>)
        requires
            old(self).well_formed(),
        ensures
            final(self).well_formed(),
            outcome(result) == if_statement(old(self)@.tokens, old(self)@.current).value,
            final(self)@ == moved(
                old(self)@,
                if_statement(old(self)@.tokens, old(self)@.current).used,
                if_statement(old(self)@.tokens, old(self)@.current).errors,
            ),
            *final(final(self).sink()) == *final(old(self).sink()),
        decreases remaining(old(self)@.tokens, old(self)@.current), 7nat,
    {
        reveal(if_statement);
        reveal(statement);
        let ghost before = self@;
        match self.peek() {
            Some(Token::LeftParen { .. }) => {
                self.advance();
            },
            _ => {
                assert(self@.errors =~= before.errors + Seq::<Seq<char>>::empty());
                return Err(
                    ParseError::ExpectedTokenError(
                        diagnostic(self.previous_line(), "Expected '(' after 'if'."),
                    ),
                );
            },
        }
        let condition = self.expression();
        match self.peek() {
            Some(Token::RightParen { .. }) => {
                self.advance();
            },
            _ => {
                return Err(
                    ParseError::ExpectedTokenError(
                        diagnostic(self.previous_line(), "Expected ')' after if condition."),
                    ),
                );
            },
        }
        let ghost inner = expression(before.tokens, before.current + 1);
        let ghost then = statement(before.tokens, before.current + 2 + inner.used);
        let then_branch = match self.statement() {
            Ok(then_branch) => then_branch,
            Err(error) => {
                assert(self@.errors =~= before.errors + (inner.errors + then.errors));
                return Err(error);
            },
        };
        assert(self@.errors =~= before.errors + (inner.errors + then.errors));
        let ghost used = inner.used + 2 + then.used;
        let ghost other = statement(before.tokens, before.current + used + 1);
        let else_branch = match self.peek() {
            Some(Token::Else { .. }) => {
                self.advance();
                match self.statement() {
                    Ok(else_branch) => {
                        assert(self@.errors =~= before.errors + (inner.errors + then.errors
                            + other.errors));
                        Some(Box::new(else_branch))
                    },
                    Err(error) => {
                        assert(self@.errors =~= before.errors + (inner.errors + then.errors
                            + other.errors));
                        return Err(error);
                    },
                }
            },
            _ => None,
        };
        Ok(
            Statement::If(
                IfStatement {
                    condition: Box::new(condition),
                    then_branch: Box::new(then_branch),
                    else_branch,
                },
            ),
        )
    }

    /// assignment := logic_or ( "=" assignment )?
    fn assignment(&mut self) -> (node: Expr)
        requires
            old(self).well_formed(),
        ensures
            final(self).well_formed(),
            node@ == assignment(old(self)@.tokens, old(self)@.current).value,
            final(self)@ == moved(
                old(self)@,
                assignment(old(self)@.tokens, old(self)@.current).used,
                assignment(old(self)@.tokens, old(self)@.current).errors,
            ),
            *final(final(self).sink()) == *final(old(self).sink()),
        decreases remaining(old(self)@.tokens, old(self)@.current), 29nat,
    {
        reveal(assignment);
        reveal(infix);
        let ghost before = self@;
        let ghost target = infix(before.tokens, before.current, Level::Or);
        let expression = self.or();
        match self.peek() {
            Some(Token::Equal { .. }) => {
                self.advance();
                let ghost rest = assignment(before.tokens, before.current + target.used + 1);
                let value = self.assignment();
                assert(self@.errors =~= before.errors + (target.errors + rest.errors));
                match expression {
                    Expr::Variable(variable) => Expr::Assignment(
                        Assignment { name: variable.token, value: Box::new(value) },
                    ),
                    other => {
                        let message = diagnostic(
                            self.previous_line(),
                            "Invalid assignment target.",
                        );
                        self.report(message);
                        assert(self@.errors =~= before.errors + (target.errors + rest.errors
                            + seq![message@]));
                        other
                    },
                }
            },
            _ => expression,
        }
    }

    /// logic_or := logic_and ( "or" logic_and )*
    fn or(&mut self) -> (node: Expr)
        requires
            old(self).well_formed(),
        ensures
            final(self).well_formed(),
            node@ == infix(old(self)@.tokens, old(self)@.current, Level::Or).value,
            final(self)@ == moved(
                old(self)@,
                infix(old(self)@.tokens, old(self)@.current, Level::Or).used,
                infix(old(self)@.tokens, old(self)@.current, Level::Or).errors,
            ),
            *final(final(self).sink()) == *final(old(self).sink()),
        decreases remaining(old(self)@.tokens, old(self)@.current), 19nat,
    {
        self.infix(Level::Or)
    }

    /// logic_and := equality ( "and" equality )*
    fn and(&mut self) -> (node: Expr)
        requires
            old(self).well_formed(),
        ensures
            final(self).well_formed(),
            node@ == infix(old(self)@.tokens, old(self)@.current, Level::And).value,
            final(self)@ == moved(
                old(self)@,
                infix(old(self)@.tokens, old(self)@.current, Level::And).used,
                infix(old(self)@.tokens, old(self)@.current, Level::And).errors,
            ),
            *final(final(self).sink()) == *final(old(self).sink()),
        decreases remaining(old(self)@.tokens, old(self)@.current), 16nat,
    {
        self.infix(Level::And)
    }

    /// expression := assignment
    fn expression(&mut self) -> (node: Expr)
        requires
            old(self).well_formed(),
        ensures
            final(self).well_formed(),
            node@ == expression(old(self)@.tokens, old(self)@.current).value,
            final(self)@ == moved(
                old(self)@,
                expression(old(self)@.tokens, old(self)@.current).used,
                expression(old(self)@.tokens, old(self)@.current).errors,
            ),
            *final(final(self).sink()) == *final(old(self).sink()),
        decreases remaining(old(self)@.tokens, old(self)@.current), 30nat,
    {
        reveal(expression);
        reveal(assignment);
        self.assignment()
    }

    /// equality := comparison ( ("!=" | "==") comparison )*
    fn equality(&mut self) -> (node: Expr)
        requires
            old(self).well_formed(),
        ensures
            final(self).well_formed(),
            node@ == infix(old(self)@.tokens, old(self)@.current, Level::Equality).value,
            final(self)@ == moved(
                old(self)@,
                infix(old(self)@.tokens, old(self)@.current, Level::Equality).used,
                infix(old(self)@.tokens, old(self)@.current, Level::Equality).errors,
            ),
            *final(final(self).sink()) == *final(old(self).sink()),
        decreases remaining(old(self)@.tokens, old(self)@.current), 13nat,
    {
        self.infix(Level::Equality)
    }

    /// Takes the token at the cursor, unless the input ends there, and
    /// returns the token before the cursor.
    fn advance(&mut self) -> (token: Option<&Token>)
        requires
            old(self).well_formed(),
        ensures
            final(self).well_formed(),
            final(self)@ == (ParserView {
                current: if at(old(self)@.tokens, old(self)@.current) is Eof {
                    old(self)@.current
                } else {
                    old(self)@.current + 1
                },
                ..old(self)@
            }),
            *final(final(self).sink()) == *final(old(self).sink()),
    {
        if self.current < self.tokens.len() {
            match self.tokens[self.current] {
                Token::Eof => {},
                _ => {
                    self.current = self.current + 1;
                },
            }
        }
        self.previous()
    }

    /// The token at the cursor, if there is one.
    fn peek(&self) -> (token: Option<&Token>)
        requires
            self.well_formed(),
        ensures
            self@.current < self@.tokens.len() ==> token is Some && (*token->0)@ == self@.tokens[self@.current as int],
            self@.current >= self@.tokens.len() ==> token is None,
            token is Some ==> (*token->0)@ == at(self@.tokens, self@.current),
            token is Some ==> self@.current < usize::MAX,
            token is None ==> at(self@.tokens, self@.current) is Eof,
    {
        if self.current < self.tokens.len() {
            Some(&self.tokens[self.current])
        } else {
            None
        }
    }

    /// The token before the cursor, if there is one.
    fn previous(&self) -> (token: Option<&Token>)
        requires
            self.well_formed(),
        ensures
            self@.current > 0 ==> token is Some && (*token->0)@ == self@.tokens[self@.current - 1],
            self@.current == 0 ==> token is None,
    {
        if self.current > 0 {
            Some(&self.tokens[self.current - 1])
        } else {
            None
        }
    }

    /// comparison := term ( (">" | ">=" | "<" | "<=") term )*
    fn comparison(&mut self) -> (node: Expr)
        requires
            old(self).well_formed(),
        ensures
            final(self).well_formed(),
            node@ == infix(old(self)@.tokens, old(self)@.current, Level::Comparison).value,
            final(self)@ == moved(
                old(self)@,
                infix(old(self)@.tokens, old(self)@.current, Level::Comparison).used,
                infix(old(self)@.tokens, old(self)@.current, Level::Comparison).errors,
            ),
            *final(final(self).sink()) == *final(old(self).sink()),
        decreases remaining(old(self)@.tokens, old(self)@.current), 10nat,
    {
        self.infix(Level::Comparison)
    }

    /// term := factor ( ("-" | "+") factor )*
    fn term(&mut self) -> (node: Expr)
        requires
            old(self).well_formed(),
        ensures
            final(self).well_formed(),
            node@ == infix(old(self)@.tokens, old(self)@.current, Level::Term).value,
            final(self)@ == moved(
                old(self)@,
                infix(old(self)@.tokens, old(self)@.current, Level::Term).used,
                infix(old(self)@.tokens, old(self)@.current, Level::Term).errors,
            ),
            *final(final(self).sink()) == *final(old(self).sink()),
        decreases remaining(old(self)@.tokens, old(self)@.current), 7nat,
    {
        self.infix(Level::Term)
    }

    /// factor := unary ( ("/" | "*") unary )*
    fn factor(&mut self) -> (node: Expr)
        requires
            old(self).well_formed(),
        ensures
            final(self).well_formed(),
            node@ == infix(old(self)@.tokens, old(self)@.current, Level::Factor).value,
            final(self)@ == moved(
                old(self)@,
                infix(old(self)@.tokens, old(self)@.current, Level::Factor).used,
                infix(old(self)@.tokens, old(self)@.current, Level::Factor).errors,
            ),
            *final(final(self).sink()) == *final(old(self).sink()),
        decreases remaining(old(self)@.tokens, old(self)@.current), 4nat,
    {
        self.infix(Level::Factor)
    }

    /// The operand of a level.
    fn operand(&mut self, level: Level) -> (node: Expr)
        requires
            old(self).well_formed(),
        ensures
            final(self).well_formed(),
            node@ == operand(old(self)@.tokens, old(self)@.current, level).value,
            final(self)@ == moved(
                old(self)@,
                operand(old(self)@.tokens, old(self)@.current, level).used,
                operand(old(self)@.tokens, old(self)@.current, level).errors,
            ),
            *final(final(self).sink()) == *final(old(self).sink()),
        decreases remaining(old(self)@.tokens, old(self)@.current), (level.rank() - 1) as nat,
    {
        reveal(operand);
        reveal(infix);
        reveal(unary);
        let ghost tokens = self@.tokens;
        let ghost pos = self@.current;
        match level {
            Level::Or => {
                assert(operand(tokens, pos, Level::Or) == infix(tokens, pos, Level::And));
                self.and()
            },
            Level::And => {
                assert(operand(tokens, pos, Level::And) == infix(tokens, pos, Level::Equality));
                self.equality()
            },
            Level::Equality => {
                assert(operand(tokens, pos, Level::Equality) == infix(
                    tokens,
                    pos,
                    Level::Comparison,
                ));
                self.comparison()
            },
            Level::Comparison => {
                assert(operand(tokens, pos, Level::Comparison) == infix(tokens, pos, Level::Term));
                self.term()
            },
            Level::Term => {
                assert(operand(tokens, pos, Level::Term) == infix(tokens, pos, Level::Factor));
                self.factor()
            },
            Level::Factor => {
                assert(operand(tokens, pos, Level::Factor) == unary(tokens, pos));
                self.unary()
            },
        }
    }

    /// One level of left-associative operators.
    fn infix(&mut self, level: Level) -> (node: Expr)
        requires
            old(self).well_formed(),
        ensures
            final(self).well_formed(),
            node@ == infix(old(self)@.tokens, old(self)@.current, level).value,
            final(self)@ == moved(
                old(self)@,
                infix(old(self)@.tokens, old(self)@.current, level).used,
                infix(old(self)@.tokens, old(self)@.current, level).errors,
            ),
            *final(final(self).sink()) == *final(old(self).sink()),
        decreases remaining(old(self)@.tokens, old(self)@.current), level.rank(),
    {
        reveal(infix);
        reveal(infix_rest);
        reveal(operand);
        let ghost before = self@;
        let ghost goal = infix(before.tokens, before.current, level);
        let ghost mut left = operand(before.tokens, before.current, level);
        let mut node = self.operand(level);
        loop
            invariant
                self.well_formed(),
                before == old(self)@,
                self@ == moved(before, left.used, left.errors),
                node@ == left.value,
                goal == infix_rest(before.tokens, before.current, left, level),
                *final(self.sink()) == *final(old(self).sink()),
                remaining(before.tokens, self@.current) <= remaining(before.tokens, before.current),
            ensures
                self.well_formed(),
                self@ == moved(before, goal.used, goal.errors),
                node@ == goal.value,
                *final(self.sink()) == *final(old(self).sink()),
            decreases remaining(before.tokens, self@.current),
        {
            reveal(infix_rest);
            reveal(operand);
            let operator = match self.peek() {
                Some(token) => if is_operator(level, token) {
                    token.clone()
                } else {
                    break ;
                },
                None => {
                    break ;
                },
            };
            self.current = self.current + 1;
            let ghost right = operand(before.tokens, self@.current, level);
            let operand = self.operand(level);
            proof {
                assert(self@.errors =~= before.errors + (left.errors + right.errors));
                left =
                Parsed {
                    value: level.join(left.value, operator@, right.value),
                    used: left.used + 1 + right.used,
                    errors: left.errors + right.errors,
                };
            }
            node = join(level, node, operator, operand);
        }
        node
    }

    /// unary := ("!" | "-") unary | primary
    fn unary(&mut self) -> (node: Expr)
        requires
            old(self).well_formed(),
        ensures
            final(self).well_formed(),
            node@ == unary(old(self)@.tokens, old(self)@.current).value,
            final(self)@ == moved(
                old(self)@,
                unary(old(self)@.tokens, old(self)@.current).used,
                unary(old(self)@.tokens, old(self)@.current).errors,
            ),
            *final(final(self).sink()) == *final(old(self).sink()),
        decreases remaining(old(self)@.tokens, old(self)@.current), 1nat,
    {
        reveal(unary);
        reveal(primary);
        let operator = match self.peek() {
            Some(Token::Bang { line }) => Token::Bang { line: *line },
            Some(Token::Minus { line }) => Token::Minus { line: *line },
            _ => {
                return self.primary();
            },
        };
        self.current = self.current + 1;
        let right = self.unary();
        Expr::Unary(Unary { operator: Box::new(operator), right: Box::new(right) })
    }

    /// primary := "true" | "false" | "nil" | NUMBER | STRING | IDENT
    ///          | "(" expression ")"
    fn primary(&mut self) -> (node: Expr)
        requires
            old(self).well_formed(),
        ensures
            final(self).well_formed(),
            node@ == primary(old(self)@.tokens, old(self)@.current).value,
            final(self)@ == moved(
                old(self)@,
                primary(old(self)@.tokens, old(self)@.current).used,
                primary(old(self)@.tokens, old(self)@.current).errors,
            ),
            *final(final(self).sink()) == *final(old(self).sink()),
        decreases remaining(old(self)@.tokens, old(self)@.current), 0nat,
    {
        reveal(primary);
        reveal(group);
        let ghost before = self@;
        let token = match self.peek() {
            Some(token) => token,
            None => {
                assert(self@.errors =~= before.errors + Seq::<Seq<char>>::empty());
                return Expr::Literal(Literal { value: LiteralValue::Nil });
            },
        };
        if let Some(value) = literal_of(token) {
            self.current = self.current + 1;
            assert(self@.errors =~= before.errors + Seq::<Seq<char>>::empty());
            return Expr::Literal(Literal { value });
        }
        if let Some(name) = name_of(token) {
            self.current = self.current + 1;
            assert(self@.errors =~= before.errors + Seq::<Seq<char>>::empty());
            return Expr::Variable(Variable { token: Box::new(name) });
        }
        if opens_group(token) {
            self.current = self.current + 1;
            let node = self.group();
            assert(self@.errors =~= before.errors + group(before.tokens, before.current + 1).errors);
            return node;
        }
        assert(self@.errors =~= before.errors + Seq::<Seq<char>>::empty());
        Expr::Literal(Literal { value: LiteralValue::Nil })
    }

    /// The rest of a group, behind its opening parenthesis.
    fn group(&mut self) -> (node: Expr)
        requires
            old(self).well_formed(),
        ensures
            final(self).well_formed(),
            node@ == group(old(self)@.tokens, old(self)@.current).value,
            final(self)@ == moved(
                old(self)@,
                group(old(self)@.tokens, old(self)@.current).used,
                group(old(self)@.tokens, old(self)@.current).errors,
            ),
            *final(final(self).sink()) == *final(old(self).sink()),
        decreases remaining(old(self)@.tokens, old(self)@.current), 31nat,
    {
        reveal(group);
        reveal(expression);
        let ghost before = self@;
        let ghost inner = expression(before.tokens, before.current);
        let expression = self.expression();
        let closed = match self.peek() {
            Some(token) => closes_group(token),
            None => false,
        };
        if closed {
            self.current = self.current + 1;
        } else if self.at_end() {
            let message = diagnostic(self.previous_line(), "Expected ')' after expression.");
            self.report(message);
            assert(self@.errors =~= before.errors + (inner.errors + seq![message@]));
        } else {
            let line = match self.peek() {
                Some(token) => token.line(),
                None => 0,
            };
            let message = diagnostic_at(line, "(", "Expect ')' after expression.");
            self.report(message);
            assert(self@.errors =~= before.errors + (inner.errors + seq![message@]));
        }
        Expr::Grouping(Grouping { expression: Box::new(expression) })
    }

    /// Moves the cursor to where parsing can go on after a statement that
    /// failed.
    fn synchronize(&mut self)
        requires
            old(self).well_formed(),
        ensures
            final(self).well_formed(),
            final(self)@ == (ParserView {
                current: synchronize(old(self)@.tokens, old(self)@.current),
                ..old(self)@
            }),
            *final(final(self).sink()) == *final(old(self).sink()),
    {
        reveal(synchronize);
        reveal(boundary);
        let ghost before = self@;
        self.advance();
        let ghost goal = boundary(before.tokens, self@.current);
        loop
            invariant
                self.well_formed(),
                self@ == (ParserView { current: self@.current, ..before }),
                goal == boundary(before.tokens, self@.current),
                *final(self.sink()) == *final(old(self).sink()),
            ensures
                self.well_formed(),
                self@ == (ParserView { current: goal, ..before }),
                *final(self.sink()) == *final(old(self).sink()),
            decreases remaining(before.tokens, self@.current),
        {
            reveal(boundary);
            let token = match self.peek() {
                Some(token) => token,
                None => {
                    break ;
                },
            };
            if let Some(Token::Semicolon { .. }) = self.previous() {
                break ;
            }
            if opens_statement(token) {
                break ;
            }
            self.current = self.current + 1;
        }
    }
}

} // verus!
