//! The lexical units of the language.

use vstd::prelude::*;
use vstd::string::*;

verus! {

/// A name as it stood in the source, with the line it was read on.
#[derive(Debug, PartialEq)]
pub struct Identifier {
    pub line: usize,
    pub value: String,
}

/// The mathematical content of an [`Identifier`].
pub struct IdentifierView {
    pub line: nat,
    pub value: Seq<char>,
}

impl View for Identifier {
    type V = IdentifierView;

    open spec fn view(&self) -> IdentifierView {
        IdentifierView { line: self.line as nat, value: self.value@ }
    }
}

impl Clone for Identifier {
    fn clone(&self) -> (copy: Identifier)
        ensures
            copy == *self,
    {
        Identifier { line: self.line, value: self.value.clone() }
    }
}

impl Identifier {
    /// The name, as it is shown in messages and dumps.
    pub fn to_string(&self) -> (text: String)
        ensures
            text@ == self.value@,
    {
        self.value.clone()
    }
}

/// One lexical unit. Every variant but the end-of-input mark carries the
/// 1-based line on which it ended. A number carries its digits as written:
/// turning them into a binary number is left to the machine that runs the
/// program.
#[allow(inconsistent_fields)]
#[derive(Debug, PartialEq)]
pub enum Token {
    LeftParen { line: usize },
    RightParen { line: usize },
    LeftBrace { line: usize },
    RightBrace { line: usize },
    Comma { line: usize },
    Dot { line: usize },
    Minus { line: usize },
    Plus { line: usize },
    Semicolon { line: usize },
    Slash { line: usize },
    Star { line: usize },
    Bang { line: usize },
    BangEqual { line: usize },
    Equal { line: usize },
    EqualEqual { line: usize },
    Greater { line: usize },
    GreaterEqual { line: usize },
    Less { line: usize },
    LessEqual { line: usize },
    Identifier(Identifier),
    String { value: String, line: usize },
    Number { value: String, line: usize },
    And { line: usize },
    Class { line: usize },
    Else { line: usize },
    False { value: bool, line: usize },
    Fun { line: usize },
    For { line: usize },
    If { line: usize },
    Nil { line: usize },
    Or { line: usize },
    Print { line: usize },
    Return { line: usize },
    Super { line: usize },
    This { line: usize },
    Var { line: usize },
    While { line: usize },
    True { value: bool, line: usize },
    Eof,
}

/// The mathematical content of a [`Token`]: the same variants, with text as
/// sequences of characters.
#[allow(inconsistent_fields)]
pub enum TokenView {
    LeftParen { line: nat },
    RightParen { line: nat },
    LeftBrace { line: nat },
    RightBrace { line: nat },
    Comma { line: nat },
    Dot { line: nat },
    Minus { line: nat },
    Plus { line: nat },
    Semicolon { line: nat },
    Slash { line: nat },
    Star { line: nat },
    Bang { line: nat },
    BangEqual { line: nat },
    Equal { line: nat },
    EqualEqual { line: nat },
    Greater { line: nat },
    GreaterEqual { line: nat },
    Less { line: nat },
    LessEqual { line: nat },
    Identifier(IdentifierView),
    String { value: Seq<char>, line: nat },
    Number { value: Seq<char>, line: nat },
    And { line: nat },
    Class { line: nat },
    Else { line: nat },
    False { value: bool, line: nat },
    Fun { line: nat },
    For { line: nat },
    If { line: nat },
    Nil { line: nat },
    Or { line: nat },
    Print { line: nat },
    Return { line: nat },
    Super { line: nat },
    This { line: nat },
    Var { line: nat },
    While { line: nat },
    True { value: bool, line: nat },
    Eof,
}

impl View for Token {
    type V = TokenView;

    open spec fn view(&self) -> TokenView {
        match *self {
            Token::LeftParen { line } => TokenView::LeftParen { line: line as nat },
            Token::RightParen { line } => TokenView::RightParen { line: line as nat },
            Token::LeftBrace { line } => TokenView::LeftBrace { line: line as nat },
            Token::RightBrace { line } => TokenView::RightBrace { line: line as nat },
            Token::Comma { line } => TokenView::Comma { line: line as nat },
            Token::Dot { line } => TokenView::Dot { line: line as nat },
            Token::Minus { line } => TokenView::Minus { line: line as nat },
            Token::Plus { line } => TokenView::Plus { line: line as nat },
            Token::Semicolon { line } => TokenView::Semicolon { line: line as nat },
            Token::Slash { line } => TokenView::Slash { line: line as nat },
            Token::Star { line } => TokenView::Star { line: line as nat },
            Token::Bang { line } => TokenView::Bang { line: line as nat },
            Token::BangEqual { line } => TokenView::BangEqual { line: line as nat },
            Token::Equal { line } => TokenView::Equal { line: line as nat },
            Token::EqualEqual { line } => TokenView::EqualEqual { line: line as nat },
            Token::Greater { line } => TokenView::Greater { line: line as nat },
            Token::GreaterEqual { line } => TokenView::GreaterEqual { line: line as nat },
            Token::Less { line } => TokenView::Less { line: line as nat },
            Token::LessEqual { line } => TokenView::LessEqual { line: line as nat },
            Token::And { line } => TokenView::And { line: line as nat },
            Token::Class { line } => TokenView::Class { line: line as nat },
            Token::Else { line } => TokenView::Else { line: line as nat },
            Token::Fun { line } => TokenView::Fun { line: line as nat },
            Token::For { line } => TokenView::For { line: line as nat },
            Token::If { line } => TokenView::If { line: line as nat },
            Token::Nil { line } => TokenView::Nil { line: line as nat },
            Token::Or { line } => TokenView::Or { line: line as nat },
            Token::Print { line } => TokenView::Print { line: line as nat },
            Token::Return { line } => TokenView::Return { line: line as nat },
            Token::Super { line } => TokenView::Super { line: line as nat },
            Token::This { line } => TokenView::This { line: line as nat },
            Token::Var { line } => TokenView::Var { line: line as nat },
            Token::While { line } => TokenView::While { line: line as nat },
            Token::Identifier(name) => TokenView::Identifier(name@),
            Token::String { value, line } => TokenView::String { value: value@, line: line as nat },
            Token::Number { value, line } => TokenView::Number { value: value@, line: line as nat },
            Token::False { value, line } => TokenView::False { value, line: line as nat },
            Token::True { value, line } => TokenView::True { value, line: line as nat },
            Token::Eof => TokenView::Eof,
        }
    }
}

impl TokenView {
    /// The line a token carries; the end-of-input mark carries none and
    /// answers 0.
    pub open spec fn line(self) -> nat {
        match self {
            TokenView::LeftParen { line } => line,
            TokenView::RightParen { line } => line,
            TokenView::LeftBrace { line } => line,
            TokenView::RightBrace { line } => line,
            TokenView::Comma { line } => line,
            TokenView::Dot { line } => line,
            TokenView::Minus { line } => line,
            TokenView::Plus { line } => line,
            TokenView::Semicolon { line } => line,
            TokenView::Slash { line } => line,
            TokenView::Star { line } => line,
            TokenView::Bang { line } => line,
            TokenView::BangEqual { line } => line,
            TokenView::Equal { line } => line,
            TokenView::EqualEqual { line } => line,
            TokenView::Greater { line } => line,
            TokenView::GreaterEqual { line } => line,
            TokenView::Less { line } => line,
            TokenView::LessEqual { line } => line,
            TokenView::And { line } => line,
            TokenView::Class { line } => line,
            TokenView::Else { line } => line,
            TokenView::Fun { line } => line,
            TokenView::For { line } => line,
            TokenView::If { line } => line,
            TokenView::Nil { line } => line,
            TokenView::Or { line } => line,
            TokenView::Print { line } => line,
            TokenView::Return { line } => line,
            TokenView::Super { line } => line,
            TokenView::This { line } => line,
            TokenView::Var { line } => line,
            TokenView::While { line } => line,
            TokenView::Identifier(name) => name.line,
            TokenView::String { line, .. } => line,
            TokenView::Number { line, .. } => line,
            TokenView::False { line, .. } => line,
            TokenView::True { line, .. } => line,
            TokenView::Eof => 0,
        }
    }

    /// The text a token stands for: the spelling of punctuation and
    /// keywords, the name of an identifier, the digits of a number, the
    /// contents of a string, nothing for the end-of-input mark.
    pub open spec fn lexeme(self) -> Seq<char> {
        match self {
            TokenView::LeftParen { .. } => "("@,
            TokenView::RightParen { .. } => ")"@,
            TokenView::LeftBrace { .. } => "{"@,
            TokenView::RightBrace { .. } => "}"@,
            TokenView::Comma { .. } => ","@,
            TokenView::Dot { .. } => "."@,
            TokenView::Minus { .. } => "-"@,
            TokenView::Plus { .. } => "+"@,
            TokenView::Semicolon { .. } => ";"@,
            TokenView::Slash { .. } => "/"@,
            TokenView::Star { .. } => "*"@,
            TokenView::Bang { .. } => "!"@,
            TokenView::BangEqual { .. } => "!="@,
            TokenView::Equal { .. } => "="@,
            TokenView::EqualEqual { .. } => "=="@,
            TokenView::Greater { .. } => ">"@,
            TokenView::GreaterEqual { .. } => ">="@,
            TokenView::Less { .. } => "<"@,
            TokenView::LessEqual { .. } => "<="@,
            TokenView::And { .. } => "and"@,
            TokenView::Class { .. } => "class"@,
            TokenView::Else { .. } => "else"@,
            TokenView::Fun { .. } => "fun"@,
            TokenView::For { .. } => "for"@,
            TokenView::If { .. } => "if"@,
            TokenView::Nil { .. } => "nil"@,
            TokenView::Or { .. } => "or"@,
            TokenView::Print { .. } => "print"@,
            TokenView::Return { .. } => "return"@,
            TokenView::Super { .. } => "super"@,
            TokenView::This { .. } => "this"@,
            TokenView::Var { .. } => "var"@,
            TokenView::While { .. } => "while"@,
            TokenView::Identifier(name) => name.value,
            TokenView::String { value, .. } => value,
            TokenView::Number { value, .. } => value,
            TokenView::False { .. } => "false"@,
            TokenView::True { .. } => "true"@,
            TokenView::Eof => Seq::empty(),
        }
    }
}

impl Clone for Token {
    fn clone(&self) -> (copy: Token)
        ensures
            copy == *self,
    {
        match self {
            Token::LeftParen { line } => Token::LeftParen { line: *line },
            Token::RightParen { line } => Token::RightParen { line: *line },
            Token::LeftBrace { line } => Token::LeftBrace { line: *line },
            Token::RightBrace { line } => Token::RightBrace { line: *line },
            Token::Comma { line } => Token::Comma { line: *line },
            Token::Dot { line } => Token::Dot { line: *line },
            Token::Minus { line } => Token::Minus { line: *line },
            Token::Plus { line } => Token::Plus { line: *line },
            Token::Semicolon { line } => Token::Semicolon { line: *line },
            Token::Slash { line } => Token::Slash { line: *line },
            Token::Star { line } => Token::Star { line: *line },
            Token::Bang { line } => Token::Bang { line: *line },
            Token::BangEqual { line } => Token::BangEqual { line: *line },
            Token::Equal { line } => Token::Equal { line: *line },
            Token::EqualEqual { line } => Token::EqualEqual { line: *line },
            Token::Greater { line } => Token::Greater { line: *line },
            Token::GreaterEqual { line } => Token::GreaterEqual { line: *line },
            Token::Less { line } => Token::Less { line: *line },
            Token::LessEqual { line } => Token::LessEqual { line: *line },
            Token::And { line } => Token::And { line: *line },
            Token::Class { line } => Token::Class { line: *line },
            Token::Else { line } => Token::Else { line: *line },
            Token::Fun { line } => Token::Fun { line: *line },
            Token::For { line } => Token::For { line: *line },
            Token::If { line } => Token::If { line: *line },
            Token::Nil { line } => Token::Nil { line: *line },
            Token::Or { line } => Token::Or { line: *line },
            Token::Print { line } => Token::Print { line: *line },
            Token::Return { line } => Token::Return { line: *line },
            Token::Super { line } => Token::Super { line: *line },
            Token::This { line } => Token::This { line: *line },
            Token::Var { line } => Token::Var { line: *line },
            Token::While { line } => Token::While { line: *line },
            Token::Identifier(name) => Token::Identifier(name.clone()),
            Token::String { value, line } => Token::String { value: value.clone(), line: *line },
            Token::Number { value, line } => Token::Number { value: value.clone(), line: *line },
            Token::False { value, line } => Token::False { value: *value, line: *line },
            Token::True { value, line } => Token::True { value: *value, line: *line },
            Token::Eof => Token::Eof,
        }
    }
}

impl Token {
    /// The line this token carries, 0 for the end-of-input mark.
    pub fn line(&self) -> (line: usize)
        ensures
            line == self@.line(),
    {
        match self {
            Token::LeftParen { line } => *line,
            Token::RightParen { line } => *line,
            Token::LeftBrace { line } => *line,
            Token::RightBrace { line } => *line,
            Token::Comma { line } => *line,
            Token::Dot { line } => *line,
            Token::Minus { line } => *line,
            Token::Plus { line } => *line,
            Token::Semicolon { line } => *line,
            Token::Slash { line } => *line,
            Token::Star { line } => *line,
            Token::Bang { line } => *line,
            Token::BangEqual { line } => *line,
            Token::Equal { line } => *line,
            Token::EqualEqual { line } => *line,
            Token::Greater { line } => *line,
            Token::GreaterEqual { line } => *line,
            Token::Less { line } => *line,
            Token::LessEqual { line } => *line,
            Token::And { line } => *line,
            Token::Class { line } => *line,
            Token::Else { line } => *line,
            Token::Fun { line } => *line,
            Token::For { line } => *line,
            Token::If { line } => *line,
            Token::Nil { line } => *line,
            Token::Or { line } => *line,
            Token::Print { line } => *line,
            Token::Return { line } => *line,
            Token::Super { line } => *line,
            Token::This { line } => *line,
            Token::Var { line } => *line,
            Token::While { line } => *line,
            Token::Identifier(name) => name.line,
            Token::String { line, .. } => *line,
            Token::Number { line, .. } => *line,
            Token::False { line, .. } => *line,
            Token::True { line, .. } => *line,
            Token::Eof => 0,
        }
    }

    /// The text this token stands for.
    pub fn lexeme(&self) -> (text: String)
        ensures
            text@ == self@.lexeme(),
    {
        match self {
            Token::LeftParen { .. } => String::from_str("("),
            Token::RightParen { .. } => String::from_str(")"),
            Token::LeftBrace { .. } => String::from_str("{"),
            Token::RightBrace { .. } => String::from_str("}"),
            Token::Comma { .. } => String::from_str(","),
            Token::Dot { .. } => String::from_str("."),
            Token::Minus { .. } => String::from_str("-"),
            Token::Plus { .. } => String::from_str("+"),
            Token::Semicolon { .. } => String::from_str(";"),
            Token::Slash { .. } => String::from_str("/"),
            Token::Star { .. } => String::from_str("*"),
            Token::Bang { .. } => String::from_str("!"),
            Token::BangEqual { .. } => String::from_str("!="),
            Token::Equal { .. } => String::from_str("="),
            Token::EqualEqual { .. } => String::from_str("=="),
            Token::Greater { .. } => String::from_str(">"),
            Token::GreaterEqual { .. } => String::from_str(">="),
            Token::Less { .. } => String::from_str("<"),
            Token::LessEqual { .. } => String::from_str("<="),
            Token::And { .. } => String::from_str("and"),
            Token::Class { .. } => String::from_str("class"),
            Token::Else { .. } => String::from_str("else"),
            Token::Fun { .. } => String::from_str("fun"),
            Token::For { .. } => String::from_str("for"),
            Token::If { .. } => String::from_str("if"),
            Token::Nil { .. } => String::from_str("nil"),
            Token::Or { .. } => String::from_str("or"),
            Token::Print { .. } => String::from_str("print"),
            Token::Return { .. } => String::from_str("return"),
            Token::Super { .. } => String::from_str("super"),
            Token::This { .. } => String::from_str("this"),
            Token::Var { .. } => String::from_str("var"),
            Token::While { .. } => String::from_str("while"),
            Token::Identifier(name) => name.value.clone(),
            Token::String { value, .. } => value.clone(),
            Token::Number { value, .. } => value.clone(),
            Token::False { .. } => String::from_str("false"),
            Token::True { .. } => String::from_str("true"),
            Token::Eof => String::new(),
        }
    }
}

/// The contents of a list of tokens.
pub open spec fn views(tokens: Seq<Token>) -> Seq<TokenView> {
    tokens.map_values(|token: Token| token@)
}

} // verus!
