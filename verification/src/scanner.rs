//! The scanner: what the tokens of a source text are, and the code that makes
//! them.

use crate::text::{alphanumeric, decimal, decimal_text, digit, is_digit, texts};
use crate::token::{views, Identifier, IdentifierView, Token, TokenView};
use vstd::prelude::*;
use vstd::std_specs::iter::IteratorSpec;
use vstd::string::*;

verus! {

/// The kinds of stretches the scanner reads in one go.
#[derive(Clone, Copy)]
pub enum Run {
    /// Decimal digits.
    Digits,
    /// Letters, numbers and underscores.
    Word,
    /// Everything up to the end of the line.
    Comment,
    /// Everything up to the next double quote.
    Text,
}

/// A character that can follow the first one of a name.
pub open spec fn word_char(c: char) -> bool {
    alphanumeric(c) || c == '_'
}

/// Whether `c` continues a stretch of the given kind.
pub open spec fn belongs(run: Run, c: char) -> bool {
    match run {
        Run::Digits => is_digit(c),
        Run::Word => word_char(c),
        Run::Comment => c != '\n',
        Run::Text => c != '"',
    }
}

/// The index of the first character at or after `from` that does not
/// continue the stretch; the length of `src` if there is none.
pub open spec fn run_end(src: Seq<char>, from: int, run: Run) -> int
    decreases src.len() - from,
{
    if 0 <= from < src.len() && belongs(run, src[from]) {
        run_end(src, from + 1, run)
    } else {
        from
    }
}

/// How many line feeds `text` holds.
pub open spec fn newlines(text: Seq<char>) -> nat
    decreases text.len(),
{
    if text.len() == 0 {
        0
    } else {
        newlines(text.drop_last()) + if text.last() == '\n' {
            1nat
        } else {
            0nat
        }
    }
}

/// The token for a word: its keyword if it is reserved, else an identifier.
pub open spec fn word_token(text: Seq<char>, line: nat) -> TokenView {
    if text == "and"@ {
        TokenView::And { line }
    } else if text == "class"@ {
        TokenView::Class { line }
    } else if text == "else"@ {
        TokenView::Else { line }
    } else if text == "false"@ {
        TokenView::False { value: false, line }
    } else if text == "for"@ {
        TokenView::For { line }
    } else if text == "fun"@ {
        TokenView::Fun { line }
    } else if text == "if"@ {
        TokenView::If { line }
    } else if text == "nil"@ {
        TokenView::Nil { line }
    } else if text == "or"@ {
        TokenView::Or { line }
    } else if text == "print"@ {
        TokenView::Print { line }
    } else if text == "return"@ {
        TokenView::Return { line }
    } else if text == "super"@ {
        TokenView::Super { line }
    } else if text == "this"@ {
        TokenView::This { line }
    } else if text == "true"@ {
        TokenView::True { value: true, line }
    } else if text == "var"@ {
        TokenView::Var { line }
    } else if text == "while"@ {
        TokenView::While { line }
    } else {
        TokenView::Identifier(IdentifierView { line, value: text })
    }
}

/// The diagnostic for a character that starts no token.
pub open spec fn unexpected_character(c: char, line: nat) -> Seq<char> {
    "Unexpected character '"@ + seq![c] + "' at line "@ + decimal(line)
}

/// The diagnostic for a string that the end of the input cuts short.
pub open spec fn unterminated_string(line: nat) -> Seq<char> {
    "Unterminated string at line "@ + decimal(line)
}

/// What reading one lexical unit does: where the cursor and the line
/// counter stand afterwards, and the token or the diagnostic it adds, if
/// any.
pub struct Step {
    pub next: int,
    pub line: nat,
    pub token: Option<TokenView>,
    pub error: Option<Seq<char>>,
}

/// A step that adds a token.
pub open spec fn emitted(next: int, line: nat, token: TokenView) -> Step {
    Step { next, line, token: Some(token), error: None }
}

/// A step that adds nothing.
pub open spec fn skipped(next: int, line: nat) -> Step {
    Step { next, line, token: None, error: None }
}

/// Whether the character at `at` exists and is `c`.
pub open spec fn holds(src: Seq<char>, at: int, c: char) -> bool {
    0 <= at < src.len() && src[at] == c
}

/// A string literal whose opening quote stands at `pos`: its contents run
/// to the next double quote, line feeds included. Without a closing quote
/// there is no token but a diagnostic.
pub open spec fn string_step(src: Seq<char>, pos: int, line: nat) -> Step {
    let close = run_end(src, pos + 1, Run::Text);
    let body = src.subrange(pos + 1, close);
    let last = line + newlines(body);
    if close < src.len() {
        emitted(close + 1, last, TokenView::String { value: body, line: last })
    } else {
        Step { next: close, line: last, token: None, error: Some(unterminated_string(last)) }
    }
}

/// Where a number that starts at `pos` ends: after its digits, and after a
/// point and more digits if a point follows that a digit follows.
pub open spec fn number_end(src: Seq<char>, pos: int) -> int {
    let whole = run_end(src, pos + 1, Run::Digits);
    if holds(src, whole, '.') && whole + 1 < src.len() && is_digit(src[whole + 1]) {
        run_end(src, whole + 1, Run::Digits)
    } else {
        whole
    }
}

/// A number that starts at `pos`.
pub open spec fn number_step(src: Seq<char>, pos: int, line: nat) -> Step {
    let end = number_end(src, pos);
    emitted(end, line, TokenView::Number { value: src.subrange(pos, end), line })
}

/// A word that starts at `pos`.
pub open spec fn word_step(src: Seq<char>, pos: int, line: nat) -> Step {
    let end = run_end(src, pos + 1, Run::Word);
    emitted(end, line, word_token(src.subrange(pos, end), line))
}

/// An operator of one character that `=` may follow to make another.
pub open spec fn pair_step(
    src: Seq<char>,
    pos: int,
    line: nat,
    single: TokenView,
    double: TokenView,
) -> Step {
    if holds(src, pos + 1, '=') {
        emitted(pos + 2, line, double)
    } else {
        emitted(pos + 1, line, single)
    }
}

/// Reads the lexical unit that starts at `pos`, with `line` the line that
/// `pos` stands on.
pub open spec fn scan_token(src: Seq<char>, pos: int, line: nat) -> Step
    recommends
        0 <= pos < src.len(),
{
    let c = src[pos];
    if c == '(' {
        emitted(pos + 1, line, TokenView::LeftParen { line })
    } else if c == ')' {
        emitted(pos + 1, line, TokenView::RightParen { line })
    } else if c == '{' {
        emitted(pos + 1, line, TokenView::LeftBrace { line })
    } else if c == '}' {
        emitted(pos + 1, line, TokenView::RightBrace { line })
    } else if c == ',' {
        emitted(pos + 1, line, TokenView::Comma { line })
    } else if c == '.' {
        emitted(pos + 1, line, TokenView::Dot { line })
    } else if c == '-' {
        emitted(pos + 1, line, TokenView::Minus { line })
    } else if c == '+' {
        emitted(pos + 1, line, TokenView::Plus { line })
    } else if c == ';' {
        emitted(pos + 1, line, TokenView::Semicolon { line })
    } else if c == '*' {
        emitted(pos + 1, line, TokenView::Star { line })
    } else if c == '!' {
        pair_step(src, pos, line, TokenView::Bang { line }, TokenView::BangEqual { line })
    } else if c == '=' {
        pair_step(src, pos, line, TokenView::Equal { line }, TokenView::EqualEqual { line })
    } else if c == '<' {
        pair_step(src, pos, line, TokenView::Less { line }, TokenView::LessEqual { line })
    } else if c == '>' {
        pair_step(src, pos, line, TokenView::Greater { line }, TokenView::GreaterEqual { line })
    } else if c == '/' {
        if holds(src, pos + 1, '/') {
            skipped(run_end(src, pos + 2, Run::Comment), line)
        } else {
            emitted(pos + 1, line, TokenView::Slash { line })
        }
    } else if c == ' ' || c == '\r' || c == '\t' {
        skipped(pos + 1, line)
    } else if c == '\n' {
        skipped(pos + 1, line + 1)
    } else if c == '"' {
        string_step(src, pos, line)
    } else if is_digit(c) {
        number_step(src, pos, line)
    } else if word_char(c) {
        word_step(src, pos, line)
    } else {
        Step { next: pos + 1, line, token: None, error: Some(unexpected_character(c, line)) }
    }
}

/// What scanning yields: the tokens in source order and the diagnostics in
/// the order they were found.
pub struct Scanned {
    pub tokens: Seq<TokenView>,
    pub errors: Seq<Seq<char>>,
}

/// The one element of `item`, or nothing.
pub open spec fn listed<T>(item: Option<T>) -> Seq<T> {
    match item {
        Some(x) => seq![x],
        None => Seq::empty(),
    }
}

/// Scans `src` from `pos` to its end, with `line` the line that `pos`
/// stands on, and closes the tokens with the end-of-input mark.
pub open spec fn scan_from(src: Seq<char>, pos: int, line: nat) -> Scanned
    decreases src.len() - pos,
{
    if 0 <= pos < src.len() {
        let step = scan_token(src, pos, line);
        proof {
            lemma_step_advances(src, pos, line);
        }
        let rest = scan_from(src, step.next, step.line);
        Scanned {
            tokens: listed(step.token) + rest.tokens,
            errors: listed(step.error) + rest.errors,
        }
    } else {
        Scanned { tokens: seq![TokenView::Eof], errors: Seq::empty() }
    }
}

/// A stretch ends between its start and the end of the text, and every
/// character in it continues it.
pub proof fn lemma_run_end(src: Seq<char>, from: int, run: Run)
    requires
        0 <= from <= src.len(),
    ensures
        from <= run_end(src, from, run) <= src.len(),
        run_end(src, from, run) < src.len() ==> !belongs(run, src[run_end(src, from, run)]),
        forall|i: int| from <= i < run_end(src, from, run) ==> belongs(run, #[trigger] src[i]),
    decreases src.len() - from,
{
    if from < src.len() && belongs(run, src[from]) {
        lemma_run_end(src, from + 1, run);
    }
}

/// Every step moves the cursor forward and keeps it inside the text.
pub proof fn lemma_step_advances(src: Seq<char>, pos: int, line: nat)
    requires
        0 <= pos < src.len(),
    ensures
        pos < scan_token(src, pos, line).next <= src.len(),
{
    lemma_run_end(src, pos + 1, Run::Digits);
    lemma_run_end(src, pos + 1, Run::Word);
    lemma_run_end(src, pos + 1, Run::Text);
    if pos + 2 <= src.len() {
        lemma_run_end(src, pos + 2, Run::Comment);
    }
    let whole = run_end(src, pos + 1, Run::Digits);
    if whole + 1 <= src.len() {
        lemma_run_end(src, whole + 1, Run::Digits);
    }
}

/// The state of a scanner, as contracts see it.
pub struct ScannerView {
    /// The tokens made so far.
    pub tokens: Seq<TokenView>,
    /// The caller's diagnostics, with those the scanner has added.
    pub errors: Seq<Seq<char>>,
    /// The text being scanned.
    pub source: Seq<char>,
    /// Where the lexical unit being read began.
    pub start: int,
    /// The first character not read yet.
    pub current: int,
    /// The line that `current` stands on, counted from 1.
    pub line: nat,
}

/// The state after a step that began at `state.current`.
pub open spec fn stepped(state: ScannerView, step: Step) -> ScannerView {
    ScannerView {
        tokens: state.tokens + listed(step.token),
        errors: state.errors + listed(step.error),
        source: state.source,
        start: state.current,
        current: step.next,
        line: step.line,
    }
}

/// Turns source text into tokens. It never gives up: what it cannot read it
/// reports to the caller's list of diagnostics and goes on behind it.
pub struct Scanner<'a> {
    tokens: Vec<Token>,
    errors: &'a mut Vec<String>,
    source: Vec<char>,
    start: usize,
    current: usize,
    line: usize,
}

/// The characters of `text`, one by one.
pub fn characters(text: &str) -> (chars: Vec<char>)
    ensures
        chars@ == text@,
{
    broadcast use vstd::string::group_string_axioms;

    let mut rest = text.chars();
    let mut chars: Vec<char> = Vec::new();
    loop
        invariant
            chars@ + rest.remaining() == text@,
            rest.obeys_prophetic_iter_laws(),
            rest.decrease() is Some,
        ensures
            chars@ == text@,
        decreases rest.decrease()->0,
    {
        match rest.next() {
            Some(c) => {
                chars.push(c);
                assert(chars@ + rest.remaining() =~= text@);
            },
            None => {
                assert(chars@ =~= text@);
                break ;
            },
        }
    }
    chars
}

/// Whether `c` continues a stretch of the given kind.
fn continues(run: Run, c: char) -> (yes: bool)
    ensures
        yes == belongs(run, c),
{
    match run {
        Run::Digits => digit(c),
        Run::Word => c.is_alphanumeric() || c == '_',
        Run::Comment => c != '\n',
        Run::Text => c != '"',
    }
}

/// Whether `text` spells `word`.
fn spells(text: &String, word: &str) -> (yes: bool)
    ensures
        yes == (text@ == word@),
{
    let other = String::from_str(word);
    text.eq(&other)
}

impl<'a> Scanner<'a> {
    pub closed spec fn view(&self) -> ScannerView {
        ScannerView {
            tokens: views(self.tokens@),
            errors: texts((*self.errors)@),
            source: self.source@,
            start: self.start as int,
            current: self.current as int,
            line: self.line as nat,
        }
    }

    /// The list that the diagnostics go to. What it holds once the scanner
    /// has let go of it is what the caller reads.
    pub closed spec fn sink(&self) -> &'a mut Vec<String> {
        self.errors
    }

    /// The cursors stand inside the text, and the line counter has counted
    /// no more line feeds than characters were read.
    pub closed spec fn well_formed(&self) -> bool {
        &&& self.start <= self.current <= self.source@.len() < usize::MAX
        &&& self.line <= self.current + 1
    }

    /// A scanner at the start of `source`, on line 1, that will add its
    /// diagnostics to `errors`.
    pub fn new(source: &'a str, errors: &'a mut Vec<String>) -> (scanner: Scanner<'a>)
        requires
            source@.len() < usize::MAX,
        ensures
            scanner.well_formed(),
            scanner@ == (ScannerView {
                tokens: Seq::empty(),
                errors: texts(old(errors)@),
                source: source@,
                start: 0,
                current: 0,
                line: 1,
            }),
            *final(scanner.sink()) == *final(errors),
    {
        let scanner = Scanner {
            tokens: Vec::new(),
            errors,
            source: characters(source),
            start: 0,
            current: 0,
            line: 1,
        };
        assert(views(scanner.tokens@) =~= Seq::empty());
        scanner
    }

    /// Scans from the cursor to the end of the text and closes the tokens
    /// with the end-of-input mark.
    pub fn scan(&mut self)
        requires
            old(self).well_formed(),
        ensures
            final(self).well_formed(),
            final(self)@.tokens == old(self)@.tokens + scan_from(
                old(self)@.source,
                old(self)@.current,
                old(self)@.line,
            ).tokens,
            final(self)@.errors == old(self)@.errors + scan_from(
                old(self)@.source,
                old(self)@.current,
                old(self)@.line,
            ).errors,
            final(self)@.source == old(self)@.source,
            final(self)@.current == old(self)@.source.len(),
            final(self)@.tokens.last() == TokenView::Eof,
            *final(final(self).sink()) == *final(old(self).sink()),
    {
        let ghost before = self@;
        let ghost goal = scan_from(before.source, before.current, before.line);
        while self.current < self.source.len()
            invariant
                self.well_formed(),
                self@.source == before.source,
                before.tokens + goal.tokens == self@.tokens + scan_from(
                    self@.source,
                    self@.current,
                    self@.line,
                ).tokens,
                before.errors + goal.errors == self@.errors + scan_from(
                    self@.source,
                    self@.current,
                    self@.line,
                ).errors,
                *final(self.sink()) == *final(old(self).sink()),
            decreases self.source@.len() - self.current,
        {
            let ghost here = self@;
            proof {
                lemma_step_advances(here.source, here.current, here.line);
            }
            self.start = self.current;
            self.scan_token();
            proof {
                let step = scan_token(here.source, here.current, here.line);
                let rest = scan_from(here.source, step.next, step.line);
                assert(here.tokens + (listed(step.token) + rest.tokens) =~= (here.tokens + listed(
                    step.token,
                )) + rest.tokens);
                assert(here.errors + (listed(step.error) + rest.errors) =~= (here.errors + listed(
                    step.error,
                )) + rest.errors);
            }
        }
        let ghost done = self@;
        self.tokens.push(Token::Eof);
        proof {
            assert(views(self.tokens@) =~= done.tokens.push(TokenView::Eof));
            assert(done.tokens + seq![TokenView::Eof] =~= done.tokens.push(TokenView::Eof));
            assert(done.errors + Seq::<Seq<char>>::empty() =~= done.errors);
        }
    }

    /// The tokens made so far.
    pub fn into_tokens(self) -> (tokens: Vec<Token>)
        ensures
            views(tokens@) == self@.tokens,
            texts((*final(self.sink()))@) == self@.errors,
    {
        self.tokens
    }

    /// Adds `token` to the tokens.
    fn emit(&mut self, token: Token)
        ensures
            final(self)@ == (ScannerView { tokens: old(self)@.tokens.push(token@), ..old(self)@ }),
            final(self).well_formed() == old(self).well_formed(),
            *final(final(self).sink()) == *final(old(self).sink()),
    {
        self.tokens.push(token);
        assert(views(self.tokens@) =~= views(old(self).tokens@).push(token@));
    }

    /// Adds `message` to the diagnostics.
    fn report(&mut self, message: String)
        ensures
            final(self)@ == (ScannerView { errors: old(self)@.errors.push(message@), ..old(self)@ }),
            final(self).well_formed() == old(self).well_formed(),
            *final(final(self).sink()) == *final(old(self).sink()),
    {
        self.errors.push(message);
        assert(texts((*self.errors)@) =~= texts((*old(self).errors)@).push(message@));
    }

    /// The characters from `from` up to `to`.
    fn text(&self, from: usize, to: usize) -> (text: String)
        requires
            from <= to <= self@.source.len(),
        ensures
            text@ == self@.source.subrange(from as int, to as int),
    {
        let mut text = String::new();
        let mut i: usize = from;
        while i < to
            invariant
                from <= i <= to <= self.source@.len(),
                text@ == self.source@.subrange(from as int, i as int),
            decreases to - i,
        {
            text.push(self.source[i]);
            i = i + 1;
            assert(text@ =~= self.source@.subrange(from as int, i as int));
        }
        text
    }

    /// Reads the next character, if there is one.
    fn advance(&mut self) -> (c: Option<char>)
        requires
            old(self).well_formed(),
        ensures
            final(self).well_formed(),
            old(self)@.current < old(self)@.source.len() ==> c == Some(
                old(self)@.source[old(self)@.current],
            ) && final(self)@ == (ScannerView {
                current: old(self)@.current + 1,
                ..old(self)@
            }),
            old(self)@.current >= old(self)@.source.len() ==> c.is_none() && final(self)@ == old(
                self,
            )@,
            *final(final(self).sink()) == *final(old(self).sink()),
    {
        if self.current < self.source.len() {
            let c = self.source[self.current];
            self.current = self.current + 1;
            Some(c)
        } else {
            None
        }
    }

    /// Reads the next character if it is `expected`.
    fn match_char(&mut self, expected: char) -> (matched: bool)
        requires
            old(self).well_formed(),
        ensures
            final(self).well_formed(),
            matched == holds(old(self)@.source, old(self)@.current, expected),
            final(self)@ == (ScannerView {
                current: if matched {
                    old(self)@.current + 1
                } else {
                    old(self)@.current
                },
                ..old(self)@
            }),
            *final(final(self).sink()) == *final(old(self).sink()),
    {
        if self.current >= self.source.len() {
            return false;
        }
        if self.source[self.current] == expected {
            self.current = self.current + 1;
            true
        } else {
            false
        }
    }

    /// Reads on to the end of a stretch of the given kind, counting the
    /// lines that a stretch of text spans.
    fn consume(&mut self, run: Run)
        requires
            old(self).well_formed(),
        ensures
            final(self).well_formed(),
            final(self)@ == (ScannerView {
                current: run_end(old(self)@.source, old(self)@.current, run),
                line: if run is Text {
                    old(self)@.line + newlines(
                        old(self)@.source.subrange(
                            old(self)@.current,
                            run_end(old(self)@.source, old(self)@.current, run),
                        ),
                    )
                } else {
                    old(self)@.line
                },
                ..old(self)@
            }),
            *final(final(self).sink()) == *final(old(self).sink()),
    {
        let ghost before = self@;
        let ghost src = self.source@;
        let ghost from = self.current as int;
        assert(src.subrange(from, from) =~= Seq::<char>::empty());
        while self.current < self.source.len() && continues(run, self.source[self.current])
            invariant
                self.well_formed(),
                self.source@ == src,
                0 <= from <= self.current <= src.len(),
                run_end(src, self.current as int, run) == run_end(src, from, run),
                self.line == if run is Text {
                    before.line + newlines(src.subrange(from, self.current as int))
                } else {
                    before.line
                },
                self@ == (ScannerView { current: self.current as int, line: self.line as nat, ..before }),
                *final(self.sink()) == *final(old(self).sink()),
            decreases src.len() - self.current,
        {
            let c = self.source[self.current];
            proof {
                let longer = src.subrange(from, self.current + 1);
                assert(longer.drop_last() =~= src.subrange(from, self.current as int));
                assert(longer.last() == c);
            }
            self.current = self.current + 1;
            if let Run::Text = run {
                if c == '\n' {
                    self.line = self.line + 1;
                }
            }
        }
    }

    /// Finishes a word whose first character was just read.
    fn identifier(&mut self)
        requires
            old(self).well_formed(),
            old(self)@.current == old(self)@.start + 1,
        ensures
            final(self).well_formed(),
            final(self)@ == (ScannerView { start: old(self)@.start, ..stepped(
                (ScannerView { current: old(self)@.start, ..old(self)@ }),
                word_step(old(self)@.source, old(self)@.start, old(self)@.line),
            ) }),
            *final(final(self).sink()) == *final(old(self).sink()),
    {
        proof {
            lemma_run_end(self@.source, self@.current, Run::Word);
        }
        self.consume(Run::Word);
        let text = self.text(self.start, self.current);
        let line = self.line;
        let token = if spells(&text, "and") {
            Token::And { line }
        } else if spells(&text, "class") {
            Token::Class { line }
        } else if spells(&text, "else") {
            Token::Else { line }
        } else if spells(&text, "false") {
            Token::False { line, value: false }
        } else if spells(&text, "for") {
            Token::For { line }
        } else if spells(&text, "fun") {
            Token::Fun { line }
        } else if spells(&text, "if") {
            Token::If { line }
        } else if spells(&text, "nil") {
            Token::Nil { line }
        } else if spells(&text, "or") {
            Token::Or { line }
        } else if spells(&text, "print") {
            Token::Print { line }
        } else if spells(&text, "return") {
            Token::Return { line }
        } else if spells(&text, "super") {
            Token::Super { line }
        } else if spells(&text, "this") {
            Token::This { line }
        } else if spells(&text, "true") {
            Token::True { line, value: true }
        } else if spells(&text, "var") {
            Token::Var { line }
        } else if spells(&text, "while") {
            Token::While { line }
        } else {
            Token::Identifier(Identifier { line, value: text })
        };
        self.emit(token);
        assert(final(self)@.tokens =~= old(self)@.tokens + listed(
            word_step(old(self)@.source, old(self)@.start, old(self)@.line).token,
        ));
        assert(final(self)@.errors =~= old(self)@.errors + listed(
            word_step(old(self)@.source, old(self)@.start, old(self)@.line).error,
        ));
    }

    /// Finishes a number whose first digit was just read.
    fn number(&mut self)
        requires
            old(self).well_formed(),
            old(self)@.current == old(self)@.start + 1,
        ensures
            final(self).well_formed(),
            final(self)@ == (ScannerView { start: old(self)@.start, ..stepped(
                (ScannerView { current: old(self)@.start, ..old(self)@ }),
                number_step(old(self)@.source, old(self)@.start, old(self)@.line),
            ) }),
            *final(final(self).sink()) == *final(old(self).sink()),
    {
        proof {
            lemma_run_end(self@.source, self@.current, Run::Digits);
        }
        self.consume(Run::Digits);
        if self.current < self.source.len() - 1 && self.source[self.current] == '.' && digit(
            self.source[self.current + 1],
        ) {
            self.current = self.current + 1;
            proof {
                lemma_run_end(self@.source, self@.current, Run::Digits);
            }
            self.consume(Run::Digits);
        }
        let value = self.text(self.start, self.current);
        let line = self.line;
        self.emit(Token::Number { line, value });
        assert(final(self)@.tokens =~= old(self)@.tokens + listed(
            number_step(old(self)@.source, old(self)@.start, old(self)@.line).token,
        ));
        assert(final(self)@.errors =~= old(self)@.errors + listed(
            number_step(old(self)@.source, old(self)@.start, old(self)@.line).error,
        ));
    }

    /// Finishes a string whose opening quote was just read.
    fn string(&mut self)
        requires
            old(self).well_formed(),
            old(self)@.current == old(self)@.start + 1,
        ensures
            final(self).well_formed(),
            final(self)@ == (ScannerView { start: old(self)@.start, ..stepped(
                (ScannerView { current: old(self)@.start, ..old(self)@ }),
                string_step(old(self)@.source, old(self)@.start, old(self)@.line),
            ) }),
            *final(final(self).sink()) == *final(old(self).sink()),
    {
        proof {
            lemma_run_end(self@.source, self@.current, Run::Text);
        }
        let from = self.current;
        self.consume(Run::Text);
        let value = self.text(from, self.current);
        let line = self.line;
        match self.advance() {
            Some(_) => {
                self.emit(Token::String { line, value });
            },
            None => {
                let mut message = String::from_str("Unterminated string at line ");
                let number = decimal_text(line);
                message.append(number.as_str());
                self.report(message);
            },
        }
        assert(final(self)@.tokens =~= old(self)@.tokens + listed(
            string_step(old(self)@.source, old(self)@.start, old(self)@.line).token,
        ));
        assert(final(self)@.errors =~= old(self)@.errors + listed(
            string_step(old(self)@.source, old(self)@.start, old(self)@.line).error,
        ));
    }

    /// Reads one lexical unit, from `start`, which stands at the cursor.
    fn scan_token(&mut self)
        requires
            old(self).well_formed(),
            old(self)@.start == old(self)@.current,
            old(self)@.current < old(self)@.source.len(),
        ensures
            final(self).well_formed(),
            final(self)@ == stepped(
                old(self)@,
                scan_token(old(self)@.source, old(self)@.current, old(self)@.line),
            ),
            *final(final(self).sink()) == *final(old(self).sink()),
    {
        let ghost before = self@;
        let ghost step = scan_token(before.source, before.current, before.line);
        let line = self.line;
        let c = match self.advance() {
            Some(c) => c,
            None => {
                return ;
            },
        };
        if c == '(' {
            self.emit(Token::LeftParen { line });
        } else if c == ')' {
            self.emit(Token::RightParen { line });
        } else if c == '{' {
            self.emit(Token::LeftBrace { line });
        } else if c == '}' {
            self.emit(Token::RightBrace { line });
        } else if c == ',' {
            self.emit(Token::Comma { line });
        } else if c == '.' {
            self.emit(Token::Dot { line });
        } else if c == '-' {
            self.emit(Token::Minus { line });
        } else if c == '+' {
            self.emit(Token::Plus { line });
        } else if c == ';' {
            self.emit(Token::Semicolon { line });
        } else if c == '*' {
            self.emit(Token::Star { line });
        } else if c == '!' {
            let token = if self.match_char('=') {
                Token::BangEqual { line }
            } else {
                Token::Bang { line }
            };
            self.emit(token);
        } else if c == '=' {
            let token = if self.match_char('=') {
                Token::EqualEqual { line }
            } else {
                Token::Equal { line }
            };
            self.emit(token);
        } else if c == '<' {
            let token = if self.match_char('=') {
                Token::LessEqual { line }
            } else {
                Token::Less { line }
            };
            self.emit(token);
        } else if c == '>' {
            let token = if self.match_char('=') {
                Token::GreaterEqual { line }
            } else {
                Token::Greater { line }
            };
            self.emit(token);
        } else if c == '/' {
            if self.match_char('/') {
                proof {
                    lemma_run_end(self@.source, self@.current, Run::Comment);
                }
                self.consume(Run::Comment);
            } else {
                self.emit(Token::Slash { line });
            }
        } else if c == ' ' || c == '\r' || c == '\t' {
        } else if c == '\n' {
            self.line = self.line + 1;
        } else if c == '"' {
            self.string();
        } else if digit(c) {
            self.number();
        } else if c.is_alphanumeric() || c == '_' {
            self.identifier();
        } else {
            let mut message = String::from_str("Unexpected character '");
            message.push(c);
            message.append("' at line ");
            let number = decimal_text(line);
            message.append(number.as_str());
            assert(message@ =~= unexpected_character(c, line as nat));
            self.report(message);
        }
        assert(self@.tokens =~= before.tokens + listed(step.token));
        assert(self@.errors =~= before.errors + listed(step.error));
    }
}

/// The tokens of a text end with the end-of-input mark, and it stands
/// nowhere else among them, wherever in the text the scanning began.
pub proof fn law_tokens_end_with_eof(src: Seq<char>, pos: int, line: nat)
    ensures
        scan_from(src, pos, line).tokens.len() > 0,
        scan_from(src, pos, line).tokens.last() == TokenView::Eof,
        forall|i: int|
            0 <= i < scan_from(src, pos, line).tokens.len() - 1 ==> !(#[trigger] scan_from(
                src,
                pos,
                line,
            ).tokens[i] is Eof),
    decreases src.len() - pos,
{
    if 0 <= pos < src.len() {
        let step = scan_token(src, pos, line);
        lemma_step_advances(src, pos, line);
        law_tokens_end_with_eof(src, step.next, step.line);
        let rest = scan_from(src, step.next, step.line);
        let all = scan_from(src, pos, line).tokens;
        assert(all == listed(step.token) + rest.tokens);
        assert(step.token is Some ==> !(step.token->0 is Eof));
        assert forall|i: int| 0 <= i < all.len() - 1 implies !(#[trigger] all[i] is Eof) by {
            if step.token is Some && i > 0 {
                assert(all[i] == rest.tokens[i - 1]);
            } else if step.token is None {
                assert(all[i] == rest.tokens[i]);
            }
        }
    }
}

/// A string that is not closed before the text ends gives no token: from
/// its opening quote on, scanning yields the end-of-input mark alone and
/// one diagnostic, which names the line that the text ends on.
pub proof fn law_unterminated_string(src: Seq<char>, pos: int, line: nat)
    requires
        0 <= pos < src.len(),
        src[pos] == '"',
        forall|i: int| pos < i < src.len() ==> src[i] != '"',
    ensures
        scan_from(src, pos, line) == (Scanned {
            tokens: seq![TokenView::Eof],
            errors: seq![
                unterminated_string(line + newlines(src.subrange(pos + 1, src.len() as int))),
            ],
        }),
{
    lemma_run_end(src, pos + 1, Run::Text);
    let close = run_end(src, pos + 1, Run::Text);
    assert(close == src.len()) by {
        if close < src.len() {
            assert(!belongs(Run::Text, src[close]));
        }
    }
    let step = scan_token(src, pos, line);
    let rest = scan_from(src, step.next, step.line);
    assert(listed(step.token) + rest.tokens =~= seq![TokenView::Eof]);
    assert(listed(step.error) + rest.errors =~= seq![
        unterminated_string(line + newlines(src.subrange(pos + 1, src.len() as int))),
    ]);
}

} // verus!
