//! The scanner: from source text to tokens.

use crate::error::{ErrorKind, LoxError, LoxErrorView};
use crate::grammar;
use crate::lexemes;
use crate::lexemes::{Lexed, NumberReader, Step};
use crate::tokens::{token_views, Literal, Token, TokenType, TokenView};
use vstd::prelude::*;
use vstd::string::StrSliceExecFns;

verus! {

/// The characters of `text`, one by one.
pub fn characters(text: &str) -> (chars: Vec<char>)
    ensures
        chars@ == text@,
{
    let mut chars: Vec<char> = Vec::new();
    for c in it: text.chars()
        invariant
            chars@ == it.seq().take(it.index() as int),
            it.seq() == text@,
    {
        chars.push(c);
    }
    chars
}

/// The models of a sequence of errors, in order.
pub open spec fn error_views(errors: Seq<LoxError>) -> Seq<LoxErrorView> {
    Seq::new(errors.len(), |i: int| errors[i]@)
}

/// Whether every result of the executable `parse_number` is the one that
/// `read` gives for the same text.
pub open spec fn reads<F: Fn(&str) -> Option<u64>>(parse_number: &F, read: NumberReader) -> bool {
    forall|text: &str, value: Option<u64>|
        call_ensures(parse_number, (text,), value) ==> value == read(text@)
}

/// Whether `read` says what a scan with `parse_number` yields: it is what
/// `parse_number` computes, or the scan is one that needs no numeral read,
/// so that every `read` says the same.
pub open spec fn interprets<F: Fn(&str) -> Option<u64>>(
    parse_number: &F,
    read: NumberReader,
    needed: bool,
) -> bool {
    !needed || reads(parse_number, read)
}

/// Whether the character at `pos` is a digit.
pub open spec fn digit_at(source: Seq<char>, pos: int) -> bool {
    0 <= pos < source.len() && lexemes::is_digit(source[pos])
}

/// Whether the text holds a digit.
pub open spec fn has_digit(source: Seq<char>) -> bool {
    exists|pos: int| #[trigger] digit_at(source, pos)
}

/// Whether `parse_number` may be called on every text.
pub open spec fn reads_all<F: Fn(&str) -> Option<u64>>(parse_number: &F) -> bool {
    forall|text: &str| call_requires(parse_number, (text,))
}

/// Whether every number and string token carries a number or a string.
pub open spec fn valued(tokens: Seq<TokenView>) -> bool {
    forall|i: int|
        0 <= i < tokens.len() && (#[trigger] tokens[i].token_type == TokenType::Number
            || tokens[i].token_type == TokenType::String) ==> grammar::has_value(tokens[i])
}

fn is_digit(c: char) -> (r: bool)
    ensures
        r == lexemes::is_digit(c),
{
    '0' <= c && c <= '9'
}

fn is_alphabetic(c: char) -> (r: bool)
    ensures
        r == lexemes::is_alphabetic(c),
{
    ('a' <= c && c <= 'z') || ('A' <= c && c <= 'Z')
}

fn is_alphanumeric(c: char) -> (r: bool)
    ensures
        r == lexemes::is_alphanumeric(c),
{
    is_digit(c) || is_alphabetic(c)
}

/// A run that starts with a character that is wanted goes on behind it.
proof fn lemma_run_step(source: Seq<char>, from: int, wanted: spec_fn(char) -> bool)
    requires
        0 <= from < source.len(),
        wanted(source[from]),
    ensures
        lexemes::run(source, from, wanted) == 1 + lexemes::run(source, from + 1, wanted),
{
}

/// A run ends at the end of the text and at a character that is not
/// wanted.
proof fn lemma_run_end(source: Seq<char>, from: int, wanted: spec_fn(char) -> bool)
    requires
        !(0 <= from < source.len()) || !wanted(source[from]),
    ensures
        lexemes::run(source, from, wanted) == 0,
{
}

/// The scanner: the text, the place of reading in it, and what was found
/// so far.
pub struct Scanner {
    source: String,
    chars: Vec<char>,
    ascii: bool,
    tokens: Vec<Token>,
    errors: Vec<LoxError>,
    // start: where the lexeme being scanned starts,
    // current: the character that is read next,
    // line: the line that character is on
    start: usize,
    current: usize,
    line: u32,
}

impl Scanner {
    /// The text that is scanned.
    pub closed spec fn text(&self) -> Seq<char> {
        self.source@
    }

    /// The position of the character that is read next.
    pub closed spec fn position(&self) -> int {
        self.current as int
    }

    /// The line of the character that is read next.
    pub closed spec fn line(&self) -> u32 {
        self.line
    }

    /// The tokens found so far.
    pub closed spec fn found(&self) -> Seq<TokenView> {
        token_views(self.tokens@)
    }

    /// The errors found so far.
    pub closed spec fn faults(&self) -> Seq<LoxErrorView> {
        error_views(self.errors@)
    }

    /// Whether the scanner is in order.
    pub closed spec fn wf(&self) -> bool {
        &&& self.chars@ == self.source@
        &&& self.ascii == self.source.is_ascii()
        &&& self.start <= self.current <= self.chars@.len()
        &&& valued(self.found())
    }

    /// A scanner at the start of `source`, on line 1.
    pub fn new(source: String) -> (scanner: Self)
        ensures
            scanner.wf(),
            scanner.text() == source@,
            scanner.position() == 0,
            scanner.line() == 1,
            scanner.found() == Seq::<TokenView>::empty(),
            scanner.faults() == Seq::<LoxErrorView>::empty(),
    {
        let chars = characters(source.as_str());
        let ascii = source.is_ascii();
        let scanner = Self {
            source,
            chars,
            ascii,
            tokens: Vec::new(),
            errors: Vec::new(),
            start: 0,
            current: 0,
            line: 1,
        };
        assert(scanner.found() =~= Seq::<TokenView>::empty());
        assert(scanner.faults() =~= Seq::<LoxErrorView>::empty());
        scanner
    }

    /// The tokens found. The scanner is used up.
    pub fn tokens(self) -> (tokens: Vec<Token>)
        ensures
            token_views(tokens@) == self.found(),
    {
        self.tokens
    }

    /// The tokens and the errors found. The scanner is used up.
    pub fn into_parts(self) -> (parts: (Vec<Token>, Vec<LoxError>))
        ensures
            token_views(parts.0@) == self.found(),
            error_views(parts.1@) == self.faults(),
    {
        (self.tokens, self.errors)
    }

    fn is_at_end(&self) -> (end: bool)
        requires
            self.wf(),
        ensures
            end == (self.current >= self.text().len()),
    {
        self.current >= self.chars.len()
    }

    fn peek(&self) -> (c: char)
        requires
            self.wf(),
        ensures
            c == if self.current < self.text().len() {
                self.text()[self.current as int]
            } else {
                '\0'
            },
    {
        if self.is_at_end() {
            return '\0';
        }
        self.chars[self.current]
    }

    /// Whether only the place of reading has changed, by `taken`
    /// characters.
    spec fn moved(&self, before: &Scanner, taken: int) -> bool {
        &&& self.wf()
        &&& self.source == before.source
        &&& self.chars == before.chars
        &&& self.tokens == before.tokens
        &&& self.errors == before.errors
        &&& self.start == before.start
        &&& self.line == before.line
        &&& self.current == before.current + taken
    }

    fn advance(&mut self) -> (c: char)
        requires
            old(self).wf(),
            old(self).current < old(self).text().len(),
        ensures
            final(self).moved(old(self), 1),
            c == old(self).text()[old(self).current as int],
    {
        let c = self.chars[self.current];
        assert(self.current < self.chars.len());
        self.current += 1;
        c
    }

    fn match_token(&mut self, expected: char) -> (matched: bool)
        requires
            old(self).wf(),
        ensures
            matched == lexemes::holds(old(self).text(), old(self).current as int, expected),
            final(self).moved(old(self), if matched { 1int } else { 0int }),
    {
        if self.is_at_end() || self.peek() != expected {
            false
        } else {
            assert(self.current < self.chars.len());
            self.current += 1;
            true
        }
    }

    /// The text from `from` up to `to`.
    fn lexeme(&self, from: usize, to: usize) -> (text: String)
        requires
            self.wf(),
            from <= to <= self.text().len(),
        ensures
            text@ == self.text().subrange(from as int, to as int),
    {
        if self.ascii {
            self.source.as_str().substring_ascii(from, to).to_owned()
        } else {
            self.source.as_str().substring_char(from, to).to_owned()
        }
    }

    /// Whether what `self` has found is what `before` had found and then
    /// what `lexed` holds.
    spec fn gained(&self, before: &Scanner, lexed: Lexed) -> bool {
        match lexed {
            Lexed::Token(token) => self.found() == before.found().push(token) && self.faults()
                == before.faults(),
            Lexed::Error(error) => self.found() == before.found() && self.faults()
                == before.faults().push(error),
            Lexed::Nothing => self.found() == before.found() && self.faults() == before.faults(),
        }
    }

    /// Whether only what was found has changed.
    spec fn kept(&self, before: &Scanner) -> bool {
        &&& self.wf()
        &&& self.source == before.source
        &&& self.chars == before.chars
        &&& self.start == before.start
        &&& self.current == before.current
        &&& self.line == before.line
    }

    fn add_token(&mut self, token_type: TokenType, literal: Option<Literal>)
        requires
            old(self).wf(),
            token_type == TokenType::Number || token_type == TokenType::String ==> (literal matches Some(
                l,
            ) && !(l is Identifier)),
        ensures
            final(self).kept(old(self)),
            final(self).gained(
                old(self),
                Lexed::Token(
                    TokenView {
                        token_type,
                        lexeme: old(self).text().subrange(
                            old(self).start as int,
                            old(self).current as int,
                        ),
                        literal: crate::tokens::literal_view(literal),
                        line: old(self).line,
                    },
                ),
            ),
    {
        let text = self.lexeme(self.start, self.current);
        let token = Token::new(token_type, text, literal, self.line);
        assert(token_views(self.tokens@.push(token)) =~= token_views(self.tokens@).push(token@));
        self.tokens.push(token);
    }

    /// Records an error at the lexeme being scanned.
    fn report(&mut self, kind: ErrorKind, message: &str)
        requires
            old(self).wf(),
        ensures
            final(self).kept(old(self)),
            final(self).gained(
                old(self),
                lexemes::fault(
                    kind,
                    old(self).text(),
                    old(self).start as int,
                    old(self).current as int,
                    old(self).line,
                    message@,
                ),
            ),
    {
        let text = self.lexeme(self.start, self.current);
        let place: u32 = if self.start > u32::MAX as usize {
            u32::MAX
        } else {
            self.start as u32
        };
        let error = LoxError::new(kind, self.line, place, text, message.to_owned());
        assert(error_views(self.errors@.push(error)) =~= error_views(self.errors@).push(error@));
        self.errors.push(error);
    }

    /// Whether `self` is what one step makes of `before`, where the step
    /// starts at the lexeme that `before` was scanning.
    spec fn stepped(&self, before: &Scanner, step: Step) -> bool {
        &&& self.source == before.source
        &&& self.chars == before.chars
        &&& self.current == before.start + 1 + step.more
        &&& self.line == step.line
        &&& self.gained(before, step.lexed)
    }

    /// Whether `self` has gone on from `before` by at least a character
    /// and at most a token.
    spec fn progressed(&self, before: &Scanner) -> bool {
        &&& self.wf()
        &&& self.source == before.source
        &&& self.chars == before.chars
        &&& self.current > before.start
        &&& self.found().len() <= before.found().len() + 1
        &&& before.found().len() <= self.found().len()
    }

    fn next_line(&mut self)
        requires
            old(self).wf(),
        ensures
            final(self).wf(),
            final(self).source == old(self).source,
            final(self).chars == old(self).chars,
            final(self).tokens == old(self).tokens,
            final(self).errors == old(self).errors,
            final(self).start == old(self).start,
            final(self).current == old(self).current,
            final(self).line == lexemes::later_line(old(self).line, 1),
    {
        if self.line < u32::MAX {
            self.line += 1;
        }
    }

    fn string(&mut self)
        requires
            old(self).wf(),
            old(self).current == old(self).start + 1,
        ensures
            final(self).progressed(old(self)),
            final(self).stepped(
                old(self),
                lexemes::string(old(self).text(), old(self).start as int, old(self).line),
            ),
    {
        let ghost body = lexemes::run(self.text(), self.start + 1, lexemes::in_string());
        while self.peek() != '"' && !self.is_at_end()
            invariant
                self.wf(),
                self.source == old(self).source,
                self.chars == old(self).chars,
                self.tokens == old(self).tokens,
                self.errors == old(self).errors,
                self.start == old(self).start,
                self.start + 1 <= self.current <= self.text().len(),
                body == (self.current - self.start - 1) + lexemes::run(
                    self.text(),
                    self.current as int,
                    lexemes::in_string(),
                ),
                self.line == lexemes::later_line(
                    old(self).line,
                    lexemes::line_ends(self.text(), self.start + 1, self.current as int),
                ),
            decreases self.text().len() - self.current,
        {
            proof {
                lemma_run_step(self.text(), self.current as int, lexemes::in_string());
            }
            if self.peek() == '\n' {
                self.next_line();
            }
            self.advance();
        }
        proof {
            lemma_run_end(self.text(), self.current as int, lexemes::in_string());
        }
        if self.is_at_end() {
            self.report(ErrorKind::UnterminatedString, "Unterminated string");
            return ;
        }
        self.advance();  // consume closing "

        let string = self.lexeme(self.start + 1, self.current - 1);

        self.add_token(TokenType::String, Some(Literal::String(string)));
    }

    fn number<F: Fn(&str) -> Option<u64>>(&mut self, parse_number: &F)
        requires
            old(self).wf(),
            old(self).current == old(self).start + 1,
            reads_all(parse_number),
        ensures
            final(self).progressed(old(self)),
            forall|read: NumberReader| #[trigger]
                reads(parse_number, read) ==> final(self).stepped(
                    old(self),
                    lexemes::number(read, old(self).text(), old(self).start as int, old(self).line),
                ),
    {
        let ghost more = lexemes::run(self.text(), self.start + 1, lexemes::in_number());
        while is_digit(self.peek())
            invariant
                self.wf(),
                self.source == old(self).source,
                self.chars == old(self).chars,
                self.tokens == old(self).tokens,
                self.errors == old(self).errors,
                self.start == old(self).start,
                self.line == old(self).line,
                self.start + 1 <= self.current <= self.text().len(),
                more == (self.current - self.start - 1) + lexemes::run(
                    self.text(),
                    self.current as int,
                    lexemes::in_number(),
                ),
            decreases self.text().len() - self.current,
        {
            proof {
                lemma_run_step(self.text(), self.current as int, lexemes::in_number());
            }
            self.advance();
        }
        proof {
            lemma_run_end(self.text(), self.current as int, lexemes::in_number());
        }
        let text = self.lexeme(self.start, self.current);
        match parse_number(text.as_str()) {
            Some(num) => self.add_token(TokenType::Number, Some(Literal::Number(num))),
            None => self.report(ErrorKind::MalformedNumber, "Expected number but failed to parse"),
        }
    }

    /// Whether the lexeme being scanned is `word`.
    fn is_word(&self, word: &[char]) -> (same: bool)
        requires
            self.wf(),
        ensures
            same == (self.text().subrange(self.start as int, self.current as int) == word@),
    {
        let ghost text = self.text().subrange(self.start as int, self.current as int);
        if self.current - self.start != word.len() {
            return false;
        }
        let mut i: usize = 0;
        while i < word.len()
            invariant
                self.wf(),
                i <= word@.len(),
                self.current - self.start == word@.len(),
                text == self.text().subrange(self.start as int, self.current as int),
                forall|j: int| 0 <= j < i ==> text[j] == word@[j],
            decreases word.len() - i,
        {
            if self.chars[self.start + i] != word[i] {
                assert(text[i as int] != word@[i as int]);
                return false;
            }
            i += 1;
        }
        assert(text =~= word@);
        true
    }

    fn identifier(&mut self)
        requires
            old(self).wf(),
            old(self).current == old(self).start + 1,
        ensures
            final(self).progressed(old(self)),
            final(self).stepped(
                old(self),
                lexemes::identifier(old(self).text(), old(self).start as int, old(self).line),
            ),
    {
        let ghost more = lexemes::run(self.text(), self.start + 1, lexemes::in_word());
        while is_alphanumeric(self.peek())
            invariant
                self.wf(),
                self.source == old(self).source,
                self.chars == old(self).chars,
                self.tokens == old(self).tokens,
                self.errors == old(self).errors,
                self.start == old(self).start,
                self.line == old(self).line,
                self.start + 1 <= self.current <= self.text().len(),
                more == (self.current - self.start - 1) + lexemes::run(
                    self.text(),
                    self.current as int,
                    lexemes::in_word(),
                ),
            decreases self.text().len() - self.current,
        {
            proof {
                lemma_run_step(self.text(), self.current as int, lexemes::in_word());
            }
            self.advance();
        }
        proof {
            lemma_run_end(self.text(), self.current as int, lexemes::in_word());
            lemma_keyword_texts();
        }
        if self.is_word(&['a', 'n', 'd']) {
            self.add_token(TokenType::And, None)
        } else if self.is_word(&['c', 'l', 'a', 's', 's']) {
            self.add_token(TokenType::Class, None)
        } else if self.is_word(&['e', 'l', 's', 'e']) {
            self.add_token(TokenType::Else, None)
        } else if self.is_word(&['f', 'a', 'l', 's', 'e']) {
            self.add_token(TokenType::False, None)
        } else if self.is_word(&['f', 'o', 'r']) {
            self.add_token(TokenType::For, None)
        } else if self.is_word(&['f', 'u', 'n']) {
            self.add_token(TokenType::Fun, None)
        } else if self.is_word(&['i', 'f']) {
            self.add_token(TokenType::If, None)
        } else if self.is_word(&['n', 'i', 'l']) {
            self.add_token(TokenType::Nil, None)
        } else if self.is_word(&['o', 'r']) {
            self.add_token(TokenType::Or, None)
        } else if self.is_word(&['p', 'r', 'i', 'n', 't']) {
            self.add_token(TokenType::Print, None)
        } else if self.is_word(&['r', 'e', 't', 'u', 'r', 'n']) {
            self.add_token(TokenType::Return, None)
        } else if self.is_word(&['s', 'u', 'p', 'e', 'r']) {
            self.add_token(TokenType::Super, None)
        } else if self.is_word(&['t', 'h', 'i', 's']) {
            self.add_token(TokenType::This, None)
        } else if self.is_word(&['t', 'r', 'u', 'e']) {
            self.add_token(TokenType::True, None)
        } else if self.is_word(&['v', 'a', 'r']) {
            self.add_token(TokenType::Var, None)
        } else if self.is_word(&['w', 'h', 'i', 'l', 'e']) {
            self.add_token(TokenType::While, None)
        } else {
            let user_literal = self.lexeme(self.start, self.current);
            self.add_token(TokenType::Identifier, Some(Literal::Identifier(user_literal)))
        }
    }

    /// Scans the token that starts at the character read next.
    fn scan_token<F: Fn(&str) -> Option<u64>>(&mut self, parse_number: &F)
        requires
            old(self).wf(),
            old(self).current == old(self).start,
            old(self).current < old(self).text().len(),
            reads_all(parse_number),
        ensures
            final(self).progressed(old(self)),
            forall|read: NumberReader| #[trigger]
                interprets(parse_number, read, digit_at(old(self).text(), old(self).start as int))
                    ==> final(self).stepped(
                    old(self),
                    lexemes::scan_token(read, old(self).text(), old(self).start as int, old(self).line),
                ),
    {
        let c = self.advance();

        match c {
            '(' => self.add_token(TokenType::LeftParen, None),
            ')' => self.add_token(TokenType::RightParen, None),
            '{' => self.add_token(TokenType::LeftBrace, None),
            '}' => self.add_token(TokenType::RightBrace, None),
            ',' => self.add_token(TokenType::Comma, None),
            '.' => self.add_token(TokenType::Dot, None),
            '-' => self.add_token(TokenType::Minus, None),
            '+' => self.add_token(TokenType::Plus, None),
            ';' => self.add_token(TokenType::Semicolon, None),
            '*' => self.add_token(TokenType::Star, None),
            '!' => {
                let token_type = if self.match_token('=') {
                    TokenType::BangEqual
                } else {
                    TokenType::Bang
                };
                self.add_token(token_type, None)
            },
            '=' => {
                let token_type = if self.match_token('=') {
                    TokenType::EqualEqual
                } else {
                    TokenType::Equal
                };
                self.add_token(token_type, None)
            },
            '>' => {
                let token_type = if self.match_token('=') {
                    TokenType::GreaterEqual
                } else {
                    TokenType::Greater
                };
                self.add_token(token_type, None)
            },
            '<' => {
                let token_type = if self.match_token('=') {
                    TokenType::LessEqual
                } else {
                    TokenType::Less
                };
                self.add_token(token_type, None)
            },
            '/' => {
                if self.match_token('/') {
                    let ghost length = lexemes::run(self.text(), self.start + 2, lexemes::in_comment());
                    while !self.is_at_end() && self.peek() != '\n'
                        invariant
                            self.wf(),
                            self.source == old(self).source,
                            self.chars == old(self).chars,
                            self.tokens == old(self).tokens,
                            self.errors == old(self).errors,
                            self.start == old(self).start,
                            self.line == old(self).line,
                            self.start + 2 <= self.current <= self.text().len(),
                            length == (self.current - self.start - 2) + lexemes::run(
                                self.text(),
                                self.current as int,
                                lexemes::in_comment(),
                            ),
                        decreases self.text().len() - self.current,
                    {
                        proof {
                            lemma_run_step(self.text(), self.current as int, lexemes::in_comment());
                        }
                        self.advance();
                    }
                    proof {
                        lemma_run_end(self.text(), self.current as int, lexemes::in_comment());
                    }
                } else {
                    self.add_token(TokenType::Slash, None);
                }
            },
            '\n' => self.next_line(),
            '\t' => (),
            ' ' => (),
            '\r' => (),
            '"' => self.string(),
            _ => {
                if is_digit(c) {
                    self.number(parse_number);
                } else if is_alphabetic(c) {
                    self.identifier();
                } else {
                    self.report(ErrorKind::UnexpectedCharacter, "Unexpected character");
                }
            },
        };
    }

    /// Scans the text from the character read next to its end, and puts
    /// the end marker behind the last token. The value of a numeral is
    /// what `parse_number` makes of its text.
    pub fn scan_tokens<F: Fn(&str) -> Option<u64>>(&mut self, parse_number: &F)
        requires
            old(self).wf(),
            reads_all(parse_number),
        ensures
            final(self).wf(),
            final(self).text() == old(self).text(),
            final(self).position() == final(self).text().len(),
            forall|read: NumberReader| #[trigger]
                interprets(parse_number, read, has_digit(old(self).text())) ==> {
                    let scanned = lexemes::scan(
                        read,
                        old(self).text(),
                        old(self).position(),
                        old(self).line(),
                    );
                    &&& final(self).found() == old(self).found() + scanned.tokens
                    &&& final(self).faults() == old(self).faults() + scanned.errors
                },
            old(self).found().len() == 0 && old(self).text().len() < u32::MAX
                ==> grammar::well_formed(final(self).found()),
    {
        assert(self.found() + Seq::<TokenView>::empty() =~= self.found());
        assert(self.faults() + Seq::<LoxErrorView>::empty() =~= self.faults());
        while !self.is_at_end()
            invariant
                self.wf(),
                self.source == old(self).source,
                self.chars == old(self).chars,
                reads_all(parse_number),
                old(self).current <= self.current <= self.text().len(),
                self.found().len() <= old(self).found().len() + self.current - old(self).current,
                forall|read: NumberReader| #[trigger]
                    interprets(parse_number, read, has_digit(old(self).text())) ==> {
                        let whole = lexemes::scan(
                            read,
                            old(self).text(),
                            old(self).position(),
                            old(self).line(),
                        );
                        let ahead = lexemes::scan(read, self.text(), self.position(), self.line());
                        &&& old(self).found() + whole.tokens == self.found() + ahead.tokens
                        &&& old(self).faults() + whole.errors == self.faults() + ahead.errors
                    },
            decreases self.text().len() - self.current,
        {
            self.start = self.current;
            let ghost before = *self;
            self.scan_token(parse_number);
            proof {
                assert forall|read: NumberReader| #[trigger]
                    interprets(parse_number, read, has_digit(old(self).text())) implies {
                    let whole = lexemes::scan(
                        read,
                        old(self).text(),
                        old(self).position(),
                        old(self).line(),
                    );
                    let ahead = lexemes::scan(read, self.text(), self.position(), self.line());
                    &&& old(self).found() + whole.tokens == self.found() + ahead.tokens
                    &&& old(self).faults() + whole.errors == self.faults() + ahead.errors
                } by {
                    let step = lexemes::scan_token(read, before.text(), before.start as int, before.line);
                    let was = lexemes::scan(read, before.text(), before.position(), before.line());
                    let ahead = lexemes::scan(read, self.text(), self.position(), self.line());
                    assert(interprets(
                        parse_number,
                        read,
                        digit_at(before.text(), before.start as int),
                    ));
                    assert(self.stepped(&before, step));
                    match step.lexed {
                        Lexed::Token(token) => {
                            assert(before.found() + (seq![token] + ahead.tokens)
                                =~= before.found().push(token) + ahead.tokens);
                        },
                        Lexed::Error(error) => {
                            assert(before.faults() + (seq![error] + ahead.errors)
                                =~= before.faults().push(error) + ahead.errors);
                        },
                        Lexed::Nothing => {},
                    }
                }
            }
        }
        proof {
            reveal_strlit("");
        }
        let end = Token::new(TokenType::Eof, "".to_owned(), None, self.line);
        assert(end@.lexeme =~= Seq::<char>::empty());
        assert(token_views(self.tokens@.push(end)) =~= token_views(self.tokens@).push(end@));
        assert forall|read: NumberReader|
            lexemes::scan(read, self.text(), self.position(), self.line()).tokens
                =~= seq![end@] by {}
        assert forall|tokens: Seq<TokenView>| #[trigger] (tokens + seq![end@]) == tokens.push(end@) by {
            assert(tokens + seq![end@] =~= tokens.push(end@));
        }
        self.tokens.push(end);
    }
}

/// The spelling of each keyword.
proof fn lemma_keyword_texts()
    ensures
        "and"@ == seq!['a', 'n', 'd'],
        "class"@ == seq!['c', 'l', 'a', 's', 's'],
        "else"@ == seq!['e', 'l', 's', 'e'],
        "false"@ == seq!['f', 'a', 'l', 's', 'e'],
        "for"@ == seq!['f', 'o', 'r'],
        "fun"@ == seq!['f', 'u', 'n'],
        "if"@ == seq!['i', 'f'],
        "nil"@ == seq!['n', 'i', 'l'],
        "or"@ == seq!['o', 'r'],
        "print"@ == seq!['p', 'r', 'i', 'n', 't'],
        "return"@ == seq!['r', 'e', 't', 'u', 'r', 'n'],
        "super"@ == seq!['s', 'u', 'p', 'e', 'r'],
        "this"@ == seq!['t', 'h', 'i', 's'],
        "true"@ == seq!['t', 'r', 'u', 'e'],
        "var"@ == seq!['v', 'a', 'r'],
        "while"@ == seq!['w', 'h', 'i', 'l', 'e'],
{
    reveal_strlit("and");
    reveal_strlit("class");
    reveal_strlit("else");
    reveal_strlit("false");
    reveal_strlit("for");
    reveal_strlit("fun");
    reveal_strlit("if");
    reveal_strlit("nil");
    reveal_strlit("or");
    reveal_strlit("print");
    reveal_strlit("return");
    reveal_strlit("super");
    reveal_strlit("this");
    reveal_strlit("true");
    reveal_strlit("var");
    reveal_strlit("while");
    assert("and"@ =~= seq!['a', 'n', 'd']);
    assert("class"@ =~= seq!['c', 'l', 'a', 's', 's']);
    assert("else"@ =~= seq!['e', 'l', 's', 'e']);
    assert("false"@ =~= seq!['f', 'a', 'l', 's', 'e']);
    assert("for"@ =~= seq!['f', 'o', 'r']);
    assert("fun"@ =~= seq!['f', 'u', 'n']);
    assert("if"@ =~= seq!['i', 'f']);
    assert("nil"@ =~= seq!['n', 'i', 'l']);
    assert("or"@ =~= seq!['o', 'r']);
    assert("print"@ =~= seq!['p', 'r', 'i', 'n', 't']);
    assert("return"@ =~= seq!['r', 'e', 't', 'u', 'r', 'n']);
    assert("super"@ =~= seq!['s', 'u', 'p', 'e', 'r']);
    assert("this"@ =~= seq!['t', 'h', 'i', 's']);
    assert("true"@ =~= seq!['t', 'r', 'u', 'e']);
    assert("var"@ =~= seq!['v', 'a', 'r']);
    assert("while"@ =~= seq!['w', 'h', 'i', 'l', 'e']);
}

} // verus!
