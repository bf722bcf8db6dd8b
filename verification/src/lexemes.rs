//! The lexical rules, as mathematical functions from the source text and a
//! position to the token that starts there.

use crate::error::{ErrorKind, LoxErrorView};
use crate::tokens::{LiteralView, TokenType, TokenView};
use vstd::prelude::*;

verus! {

/// The reading of numerals that the caller supplies, as a mathematical
/// function: from the text of a numeral to the bit pattern of its value,
/// or `None` where it cannot be read.
pub type NumberReader = spec_fn(Seq<char>) -> Option<u64>;

pub open spec fn is_digit(c: char) -> bool {
    '0' <= c <= '9'
}

pub open spec fn is_alphabetic(c: char) -> bool {
    ('a' <= c <= 'z') || ('A' <= c <= 'Z')
}

pub open spec fn is_alphanumeric(c: char) -> bool {
    is_digit(c) || is_alphabetic(c)
}

/// The characters of a string literal's body: all but `"`.
pub open spec fn in_string() -> spec_fn(char) -> bool {
    |c: char| c != '"'
}

/// The characters of a comment: all but the line end.
pub open spec fn in_comment() -> spec_fn(char) -> bool {
    |c: char| c != '\n'
}

/// The characters of a numeral: the digits.
pub open spec fn in_number() -> spec_fn(char) -> bool {
    |c: char| is_digit(c)
}

/// The characters of a word: letters and digits.
pub open spec fn in_word() -> spec_fn(char) -> bool {
    |c: char| is_alphanumeric(c)
}

/// The number of characters from `from` to the end of the text.
pub open spec fn rest(source: Seq<char>, from: int) -> nat {
    if from <= source.len() {
        (source.len() - from) as nat
    } else {
        0
    }
}

/// The length of the longest run of characters that starts at `from` and
/// holds only characters that `wanted` accepts.
pub open spec fn run(source: Seq<char>, from: int, wanted: spec_fn(char) -> bool) -> nat
    decreases rest(source, from),
{
    if 0 <= from < source.len() && wanted(source[from]) {
        1 + run(source, from + 1, wanted)
    } else {
        0
    }
}

/// The number of line ends in the text from `from` up to `to`.
pub open spec fn line_ends(source: Seq<char>, from: int, to: int) -> nat
    decreases to - from,
{
    if from < to {
        line_ends(source, from, to - 1) + if source[to - 1] == '\n' {
            1nat
        } else {
            0nat
        }
    } else {
        0
    }
}

/// The line number `passed` line ends after `line`. The count stops at the
/// greatest number that fits.
pub open spec fn later_line(line: u32, passed: nat) -> u32 {
    if line + passed <= u32::MAX {
        (line + passed) as u32
    } else {
        u32::MAX
    }
}

/// A position as it is reported: itself where it fits in 32 bits, else
/// the greatest number that does.
pub open spec fn reported(pos: int) -> u32 {
    if 0 <= pos <= u32::MAX {
        pos as u32
    } else {
        u32::MAX
    }
}

/// The token type of a character that is a token by itself.
pub open spec fn single(c: char) -> Option<TokenType> {
    if c == '(' {
        Some(TokenType::LeftParen)
    } else if c == ')' {
        Some(TokenType::RightParen)
    } else if c == '{' {
        Some(TokenType::LeftBrace)
    } else if c == '}' {
        Some(TokenType::RightBrace)
    } else if c == ',' {
        Some(TokenType::Comma)
    } else if c == '.' {
        Some(TokenType::Dot)
    } else if c == '-' {
        Some(TokenType::Minus)
    } else if c == '+' {
        Some(TokenType::Plus)
    } else if c == ';' {
        Some(TokenType::Semicolon)
    } else if c == '*' {
        Some(TokenType::Star)
    } else {
        None
    }
}

/// For a character that is one token alone and another with `=` behind
/// it: the two token types.
pub open spec fn paired(c: char) -> Option<(TokenType, TokenType)> {
    if c == '!' {
        Some((TokenType::Bang, TokenType::BangEqual))
    } else if c == '=' {
        Some((TokenType::Equal, TokenType::EqualEqual))
    } else if c == '>' {
        Some((TokenType::Greater, TokenType::GreaterEqual))
    } else if c == '<' {
        Some((TokenType::Less, TokenType::LessEqual))
    } else {
        None
    }
}

/// The keyword that the text is, if it is one.
pub open spec fn keyword(text: Seq<char>) -> Option<TokenType> {
    if text == "and"@ {
        Some(TokenType::And)
    } else if text == "class"@ {
        Some(TokenType::Class)
    } else if text == "else"@ {
        Some(TokenType::Else)
    } else if text == "false"@ {
        Some(TokenType::False)
    } else if text == "for"@ {
        Some(TokenType::For)
    } else if text == "fun"@ {
        Some(TokenType::Fun)
    } else if text == "if"@ {
        Some(TokenType::If)
    } else if text == "nil"@ {
        Some(TokenType::Nil)
    } else if text == "or"@ {
        Some(TokenType::Or)
    } else if text == "print"@ {
        Some(TokenType::Print)
    } else if text == "return"@ {
        Some(TokenType::Return)
    } else if text == "super"@ {
        Some(TokenType::Super)
    } else if text == "this"@ {
        Some(TokenType::This)
    } else if text == "true"@ {
        Some(TokenType::True)
    } else if text == "var"@ {
        Some(TokenType::Var)
    } else if text == "while"@ {
        Some(TokenType::While)
    } else {
        None
    }
}

/// Whether the character at `pos` is `c`.
pub open spec fn holds(source: Seq<char>, pos: int, c: char) -> bool {
    0 <= pos < source.len() && source[pos] == c
}

/// What one step of the scanner yields.
pub enum Lexed {
    Token(TokenView),
    Error(LoxErrorView),
    /// White space or a comment.
    Nothing,
}

/// One step of the scanner: what it yields, the number of characters it
/// takes after the first, and the line after it.
pub struct Step {
    pub lexed: Lexed,
    pub more: nat,
    pub line: u32,
}

/// A token without a value, made of the characters from `from` up to `to`.
pub open spec fn plain(token_type: TokenType, source: Seq<char>, from: int, to: int, line: u32) -> Lexed {
    Lexed::Token(
        TokenView { token_type, lexeme: source.subrange(from, to), literal: None, line },
    )
}

/// A scanning error at the characters from `from` up to `to`.
pub open spec fn fault(
    kind: ErrorKind,
    source: Seq<char>,
    from: int,
    to: int,
    line: u32,
    message: Seq<char>,
) -> Lexed {
    Lexed::Error(
        LoxErrorView {
            kind,
            line,
            loc_in_line: reported(from),
            chars_in_line: source.subrange(from, to),
            message,
        },
    )
}

/// A string literal from the `"` at `start`: all characters up to the next
/// `"`, line ends among them. Without a closing `"` it is an error that
/// takes the rest of the text.
pub open spec fn string(source: Seq<char>, start: int, line: u32) -> Step {
    let body = run(source, start + 1, in_string());
    let close = start + 1 + body;
    let last_line = later_line(line, line_ends(source, start + 1, close));
    if close < source.len() {
        Step {
            lexed: Lexed::Token(
                TokenView {
                    token_type: TokenType::String,
                    lexeme: source.subrange(start, close + 1),
                    literal: Some(LiteralView::String(source.subrange(start + 1, close))),
                    line: last_line,
                },
            ),
            more: body + 1,
            line: last_line,
        }
    } else {
        Step {
            lexed: fault(
                ErrorKind::UnterminatedString,
                source,
                start,
                close,
                last_line,
                "Unterminated string"@,
            ),
            more: body,
            line: last_line,
        }
    }
}

/// A numeral from the digit at `start`: the longest run of digits. Its
/// value is what `read` makes of its text.
pub open spec fn number(read: NumberReader, source: Seq<char>, start: int, line: u32) -> Step {
    let more = run(source, start + 1, in_number());
    let text = source.subrange(start, start + 1 + more);
    Step {
        lexed: match read(text) {
            Some(bits) => Lexed::Token(
                TokenView {
                    token_type: TokenType::Number,
                    lexeme: text,
                    literal: Some(LiteralView::Number(bits)),
                    line,
                },
            ),
            None => fault(
                ErrorKind::MalformedNumber,
                source,
                start,
                start + 1 + more,
                line,
                "Expected number but failed to parse"@,
            ),
        },
        more,
        line,
    }
}

/// A word from the letter at `start`: the longest run of letters and
/// digits, a keyword or else an identifier.
pub open spec fn identifier(source: Seq<char>, start: int, line: u32) -> Step {
    let more = run(source, start + 1, in_word());
    let text = source.subrange(start, start + 1 + more);
    Step {
        lexed: match keyword(text) {
            Some(token_type) => plain(token_type, source, start, start + 1 + more, line),
            None => Lexed::Token(
                TokenView {
                    token_type: TokenType::Identifier,
                    lexeme: text,
                    literal: Some(LiteralView::Identifier(text)),
                    line,
                },
            ),
        },
        more,
        line,
    }
}

/// The step of the scanner at `start`, a position in the text.
pub open spec fn scan_token(read: NumberReader, source: Seq<char>, start: int, line: u32) -> Step {
    let c = source[start];
    if let Some(token_type) = single(c) {
        Step { lexed: plain(token_type, source, start, start + 1, line), more: 0, line }
    } else if let Some((alone, with_equal)) = paired(c) {
        if holds(source, start + 1, '=') {
            Step { lexed: plain(with_equal, source, start, start + 2, line), more: 1, line }
        } else {
            Step { lexed: plain(alone, source, start, start + 1, line), more: 0, line }
        }
    } else if c == '/' {
        if holds(source, start + 1, '/') {
            Step { lexed: Lexed::Nothing, more: 1 + run(source, start + 2, in_comment()), line }
        } else {
            Step { lexed: plain(TokenType::Slash, source, start, start + 1, line), more: 0, line }
        }
    } else if c == '\n' {
        Step { lexed: Lexed::Nothing, more: 0, line: later_line(line, 1) }
    } else if c == '\t' || c == ' ' || c == '\r' {
        Step { lexed: Lexed::Nothing, more: 0, line }
    } else if c == '"' {
        string(source, start, line)
    } else if is_digit(c) {
        number(read, source, start, line)
    } else if is_alphabetic(c) {
        identifier(source, start, line)
    } else {
        Step {
            lexed: fault(
                ErrorKind::UnexpectedCharacter,
                source,
                start,
                start + 1,
                line,
                "Unexpected character"@,
            ),
            more: 0,
            line,
        }
    }
}

/// The tokens and the errors of a text, each in the order found.
pub struct Scanned {
    pub tokens: Seq<TokenView>,
    pub errors: Seq<LoxErrorView>,
}

/// The end marker on the given line.
pub open spec fn end_marker(line: u32) -> TokenView {
    TokenView { token_type: TokenType::Eof, lexeme: Seq::empty(), literal: None, line }
}

/// What the scanner finds from `start` on: the tokens, with the end marker
/// after the last, and the errors.
pub open spec fn scan(read: NumberReader, source: Seq<char>, start: int, line: u32) -> Scanned
    decreases rest(source, start),
{
    if !(0 <= start < source.len()) {
        Scanned { tokens: seq![end_marker(line)], errors: Seq::empty() }
    } else {
        let step = scan_token(read, source, start, line);
        let after = scan(read, source, start + 1 + step.more, step.line);
        match step.lexed {
            Lexed::Token(token) => Scanned { tokens: seq![token] + after.tokens, errors: after.errors },
            Lexed::Error(error) => Scanned { tokens: after.tokens, errors: seq![error] + after.errors },
            Lexed::Nothing => after,
        }
    }
}

} // verus!
