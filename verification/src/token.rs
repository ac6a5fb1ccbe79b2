//! Tokens of the expression language and the error type shared by the
//! lexer and the parser.

use vstd::prelude::*;

verus! {

/// One lexical unit of an arithmetic expression. A token sequence produced by
/// the lexer ends with exactly one `EndOfInput`, which appears nowhere else.
#[derive(Clone, Copy, Debug, PartialEq, Eq, Structural)]
pub enum Token {
    /// A non-negative integer literal.
    Number(i64),
    /// The `+` operator.
    Plus,
    /// The `-` operator.
    Dash,
    /// The `*` operator.
    Star,
    /// The `/` operator.
    Slash,
    /// An opening parenthesis.
    LeftParen,
    /// A closing parenthesis.
    RightParen,
    /// The marker appended after the last real token.
    EndOfInput,
}

/// The printable name of a token, as it appears in error messages.
pub open spec fn spec_token_name(t: Token) -> Seq<char> {
    match t {
        Token::Number(_) => "number"@,
        Token::Plus => "'+'"@,
        Token::Dash => "'-'"@,
        Token::Star => "'*'"@,
        Token::Slash => "'/'"@,
        Token::LeftParen => "'('"@,
        Token::RightParen => "')'"@,
        Token::EndOfInput => "end of input"@,
    }
}

/// Returns the printable name of a token for use in error messages.
pub fn token_name(t: &Token) -> (r: &'static str)
    ensures
        r@ == spec_token_name(*t),
{
    match t {
        Token::Number(_) => "number",
        Token::Plus => "'+'",
        Token::Dash => "'-'",
        Token::Star => "'*'",
        Token::Slash => "'/'",
        Token::LeftParen => "'('",
        Token::RightParen => "')'",
        Token::EndOfInput => "end of input",
    }
}

/// A lexing or parsing failure, carrying a human-readable message.
#[derive(Debug)]
pub struct SyntaxError {
    /// What went wrong, in words.
    pub message: String,
}

impl SyntaxError {
    /// Wraps a message in a `SyntaxError`.
    pub fn new(message: String) -> (e: SyntaxError)
        ensures
            e.message == message,
    {
        SyntaxError { message: message }
    }
}

} // verus!
