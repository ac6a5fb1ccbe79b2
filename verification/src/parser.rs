//! The parser: recursive descent over the token sequence.
//!
//! The grammar, with `expression` the entry point:
//!
//! ```text
//! expression := term ( ( '+' | '-' ) term )*
//! term       := factor ( ( '*' | '/' ) factor )*
//! factor     := NUMBER | '(' expression ')'
//! ```
//!
//! `spec_parse_expression` and its companions are the mathematical
//! description of parsing: each returns the node built and the cursor
//! position after it, or the failure met first. The executable `Parser`
//! methods are proved to return exactly what these functions say. Repetition
//! folds to the left, so `a - b - c` parses as `(a - b) - c`.

use vstd::prelude::*;

use crate::ast::{ops_are_arithmetic, ASTNode};
use crate::token::{spec_token_name, token_name, SyntaxError, Token};
use vstd::string::StringExecFns;

verus! {

/// How parsing can fail.
#[derive(Clone, Copy, Debug)]
pub enum ParseFailure {
    /// A token met where a factor was expected.
    UnexpectedToken(Token),
    /// No token left where at least one more was required.
    UnexpectedEnd,
    /// A parenthesized subexpression not followed by `)`: the token found
    /// there, or `None` when the sequence ended instead.
    MissingCloseParen(Option<Token>),
}

/// The message the parser reports for each kind of failure.
pub open spec fn parse_failure_message(f: ParseFailure) -> Seq<char> {
    match f {
        ParseFailure::UnexpectedToken(t) => "unexpected token: "@ + spec_token_name(t),
        ParseFailure::UnexpectedEnd => "unexpected end of input"@,
        ParseFailure::MissingCloseParen(Some(t)) => "missing closing parenthesis, found "@
            + spec_token_name(t),
        ParseFailure::MissingCloseParen(None) => "missing closing parenthesis, input ended"@,
    }
}

/// Parses one factor at `pos`: a number, or a parenthesized expression.
pub open spec fn spec_parse_factor(toks: Seq<Token>, pos: nat) -> Result<
    (ASTNode, nat),
    ParseFailure,
>
    decreases toks.len() - pos, 0int,
{
    if pos >= toks.len() {
        Err(ParseFailure::UnexpectedEnd)
    } else {
        match toks[pos as int] {
            Token::Number(v) => Ok((ASTNode::Number(v), pos + 1)),
            Token::LeftParen => match spec_parse_expression(toks, pos + 1) {
                Ok((inner, p)) => if p < toks.len() && toks[p as int] is RightParen {
                    Ok((inner, p + 1))
                } else if p < toks.len() {
                    Err(ParseFailure::MissingCloseParen(Some(toks[p as int])))
                } else {
                    Err(ParseFailure::MissingCloseParen(None))
                },
                Err(f) => Err(f),
            },
            t => Err(ParseFailure::UnexpectedToken(t)),
        }
    }
}

/// Folds `( '*' | '/' ) factor` repetitions onto `acc`, left-associatively.
pub open spec fn spec_parse_term_more(toks: Seq<Token>, pos: nat, acc: ASTNode) -> Result<
    (ASTNode, nat),
    ParseFailure,
>
    decreases toks.len() - pos, 1int,
{
    if pos < toks.len() && (toks[pos as int] is Star || toks[pos as int] is Slash) {
        match spec_parse_factor(toks, pos + 1) {
            Ok((right, p)) => if pos < p <= toks.len() {
                spec_parse_term_more(
                    toks,
                    p,
                    ASTNode::BinaryOp { op: toks[pos as int], left: Box::new(acc), right: Box::new(right) },
                )
            } else {
                // a factor always advances the cursor; see lemma_parse_factor_bounds
                Err(ParseFailure::UnexpectedEnd)
            },
            Err(f) => Err(f),
        }
    } else {
        Ok((acc, pos))
    }
}

/// Parses one term at `pos`: a factor followed by `*` and `/` repetitions.
pub open spec fn spec_parse_term(toks: Seq<Token>, pos: nat) -> Result<(ASTNode, nat), ParseFailure>
    decreases toks.len() - pos, 2int,
{
    match spec_parse_factor(toks, pos) {
        Ok((first, p)) => if pos < p <= toks.len() {
            spec_parse_term_more(toks, p, first)
        } else {
            // a factor always advances the cursor; see lemma_parse_factor_bounds
            Err(ParseFailure::UnexpectedEnd)
        },
        Err(f) => Err(f),
    }
}

/// Folds `( '+' | '-' ) term` repetitions onto `acc`, left-associatively.
pub open spec fn spec_parse_expression_more(toks: Seq<Token>, pos: nat, acc: ASTNode) -> Result<
    (ASTNode, nat),
    ParseFailure,
>
    decreases toks.len() - pos, 3int,
{
    if pos < toks.len() && (toks[pos as int] is Plus || toks[pos as int] is Dash) {
        match spec_parse_term(toks, pos + 1) {
            Ok((right, p)) => if pos < p <= toks.len() {
                spec_parse_expression_more(
                    toks,
                    p,
                    ASTNode::BinaryOp { op: toks[pos as int], left: Box::new(acc), right: Box::new(right) },
                )
            } else {
                // a term always advances the cursor; see lemma_parse_term_bounds
                Err(ParseFailure::UnexpectedEnd)
            },
            Err(f) => Err(f),
        }
    } else {
        Ok((acc, pos))
    }
}

/// Parses one expression at `pos`: a term followed by `+` and `-`
/// repetitions. This is the grammar's entry point.
pub open spec fn spec_parse_expression(toks: Seq<Token>, pos: nat) -> Result<
    (ASTNode, nat),
    ParseFailure,
>
    decreases toks.len() - pos, 4int,
{
    match spec_parse_term(toks, pos) {
        Ok((first, p)) => if pos < p <= toks.len() {
            spec_parse_expression_more(toks, p, first)
        } else {
            // a term always advances the cursor; see lemma_parse_term_bounds
            Err(ParseFailure::UnexpectedEnd)
        },
        Err(f) => Err(f),
    }
}

/// A successful factor ends past where it began and inside the sequence.
pub proof fn lemma_parse_factor_bounds(toks: Seq<Token>, pos: nat)
    ensures
        spec_parse_factor(toks, pos) matches Ok((n, p)) ==> pos < p <= toks.len(),
    decreases toks.len() - pos, 0int,
{
    if pos < toks.len() && toks[pos as int] is LeftParen {
        lemma_parse_expression_bounds(toks, pos + 1);
    }
}

/// Folding repetitions onto a term never moves the cursor backwards.
pub proof fn lemma_parse_term_more_bounds(toks: Seq<Token>, pos: nat, acc: ASTNode)
    requires
        pos <= toks.len(),
    ensures
        spec_parse_term_more(toks, pos, acc) matches Ok((n, p)) ==> pos <= p <= toks.len(),
    decreases toks.len() - pos, 1int,
{
    if pos < toks.len() && (toks[pos as int] is Star || toks[pos as int] is Slash) {
        lemma_parse_factor_bounds(toks, pos + 1);
        match spec_parse_factor(toks, pos + 1) {
            Ok((right, p)) => {
                if pos < p <= toks.len() {
                    lemma_parse_term_more_bounds(
                        toks,
                        p,
                        ASTNode::BinaryOp {
                            op: toks[pos as int],
                            left: Box::new(acc),
                            right: Box::new(right),
                        },
                    );
                }
            },
            Err(_) => {},
        }
    }
}

/// A successful term ends past where it began and inside the sequence.
pub proof fn lemma_parse_term_bounds(toks: Seq<Token>, pos: nat)
    ensures
        spec_parse_term(toks, pos) matches Ok((n, p)) ==> pos < p <= toks.len(),
    decreases toks.len() - pos, 2int,
{
    lemma_parse_factor_bounds(toks, pos);
    match spec_parse_factor(toks, pos) {
        Ok((first, p)) => {
            if pos < p <= toks.len() {
                lemma_parse_term_more_bounds(toks, p, first);
            }
        },
        Err(_) => {},
    }
}

/// Folding repetitions onto an expression never moves the cursor backwards.
pub proof fn lemma_parse_expression_more_bounds(toks: Seq<Token>, pos: nat, acc: ASTNode)
    requires
        pos <= toks.len(),
    ensures
        spec_parse_expression_more(toks, pos, acc) matches Ok((n, p)) ==> pos <= p <= toks.len(),
    decreases toks.len() - pos, 3int,
{
    if pos < toks.len() && (toks[pos as int] is Plus || toks[pos as int] is Dash) {
        lemma_parse_term_bounds(toks, pos + 1);
        match spec_parse_term(toks, pos + 1) {
            Ok((right, p)) => {
                if pos < p <= toks.len() {
                    lemma_parse_expression_more_bounds(
                        toks,
                        p,
                        ASTNode::BinaryOp {
                            op: toks[pos as int],
                            left: Box::new(acc),
                            right: Box::new(right),
                        },
                    );
                }
            },
            Err(_) => {},
        }
    }
}

/// A successful expression ends past where it began and inside the sequence.
pub proof fn lemma_parse_expression_bounds(toks: Seq<Token>, pos: nat)
    ensures
        spec_parse_expression(toks, pos) matches Ok((n, p)) ==> pos < p <= toks.len(),
    decreases toks.len() - pos, 4int,
{
    lemma_parse_term_bounds(toks, pos);
    match spec_parse_term(toks, pos) {
        Ok((first, p)) => {
            if pos < p <= toks.len() {
                lemma_parse_expression_more_bounds(toks, p, first);
            }
        },
        Err(_) => {},
    }
}

proof fn lemma_parse_factor_ops(toks: Seq<Token>, pos: nat)
    ensures
        spec_parse_factor(toks, pos) matches Ok((n, p)) ==> ops_are_arithmetic(n),
    decreases toks.len() - pos, 0int,
{
    if pos < toks.len() && toks[pos as int] is LeftParen {
        lemma_parse_expression_ops(toks, pos + 1);
    }
}

proof fn lemma_parse_term_more_ops(toks: Seq<Token>, pos: nat, acc: ASTNode)
    requires
        ops_are_arithmetic(acc),
    ensures
        spec_parse_term_more(toks, pos, acc) matches Ok((n, p)) ==> ops_are_arithmetic(n),
    decreases toks.len() - pos, 1int,
{
    if pos < toks.len() && (toks[pos as int] is Star || toks[pos as int] is Slash) {
        lemma_parse_factor_ops(toks, pos + 1);
        match spec_parse_factor(toks, pos + 1) {
            Ok((right, p)) => {
                if pos < p <= toks.len() {
                    lemma_parse_term_more_ops(
                        toks,
                        p,
                        ASTNode::BinaryOp {
                            op: toks[pos as int],
                            left: Box::new(acc),
                            right: Box::new(right),
                        },
                    );
                }
            },
            Err(_) => {},
        }
    }
}

proof fn lemma_parse_term_ops(toks: Seq<Token>, pos: nat)
    ensures
        spec_parse_term(toks, pos) matches Ok((n, p)) ==> ops_are_arithmetic(n),
    decreases toks.len() - pos, 2int,
{
    lemma_parse_factor_ops(toks, pos);
    match spec_parse_factor(toks, pos) {
        Ok((first, p)) => {
            if pos < p <= toks.len() {
                lemma_parse_term_more_ops(toks, p, first);
            }
        },
        Err(_) => {},
    }
}

proof fn lemma_parse_expression_more_ops(toks: Seq<Token>, pos: nat, acc: ASTNode)
    requires
        ops_are_arithmetic(acc),
    ensures
        spec_parse_expression_more(toks, pos, acc) matches Ok((n, p)) ==> ops_are_arithmetic(n),
    decreases toks.len() - pos, 3int,
{
    if pos < toks.len() && (toks[pos as int] is Plus || toks[pos as int] is Dash) {
        lemma_parse_term_ops(toks, pos + 1);
        match spec_parse_term(toks, pos + 1) {
            Ok((right, p)) => {
                if pos < p <= toks.len() {
                    lemma_parse_expression_more_ops(
                        toks,
                        p,
                        ASTNode::BinaryOp {
                            op: toks[pos as int],
                            left: Box::new(acc),
                            right: Box::new(right),
                        },
                    );
                }
            },
            Err(_) => {},
        }
    }
}

/// Every `BinaryOp` in a tree the parser builds carries one of the four
/// arithmetic operator tokens: no other token can reach that field.
pub proof fn lemma_parse_expression_ops(toks: Seq<Token>, pos: nat)
    ensures
        spec_parse_expression(toks, pos) matches Ok((n, p)) ==> ops_are_arithmetic(n),
    decreases toks.len() - pos, 4int,
{
    lemma_parse_term_ops(toks, pos);
    match spec_parse_term(toks, pos) {
        Ok((first, p)) => {
            if pos < p <= toks.len() {
                lemma_parse_expression_more_ops(toks, p, first);
            }
        },
        Err(_) => {},
    }
}

/// A recursive-descent parser over a token sequence. Its cursor only ever
/// moves forward; reading past the last token yields "no token" rather than
/// an out-of-bounds failure.
pub struct Parser {
    /// The tokens being parsed, fixed for the parser's lifetime.
    pub tokens: Vec<Token>,
    /// The index of the next unconsumed token.
    pub current: usize,
}

impl Parser {
    /// Makes a parser whose cursor stands at the first token.
    pub fn new(tokens: Vec<Token>) -> (p: Parser)
        ensures
            p.tokens@ == tokens@,
            p.current == 0,
    {
        Parser { tokens: tokens, current: 0 }
    }

    /// Looks at the next unconsumed token without consuming it.
    pub fn peek(&self) -> (r: Option<&Token>)
        ensures
            self.current < self.tokens@.len() ==> (r matches Some(t) && *t
                == self.tokens@[self.current as int]),
            self.current >= self.tokens@.len() ==> r is None,
    {
        if self.current < self.tokens.len() {
            Some(&self.tokens[self.current])
        } else {
            None
        }
    }

    /// Consumes and returns the next token, if one is left.
    pub fn advance(&mut self) -> (r: Option<Token>)
        ensures
            final(self).tokens@ == old(self).tokens@,
            old(self).current < old(self).tokens@.len() ==> (r == Some(
                old(self).tokens@[old(self).current as int],
            ) && final(self).current == old(self).current + 1),
            old(self).current >= old(self).tokens@.len() ==> (r is None && final(self).current
                == old(self).current),
    {
        if self.current < self.tokens.len() {
            let t = self.tokens[self.current];
            self.current = self.current + 1;
            Some(t)
        } else {
            None
        }
    }

    /// Parses one factor, exactly as `spec_parse_factor` describes.
    pub fn parse_factor(&mut self) -> (r: Result<ASTNode, SyntaxError>)
        ensures
            final(self).tokens@ == old(self).tokens@,
            old(self).current <= final(self).current,
            match r {
                Ok(node) => spec_parse_factor(old(self).tokens@, old(self).current as nat)
                    == Ok::<(ASTNode, nat), ParseFailure>((node, final(self).current as nat)),
                Err(e) => {
                    &&& spec_parse_factor(old(self).tokens@, old(self).current as nat) matches Err(
                        f,
                    )
                    &&& e.message@ == parse_failure_message(f)
                },
            },
        decreases self.tokens@.len() - self.current, 0int,
    {
        let ghost toks = self.tokens@;
        let ghost pos0 = self.current as nat;
        match self.advance() {
            Some(Token::Number(v)) => Ok(ASTNode::Number(v)),
            Some(Token::LeftParen) => {
                let inner = match self.parse_expression() {
                    Ok(node) => node,
                    Err(e) => {
                        return Err(e);
                    },
                };
                proof {
                    lemma_parse_expression_bounds(toks, pos0 + 1);
                }
                match self.peek() {
                    Some(t) => {
                        match *t {
                            Token::RightParen => {
                                self.advance();
                                Ok(inner)
                            },
                            other => {
                                let mut m = String::from_str(
                                    "missing closing parenthesis, found ",
                                );
                                m.append(token_name(&other));
                                Err(SyntaxError::new(m))
                            },
                        }
                    },
                    None => Err(
                        SyntaxError::new(String::from_str("missing closing parenthesis, input ended")),
                    ),
                }
            },
            Some(t) => {
                let mut m = String::from_str("unexpected token: ");
                m.append(token_name(&t));
                Err(SyntaxError::new(m))
            },
            None => Err(SyntaxError::new(String::from_str("unexpected end of input"))),
        }
    }

    /// Parses one term, exactly as `spec_parse_term` describes.
    #[verifier::loop_isolation(false)]
    pub fn parse_term(&mut self) -> (r: Result<ASTNode, SyntaxError>)
        ensures
            final(self).tokens@ == old(self).tokens@,
            old(self).current <= final(self).current,
            match r {
                Ok(node) => spec_parse_term(old(self).tokens@, old(self).current as nat)
                    == Ok::<(ASTNode, nat), ParseFailure>((node, final(self).current as nat)),
                Err(e) => {
                    &&& spec_parse_term(old(self).tokens@, old(self).current as nat) matches Err(f)
                    &&& e.message@ == parse_failure_message(f)
                },
            },
        decreases self.tokens@.len() - self.current, 1int,
    {
        let ghost toks = self.tokens@;
        let ghost pos0 = self.current as nat;
        let mut node = match self.parse_factor() {
            Ok(n) => n,
            Err(e) => {
                return Err(e);
            },
        };
        proof {
            lemma_parse_factor_bounds(toks, pos0);
        }
        loop
            invariant
                self.tokens@ == toks,
                pos0 < self.current as nat,
                self.current <= self.tokens.len(),
                spec_parse_term(toks, pos0) == spec_parse_term_more(
                    toks,
                    self.current as nat,
                    node,
                ),
            decreases toks.len() - self.current,
        {
            if self.current >= self.tokens.len() {
                return Ok(node);
            }
            let t = self.tokens[self.current];
            match t {
                Token::Star | Token::Slash => {
                    let ghost opos = self.current as nat;
                    self.current = self.current + 1;
                    let right = match self.parse_factor() {
                        Ok(n) => n,
                        Err(e) => {
                            return Err(e);
                        },
                    };
                    proof {
                        lemma_parse_factor_bounds(toks, opos + 1);
                    }
                    node = ASTNode::BinaryOp { op: t, left: Box::new(node), right: Box::new(right) };
                },
                _ => {
                    return Ok(node);
                },
            }
        }
    }

    /// Parses one expression, exactly as `spec_parse_expression` describes.
    #[verifier::loop_isolation(false)]
    pub fn parse_expression(&mut self) -> (r: Result<ASTNode, SyntaxError>)
        ensures
            final(self).tokens@ == old(self).tokens@,
            old(self).current <= final(self).current,
            match r {
                Ok(node) => spec_parse_expression(old(self).tokens@, old(self).current as nat)
                    == Ok::<(ASTNode, nat), ParseFailure>((node, final(self).current as nat)),
                Err(e) => {
                    &&& spec_parse_expression(old(self).tokens@, old(self).current as nat) matches Err(
                        f,
                    )
                    &&& e.message@ == parse_failure_message(f)
                },
            },
        decreases self.tokens@.len() - self.current, 2int,
    {
        let ghost toks = self.tokens@;
        let ghost pos0 = self.current as nat;
        let mut node = match self.parse_term() {
            Ok(n) => n,
            Err(e) => {
                return Err(e);
            },
        };
        proof {
            lemma_parse_term_bounds(toks, pos0);
        }
        loop
            invariant
                self.tokens@ == toks,
                pos0 < self.current as nat,
                self.current <= self.tokens.len(),
                spec_parse_expression(toks, pos0) == spec_parse_expression_more(
                    toks,
                    self.current as nat,
                    node,
                ),
            decreases toks.len() - self.current,
        {
            if self.current >= self.tokens.len() {
                return Ok(node);
            }
            let t = self.tokens[self.current];
            match t {
                Token::Plus | Token::Dash => {
                    let ghost opos = self.current as nat;
                    self.current = self.current + 1;
                    let right = match self.parse_term() {
                        Ok(n) => n,
                        Err(e) => {
                            return Err(e);
                        },
                    };
                    proof {
                        lemma_parse_term_bounds(toks, opos + 1);
                    }
                    node = ASTNode::BinaryOp { op: t, left: Box::new(node), right: Box::new(right) };
                },
                _ => {
                    return Ok(node);
                },
            }
        }
    }

    /// Parses one expression from the cursor on. Trailing tokens after it are
    /// left unconsumed and are not an error.
    pub fn parse(&mut self) -> (r: Result<ASTNode, SyntaxError>)
        ensures
            final(self).tokens@ == old(self).tokens@,
            old(self).current <= final(self).current,
            match r {
                Ok(node) => spec_parse_expression(old(self).tokens@, old(self).current as nat)
                    == Ok::<(ASTNode, nat), ParseFailure>((node, final(self).current as nat)),
                Err(e) => {
                    &&& spec_parse_expression(old(self).tokens@, old(self).current as nat) matches Err(
                        f,
                    )
                    &&& e.message@ == parse_failure_message(f)
                },
            },
    {
        self.parse_expression()
    }
}

} // verus!
