//! The lexer: turns the input text into a flat token sequence.
//!
//! `spec_tokenize` is the mathematical description of lexing; the executable
//! `tokenizer` is proved to return exactly what `spec_tokenize` says, both on
//! success and on failure.

use vstd::prelude::*;

use crate::token::{SyntaxError, Token};
use vstd::string::{StrSliceExecFns, StringExecFns};

verus! {

/// An ASCII whitespace character: space, tab, line feed, carriage return or
/// form feed. Whitespace is skipped and produces no token.
pub open spec fn is_space_char(c: char) -> bool {
    c == ' ' || c == '\t' || c == '\n' || c == '\r' || c == '\x0c'
}

/// An ASCII decimal digit.
pub open spec fn is_digit_char(c: char) -> bool {
    48 <= c as u32 <= 57
}

/// One of the six single-character tokens.
pub open spec fn is_symbol_char(c: char) -> bool {
    c == '(' || c == ')' || c == '+' || c == '-' || c == '*' || c == '/'
}

/// A character the lexer accepts.
pub open spec fn is_allowed_char(c: char) -> bool {
    is_space_char(c) || is_symbol_char(c) || is_digit_char(c)
}

/// The token for a single-character symbol.
pub open spec fn symbol_token(c: char) -> Token
    recommends
        is_symbol_char(c),
{
    if c == '(' {
        Token::LeftParen
    } else if c == ')' {
        Token::RightParen
    } else if c == '+' {
        Token::Plus
    } else if c == '-' {
        Token::Dash
    } else if c == '*' {
        Token::Star
    } else {
        Token::Slash
    }
}

/// The numeric value of a digit character.
pub open spec fn digit_val(c: char) -> int
    recommends
        is_digit_char(c),
{
    c as u32 - 48
}

/// The number of consecutive digit characters starting at position `i`.
pub open spec fn digit_run_len(s: Seq<char>, i: nat) -> nat
    decreases s.len() - i,
{
    if i < s.len() && is_digit_char(s[i as int]) {
        1 + digit_run_len(s, i + 1)
    } else {
        0
    }
}

/// The base-10 value of the digit characters `s[i..j]`, the leftmost digit
/// being the most significant.
pub open spec fn digits_value(s: Seq<char>, i: nat, j: nat) -> int
    decreases j - i,
{
    if j <= i {
        0
    } else {
        digits_value(s, i, (j - 1) as nat) * 10 + digit_val(s[j - 1])
    }
}

/// How the lexer can fail: an unrecognized character, or an integer literal
/// too large for the token's integer width.
#[derive(Clone, Copy, Debug, PartialEq, Eq, Structural)]
pub enum LexFailure {
    /// A character outside digits, whitespace and the six symbols.
    Unrecognized(char),
    /// A digit run whose value exceeds `i64::MAX`.
    NumberTooLarge,
}

/// The message `tokenizer` reports for each kind of failure.
pub open spec fn lex_failure_message(f: LexFailure) -> Seq<char> {
    match f {
        LexFailure::Unrecognized(c) => "unrecognized character "@ + seq![c],
        LexFailure::NumberTooLarge => "number too large"@,
    }
}

/// Prefixes already-produced tokens onto the outcome of lexing the rest.
pub open spec fn lex_prepend(pre: Seq<Token>, r: Result<Seq<Token>, LexFailure>) -> Result<
    Seq<Token>,
    LexFailure,
> {
    match r {
        Ok(rest) => Ok(pre + rest),
        Err(f) => Err(f),
    }
}

/// What lexing yields from position `i` on: the token sequence of the rest of
/// the input (ending in `EndOfInput`), or the first failure.
pub open spec fn spec_tokenize_at(s: Seq<char>, i: nat) -> Result<Seq<Token>, LexFailure>
    decreases s.len() - i,
{
    if i >= s.len() {
        Ok(seq![Token::EndOfInput])
    } else {
        let c = s[i as int];
        if is_space_char(c) {
            spec_tokenize_at(s, i + 1)
        } else if is_symbol_char(c) {
            lex_prepend(seq![symbol_token(c)], spec_tokenize_at(s, i + 1))
        } else if is_digit_char(c) {
            let j = if i + digit_run_len(s, i) <= s.len() {
                i + digit_run_len(s, i)
            } else {
                s.len()
            };
            let v = digits_value(s, i, j);
            if v > i64::MAX {
                Err(LexFailure::NumberTooLarge)
            } else {
                lex_prepend(seq![Token::Number(v as i64)], spec_tokenize_at(s, j))
            }
        } else {
            Err(LexFailure::Unrecognized(c))
        }
    }
}

/// What lexing the whole input yields.
pub open spec fn spec_tokenize(s: Seq<char>) -> Result<Seq<Token>, LexFailure> {
    spec_tokenize_at(s, 0)
}

/// The digit run starting at `i` stays inside the input, consists of digits,
/// and ends at the end of the input or at a non-digit.
proof fn lemma_digit_run_chars(s: Seq<char>, i: nat)
    requires
        i <= s.len(),
    ensures
        i + digit_run_len(s, i) <= s.len(),
        forall|k: int| i <= k < i + digit_run_len(s, i) ==> is_digit_char(s[k]),
        i + digit_run_len(s, i) == s.len() || !is_digit_char(
            s[i + digit_run_len(s, i) as int],
        ),
    decreases s.len() - i,
{
    if i < s.len() && is_digit_char(s[i as int]) {
        lemma_digit_run_chars(s, i + 1);
    }
}

/// If the `m` characters starting at `i` are all digits, the digit run at `i`
/// is at least `m` long.
proof fn lemma_digit_run_min(s: Seq<char>, i: nat, m: nat)
    requires
        i + m <= s.len(),
        forall|k: int| i <= k < i + m ==> is_digit_char(s[k]),
    ensures
        digit_run_len(s, i) >= m,
    decreases m,
{
    if m > 0 {
        assert(is_digit_char(s[i as int]));
        lemma_digit_run_min(s, i + 1, (m - 1) as nat);
    }
}

/// The value of a digit run is never negative.
proof fn lemma_digits_value_nonneg(s: Seq<char>, i: nat, j: nat)
    requires
        forall|k: int| i <= k < j ==> is_digit_char(s[k]),
    ensures
        digits_value(s, i, j) >= 0,
    decreases j - i,
{
    if j > i {
        lemma_digits_value_nonneg(s, i, (j - 1) as nat);
        assert(is_digit_char(s[j - 1]));
    }
}

/// Extending a digit run cannot decrease its value.
proof fn lemma_digits_value_mono(s: Seq<char>, i: nat, j: nat, k: nat)
    requires
        i <= j <= k,
        forall|t: int| i <= t < k ==> is_digit_char(s[t]),
    ensures
        digits_value(s, i, j) <= digits_value(s, i, k),
    decreases k - j,
{
    if k > j {
        lemma_digits_value_mono(s, i, j, (k - 1) as nat);
        lemma_digits_value_nonneg(s, i, (k - 1) as nat);
        assert(is_digit_char(s[k - 1]));
    }
}

/// Pushing a token onto the produced prefix is the same as prefixing a
/// singleton sequence.
proof fn lemma_lex_push_step(pre: Seq<Token>, t: Token, r: Result<Seq<Token>, LexFailure>)
    ensures
        lex_prepend(pre.push(t), r) == lex_prepend(pre, lex_prepend(seq![t], r)),
{
    match r {
        Ok(rest) => {
            assert(pre.push(t) + rest =~= pre + (seq![t] + rest));
        },
        Err(_) => {},
    }
}

/// Prefixing nothing changes nothing.
proof fn lemma_lex_prepend_empty(r: Result<Seq<Token>, LexFailure>)
    ensures
        lex_prepend(Seq::<Token>::empty(), r) == r,
{
    match r {
        Ok(rest) => {
            assert(Seq::<Token>::empty() + rest =~= rest);
        },
        Err(_) => {},
    }
}

/// Relies on `String::push` from std: it appends exactly the given character
/// to the string.
#[verifier::external_body]
fn push_char(s: &mut String, c: char)
    ensures
        final(s)@ == old(s)@ + seq![c],
{
    s.push(c);
}

/// Scans the input left to right and returns its token sequence, ending in
/// exactly one `EndOfInput`; or fails on the first unrecognized character or
/// on a digit run whose value does not fit, with a message naming the cause.
#[verifier::loop_isolation(false)]
pub fn tokenizer(input: String) -> (r: Result<Vec<Token>, SyntaxError>)
    ensures
        match r {
            Ok(tokens) => spec_tokenize(input@) == Ok::<Seq<Token>, LexFailure>(tokens@),
            Err(e) => {
                &&& spec_tokenize(input@) matches Err(f)
                &&& e.message@ == lex_failure_message(f)
            },
        },
{
    let mut tokens: Vec<Token> = Vec::new();
    let s = input.as_str();
    let n = s.unicode_len();
    let mut i: usize = 0;
    proof {
        lemma_lex_prepend_empty(spec_tokenize_at(input@, 0));
    }
    while i < n
        invariant
            i <= n,
            spec_tokenize(input@) == lex_prepend(tokens@, spec_tokenize_at(input@, i as nat)),
        decreases n - i,
    {
        let c = s.get_char(i);
        if c == ' ' || c == '\t' || c == '\n' || c == '\r' || c == '\x0c' {
            i = i + 1;
        } else if c == '(' {
            proof {
                lemma_lex_push_step(
                    tokens@,
                    Token::LeftParen,
                    spec_tokenize_at(input@, i as nat + 1),
                );
            }
            tokens.push(Token::LeftParen);
            i = i + 1;
        } else if c == ')' {
            proof {
                lemma_lex_push_step(
                    tokens@,
                    Token::RightParen,
                    spec_tokenize_at(input@, i as nat + 1),
                );
            }
            tokens.push(Token::RightParen);
            i = i + 1;
        } else if c == '+' {
            proof {
                lemma_lex_push_step(tokens@, Token::Plus, spec_tokenize_at(input@, i as nat + 1));
            }
            tokens.push(Token::Plus);
            i = i + 1;
        } else if c == '-' {
            proof {
                lemma_lex_push_step(tokens@, Token::Dash, spec_tokenize_at(input@, i as nat + 1));
            }
            tokens.push(Token::Dash);
            i = i + 1;
        } else if c == '*' {
            proof {
                lemma_lex_push_step(tokens@, Token::Star, spec_tokenize_at(input@, i as nat + 1));
            }
            tokens.push(Token::Star);
            i = i + 1;
        } else if c == '/' {
            proof {
                lemma_lex_push_step(tokens@, Token::Slash, spec_tokenize_at(input@, i as nat + 1));
            }
            tokens.push(Token::Slash);
            i = i + 1;
        } else {
            let code: u32 = c as u32;
            if 48 <= code && code <= 57 {
                let mut j: usize = i;
                let mut acc: i64 = 0;
                #[verifier::loop_isolation(true)]
                loop
                    invariant
                        s@ == input@,
                        n == input@.len(),
                        i < n,
                        is_digit_char(input@[i as int]),
                        spec_tokenize(input@) == lex_prepend(
                            tokens@,
                            spec_tokenize_at(input@, i as nat),
                        ),
                        i <= j <= n,
                        forall|k: int| i <= k < j ==> is_digit_char(input@[k]),
                        0 <= acc,
                        acc == digits_value(input@, i as nat, j as nat),
                    ensures
                        i < j <= n,
                        forall|k: int| i <= k < j ==> is_digit_char(input@[k]),
                        j == n || !is_digit_char(input@[j as int]),
                        0 <= acc,
                        acc == digits_value(input@, i as nat, j as nat),
                    decreases n - j,
                {
                    if j >= n {
                        break ;
                    }
                    let cj = s.get_char(j);
                    let cdj: u32 = cj as u32;
                    if cdj < 48 || cdj > 57 {
                        break ;
                    }
                    let d: u32 = cdj - 48;
                    let wide: u128 = acc as u128 * 10 + d as u128;
                    if wide > i64::MAX as u128 {
                        proof {
                            lemma_digit_run_chars(input@, i as nat);
                            lemma_digit_run_min(input@, i as nat, (j + 1 - i) as nat);
                            lemma_digits_value_mono(
                                input@,
                                i as nat,
                                (j + 1) as nat,
                                i as nat + digit_run_len(input@, i as nat),
                            );
                        }
                        return Err(SyntaxError::new(String::from_str("number too large")));
                    }
                    acc = wide as i64;
                    j = j + 1;
                }
                proof {
                    lemma_digit_run_chars(input@, i as nat);
                    lemma_digit_run_min(input@, i as nat, (j - i) as nat);
                    assert(i as nat + digit_run_len(input@, i as nat) == j as nat);
                    lemma_lex_push_step(
                        tokens@,
                        Token::Number(acc),
                        spec_tokenize_at(input@, j as nat),
                    );
                }
                tokens.push(Token::Number(acc));
                i = j;
            } else {
                let mut m = String::from_str("unrecognized character ");
                push_char(&mut m, c);
                return Err(SyntaxError::new(m));
            }
        }
    }
    proof {
        assert(tokens@.push(Token::EndOfInput) =~= tokens@ + seq![Token::EndOfInput]);
    }
    tokens.push(Token::EndOfInput);
    Ok(tokens)
}

proof fn lemma_tokenize_spaces_from(s: Seq<char>, i: nat)
    requires
        i <= s.len(),
        forall|k: int| i <= k < s.len() ==> is_space_char(s[k]),
    ensures
        spec_tokenize_at(s, i) == Ok::<Seq<Token>, LexFailure>(seq![Token::EndOfInput]),
    decreases s.len() - i,
{
    if i < s.len() {
        assert(is_space_char(s[i as int]));
        lemma_tokenize_spaces_from(s, i + 1);
    }
}

/// Input of whitespace alone lexes to exactly the end-of-input marker.
pub proof fn lemma_tokenize_whitespace_only(s: Seq<char>)
    requires
        forall|k: int| 0 <= k < s.len() ==> is_space_char(s[k]),
    ensures
        spec_tokenize(s) == Ok::<Seq<Token>, LexFailure>(seq![Token::EndOfInput]),
{
    lemma_tokenize_spaces_from(s, 0);
}

/// A string of digits alone, whose value fits the token's integer width,
/// lexes to exactly that number followed by the end-of-input marker.
pub proof fn lemma_tokenize_digits_only(s: Seq<char>)
    requires
        s.len() > 0,
        forall|k: int| 0 <= k < s.len() ==> is_digit_char(s[k]),
        digits_value(s, 0, s.len()) <= i64::MAX,
    ensures
        spec_tokenize(s) == Ok::<Seq<Token>, LexFailure>(
            seq![Token::Number(digits_value(s, 0, s.len()) as i64), Token::EndOfInput],
        ),
{
    lemma_digit_run_min(s, 0, s.len());
    lemma_digit_run_chars(s, 0);
    lemma_digits_value_nonneg(s, 0, s.len());
    assert(is_digit_char(s[0]));
    assert(!is_space_char(s[0]));
    assert(!is_symbol_char(s[0]));
    assert(digit_run_len(s, 0) == s.len());
    assert(spec_tokenize_at(s, s.len()) == Ok::<Seq<Token>, LexFailure>(seq![Token::EndOfInput]));
    assert(spec_tokenize_at(s, 0) == lex_prepend(
        seq![Token::Number(digits_value(s, 0, s.len()) as i64)],
        spec_tokenize_at(s, s.len()),
    ));
    assert(seq![Token::Number(digits_value(s, 0, s.len()) as i64)] + seq![Token::EndOfInput]
        =~= seq![Token::Number(digits_value(s, 0, s.len()) as i64), Token::EndOfInput]);
}

proof fn lemma_tokenize_marker_from(s: Seq<char>, i: nat)
    ensures
        spec_tokenize_at(s, i) matches Ok(toks) ==> {
            &&& toks.len() >= 1
            &&& toks[toks.len() - 1] is EndOfInput
            &&& forall|k: int| 0 <= k < toks.len() - 1 ==> !(toks[k] is EndOfInput)
        },
    decreases s.len() - i,
{
    if i < s.len() {
        let c = s[i as int];
        if is_space_char(c) {
            lemma_tokenize_marker_from(s, i + 1);
        } else if is_symbol_char(c) {
            lemma_tokenize_marker_from(s, i + 1);
        } else if is_digit_char(c) {
            let j = if i + digit_run_len(s, i) <= s.len() {
                i + digit_run_len(s, i)
            } else {
                s.len()
            };
            lemma_tokenize_marker_from(s, j);
        }
    }
}

/// A successful lexing yields a sequence holding exactly one `EndOfInput`
/// marker: it stands last and appears nowhere else.
pub proof fn lemma_tokenize_ends_with_marker(s: Seq<char>)
    ensures
        spec_tokenize(s) matches Ok(toks) ==> {
            &&& toks.len() >= 1
            &&& toks[toks.len() - 1] is EndOfInput
            &&& forall|k: int| 0 <= k < toks.len() - 1 ==> !(toks[k] is EndOfInput)
        },
{
    lemma_tokenize_marker_from(s, 0);
}

proof fn lemma_bad_char_fails_from(s: Seq<char>, i: nat, b: int)
    requires
        i <= b < s.len(),
        !is_allowed_char(s[b]),
    ensures
        spec_tokenize_at(s, i) is Err,
    decreases s.len() - i,
{
    let c = s[i as int];
    if is_space_char(c) || is_symbol_char(c) {
        lemma_bad_char_fails_from(s, i + 1, b);
    } else if is_digit_char(c) {
        lemma_digit_run_chars(s, i);
        let j = i + digit_run_len(s, i);
        let v = digits_value(s, i, j);
        if v <= i64::MAX {
            assert(b >= j);
            lemma_bad_char_fails_from(s, j, b);
        }
    }
}

/// Any input containing a character outside digits, whitespace and the six
/// operator characters fails to lex.
pub proof fn lemma_bad_char_fails(s: Seq<char>, b: int)
    requires
        0 <= b < s.len(),
        !is_allowed_char(s[b]),
    ensures
        spec_tokenize(s) is Err,
{
    lemma_bad_char_fails_from(s, 0, b);
}

proof fn lemma_unrecognized_from(s: Seq<char>, i: nat, c: char)
    requires
        i <= s.len(),
        spec_tokenize_at(s, i) == Err::<Seq<Token>, LexFailure>(LexFailure::Unrecognized(c)),
    ensures
        !is_allowed_char(c),
        exists|k: int| i <= k < s.len() && s[k] == c,
    decreases s.len() - i,
{
    let ci = s[i as int];
    if is_space_char(ci) || is_symbol_char(ci) {
        lemma_unrecognized_from(s, i + 1, c);
    } else if is_digit_char(ci) {
        lemma_digit_run_chars(s, i);
        let j = i + digit_run_len(s, i);
        lemma_unrecognized_from(s, j, c);
    } else {
        assert(s[i as int] == c);
    }
}

/// A lexing failure that names a character really found that character in the
/// input, and it lies outside the allowed set.
pub proof fn lemma_unrecognized_names_bad_char(s: Seq<char>, c: char)
    requires
        spec_tokenize(s) == Err::<Seq<Token>, LexFailure>(LexFailure::Unrecognized(c)),
    ensures
        !is_allowed_char(c),
        exists|k: int| 0 <= k < s.len() && s[k] == c,
{
    lemma_unrecognized_from(s, 0, c);
}

} // verus!
