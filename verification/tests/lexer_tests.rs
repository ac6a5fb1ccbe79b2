use arith_parser::token::Token;
use arith_parser::lexer::tokenizer;

#[test]
fn digits_only_yields_number_then_end() {
    let tokens = tokenizer("42".to_string()).unwrap();
    assert_eq!(tokens, vec![Token::Number(42), Token::EndOfInput]);
}

#[test]
fn single_digit_yields_number_then_end() {
    let tokens = tokenizer("7".to_string()).unwrap();
    assert_eq!(tokens, vec![Token::Number(7), Token::EndOfInput]);
}

#[test]
fn leading_zeros_read_as_base_ten() {
    let tokens = tokenizer("0042".to_string()).unwrap();
    assert_eq!(tokens, vec![Token::Number(42), Token::EndOfInput]);
}

#[test]
fn whitespace_only_yields_end_only() {
    let tokens = tokenizer(" \t\r\n  ".to_string()).unwrap();
    assert_eq!(tokens, vec![Token::EndOfInput]);
}

#[test]
fn empty_input_yields_end_only() {
    let tokens = tokenizer("".to_string()).unwrap();
    assert_eq!(tokens, vec![Token::EndOfInput]);
}

#[test]
fn unrecognized_character_is_named_in_message() {
    let err = tokenizer("3 + a".to_string()).unwrap_err();
    assert_eq!(err.message, "unrecognized character a");
}

#[test]
fn unrecognized_unicode_character_is_named_in_message() {
    let err = tokenizer("2 \u{00a7} 3".to_string()).unwrap_err();
    assert_eq!(err.message, "unrecognized character \u{00a7}");
}

#[test]
fn number_too_large_is_an_error() {
    let err = tokenizer("99999999999999999999".to_string()).unwrap_err();
    assert_eq!(err.message, "number too large");
}

#[test]
fn largest_number_still_fits() {
    let tokens = tokenizer("9223372036854775807".to_string()).unwrap();
    assert_eq!(tokens, vec![Token::Number(i64::MAX), Token::EndOfInput]);
}

#[test]
fn one_past_largest_number_is_an_error() {
    let err = tokenizer("9223372036854775808".to_string()).unwrap_err();
    assert_eq!(err.message, "number too large");
}

#[test]
fn each_symbol_has_its_token() {
    let tokens = tokenizer("()+-*/".to_string()).unwrap();
    assert_eq!(
        tokens,
        vec![
            Token::LeftParen,
            Token::RightParen,
            Token::Plus,
            Token::Dash,
            Token::Star,
            Token::Slash,
            Token::EndOfInput,
        ]
    );
}

#[test]
fn leading_dash_is_an_operator_token() {
    let tokens = tokenizer("-5".to_string()).unwrap();
    assert_eq!(tokens, vec![Token::Dash, Token::Number(5), Token::EndOfInput]);
}

#[test]
fn mixed_expression_tokens() {
    let tokens = tokenizer("3 + 5 * (((10 - 2)))".to_string()).unwrap();
    assert_eq!(
        tokens,
        vec![
            Token::Number(3),
            Token::Plus,
            Token::Number(5),
            Token::Star,
            Token::LeftParen,
            Token::LeftParen,
            Token::LeftParen,
            Token::Number(10),
            Token::Dash,
            Token::Number(2),
            Token::RightParen,
            Token::RightParen,
            Token::RightParen,
            Token::EndOfInput,
        ]
    );
}
