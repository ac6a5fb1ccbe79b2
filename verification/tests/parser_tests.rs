use arith_parser::ast::ASTNode;
use arith_parser::lexer::tokenizer;
use arith_parser::parser::Parser;
use arith_parser::token::{SyntaxError, Token};

fn num(v: i64) -> ASTNode {
    ASTNode::Number(v)
}

fn bin(op: Token, left: ASTNode, right: ASTNode) -> ASTNode {
    ASTNode::BinaryOp { op, left: Box::new(left), right: Box::new(right) }
}

fn parse_text(input: &str) -> Result<ASTNode, SyntaxError> {
    let tokens = tokenizer(input.to_string())?;
    let mut parser = Parser::new(tokens);
    parser.parse()
}

#[test]
fn multiplication_binds_tighter_than_addition() {
    let ast = parse_text("2 + 3 * 4").unwrap();
    let expected = bin(Token::Plus, num(2), bin(Token::Star, num(3), num(4)));
    assert!(ast.equals(&expected));
}

#[test]
fn subtraction_is_left_associative() {
    let ast = parse_text("8 - 3 - 2").unwrap();
    let expected = bin(Token::Dash, bin(Token::Dash, num(8), num(3)), num(2));
    assert!(ast.equals(&expected));
    let wrong = bin(Token::Dash, num(8), bin(Token::Dash, num(3), num(2)));
    assert!(!ast.equals(&wrong));
}

#[test]
fn division_and_multiplication_are_left_associative() {
    let ast = parse_text("8 / 2 * 2").unwrap();
    let expected = bin(Token::Star, bin(Token::Slash, num(8), num(2)), num(2));
    assert!(ast.equals(&expected));
}

#[test]
fn nested_parentheses_parse_like_the_bare_number() {
    let wrapped = parse_text("(((5)))").unwrap();
    let bare = parse_text("5").unwrap();
    assert!(wrapped.equals(&bare));
    assert!(wrapped.equals(&num(5)));
}

#[test]
fn unbalanced_open_parenthesis_fails() {
    let err = parse_text("(2 + 3").unwrap_err();
    assert_eq!(err.message, "missing closing parenthesis, found end of input");
}

#[test]
fn close_parenthesis_in_place_of_operand_names_the_token() {
    let err = parse_text("(1 2").unwrap_err();
    assert_eq!(err.message, "missing closing parenthesis, found number");
}

#[test]
fn trailing_close_parenthesis_is_ignored() {
    let ast = parse_text("2 + 3)").unwrap();
    let expected = bin(Token::Plus, num(2), num(3));
    assert!(ast.equals(&expected));
}

#[test]
fn empty_input_fails_to_parse() {
    let err = parse_text("").unwrap_err();
    assert_eq!(err.message, "unexpected token: end of input");
}

#[test]
fn operator_in_place_of_factor_fails() {
    let err = parse_text("+").unwrap_err();
    assert_eq!(err.message, "unexpected token: '+'");
}

#[test]
fn worked_example_reconstructs_the_tree() {
    let ast = parse_text("3 + 5 * (((10 - 2)))").unwrap();
    let expected = bin(
        Token::Plus,
        num(3),
        bin(Token::Star, num(5), bin(Token::Dash, num(10), num(2))),
    );
    assert!(ast.equals(&expected));
}

#[test]
fn parse_without_any_token_reports_end_of_input() {
    let mut parser = Parser::new(vec![]);
    let err = parser.parse().unwrap_err();
    assert_eq!(err.message, "unexpected end of input");
}

#[test]
fn missing_close_parenthesis_without_end_marker() {
    let mut parser = Parser::new(vec![Token::LeftParen, Token::Number(1)]);
    let err = parser.parse().unwrap_err();
    assert_eq!(err.message, "missing closing parenthesis, input ended");
}

#[test]
fn peek_does_not_consume_and_advance_does() {
    let mut parser = Parser::new(vec![Token::Number(7), Token::EndOfInput]);
    assert_eq!(parser.peek(), Some(&Token::Number(7)));
    assert_eq!(parser.peek(), Some(&Token::Number(7)));
    assert_eq!(parser.advance(), Some(Token::Number(7)));
    assert_eq!(parser.advance(), Some(Token::EndOfInput));
    assert_eq!(parser.advance(), None);
    assert_eq!(parser.peek(), None);
}

#[test]
fn syntax_error_keeps_its_message() {
    let err = SyntaxError::new("bad input".to_string());
    assert_eq!(err.message, "bad input");
}

#[test]
fn equals_tells_different_trees_apart() {
    assert!(num(1).equals(&num(1)));
    assert!(!num(1).equals(&num(2)));
    let tree = bin(Token::Plus, num(1), num(2));
    assert!(tree.equals(&bin(Token::Plus, num(1), num(2))));
    assert!(!tree.equals(&bin(Token::Dash, num(1), num(2))));
    assert!(!tree.equals(&num(1)));
}
