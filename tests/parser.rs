use arith_parser::parser::{parse_expression, Node, Parser, ParserError};
use arith_parser::tokenizer::{Decimal, TokenizerError};

fn value(d: &Decimal) -> f64 {
    let mut text = String::new();
    for digit in &d.integer {
        text.push(char::from(b'0' + digit));
    }
    text.push('.');
    for digit in &d.fraction {
        text.push(char::from(b'0' + digit));
    }
    text.push('0');
    text.parse().unwrap()
}

fn eval(n: &Node) -> f64 {
    match n {
        Node::Add(l, r) => eval(l) + eval(r),
        Node::Subtract(l, r) => eval(l) - eval(r),
        Node::Multiply(l, r) => eval(l) * eval(r),
        Node::Divide(l, r) => eval(l) / eval(r),
        Node::Power(l, r) => eval(l).powf(eval(r)),
        Node::Negative(x) => -eval(x),
        Node::Number(d) => value(d),
    }
}

fn parsed(text: &str) -> Node {
    let mut p = Parser::new(text).unwrap();
    p.parse().unwrap()
}

fn leaf(n: u8) -> Box<Node> {
    Box::new(Node::Number(Decimal { integer: vec![n], fraction: vec![] }))
}

#[test]
fn whitespace_does_not_change_the_tree() {
    assert_eq!(parsed("1+1"), parsed("1 + 1"));
    assert_eq!(parsed("1+1"), Node::Add(leaf(1), leaf(1)));
}

#[test]
fn multiplication_binds_tighter_than_addition() {
    let tree = parsed("1 + 3 * 2 + 7");
    assert_eq!(
        tree,
        Node::Add(
            Box::new(Node::Add(leaf(1), Box::new(Node::Multiply(leaf(3), leaf(2))))),
            leaf(7)
        )
    );
    assert_eq!(eval(&tree), 14.0);
}

#[test]
fn negation_applies_to_the_operand_only() {
    let tree = parsed("-1 + 3 * 4");
    assert_eq!(
        tree,
        Node::Add(
            Box::new(Node::Negative(leaf(1))),
            Box::new(Node::Multiply(leaf(3), leaf(4)))
        )
    );
    assert_eq!(eval(&tree), 11.0);
}

#[test]
fn parentheses_group_first() {
    let tree = parsed("(1 + 3) * 4");
    assert_eq!(tree, Node::Multiply(Box::new(Node::Add(leaf(1), leaf(3))), leaf(4)));
    assert_eq!(eval(&tree), 16.0);
}

#[test]
fn unclosed_group_is_unmatched() {
    let mut p = Parser::new("(1 + 2").unwrap();
    assert_eq!(p.parse(), Err(ParserError::UnmatchedParenthesis));
}

#[test]
fn empty_input_fails_at_construction() {
    assert!(matches!(Parser::new(""), Err(ParserError::NoTokens)));
    assert!(matches!(Parser::new("   "), Err(ParserError::NoTokens)));
    assert_eq!(parse_expression(""), Err(ParserError::NoTokens));
}

#[test]
fn reparsing_gives_equal_trees() {
    let text = "2 * (3 - 1) ^ 2 / -4";
    assert_eq!(parsed(text), parsed(text));
    assert_eq!(parse_expression(text), parse_expression(text));
    assert_eq!(parse_expression("(1"), parse_expression("(1"));
}

#[test]
fn lexical_error_at_construction() {
    assert!(matches!(
        Parser::new("x + 1"),
        Err(ParserError::WrappedTokenizerError(TokenizerError::InvalidCharacter('x')))
    ));
}

#[test]
fn lexical_error_while_parsing() {
    assert_eq!(
        parse_expression("1 + 2.3.4"),
        Err(ParserError::WrappedTokenizerError(TokenizerError::ErrorParsingNumber(
            String::from("2.3.4")
        )))
    );
}

#[test]
fn operator_where_operand_expected_is_invalid() {
    assert_eq!(parse_expression("* 2"), Err(ParserError::InvalidExpression));
    assert_eq!(parse_expression("1 +"), Err(ParserError::InvalidExpression));
    assert_eq!(parse_expression(")"), Err(ParserError::InvalidExpression));
}

#[test]
fn operators_group_to_the_left() {
    assert_eq!(parsed("8 - 3 - 2"), Node::Subtract(Box::new(Node::Subtract(leaf(8), leaf(3))), leaf(2)));
    let pow = parsed("2^3^2");
    assert_eq!(pow, Node::Power(Box::new(Node::Power(leaf(2), leaf(3))), leaf(2)));
    assert_eq!(eval(&pow), 64.0);
}

#[test]
fn adjacent_groups_multiply() {
    let tree = parsed("(1+2)(3+4)");
    assert_eq!(
        tree,
        Node::Multiply(
            Box::new(Node::Add(leaf(1), leaf(2))),
            Box::new(Node::Add(leaf(3), leaf(4)))
        )
    );
    assert_eq!(eval(&tree), 21.0);
}

#[test]
fn decimals_keep_their_digits() {
    let tree = parsed("3.25 / 0.5");
    assert_eq!(
        tree,
        Node::Divide(
            Box::new(Node::Number(Decimal { integer: vec![3], fraction: vec![2, 5] })),
            Box::new(Node::Number(Decimal { integer: vec![0], fraction: vec![5] }))
        )
    );
    assert_eq!(eval(&tree), 6.5);
}

#[test]
fn trailing_tokens_are_left_unread() {
    assert_eq!(parsed("1 2"), *leaf(1));
    assert_eq!(parsed("4 ) $"), *leaf(4));
}

#[test]
fn parser_error_messages() {
    assert_eq!(ParserError::NoTokens.message(), "no tokens could be extracted from the expression");
    assert_eq!(
        ParserError::UnmatchedParenthesis.message(),
        "there are unmatched parenthesis in the expression"
    );
    assert_eq!(ParserError::InvalidExpression.message(), "the expression isn't valid");
    assert_eq!(
        ParserError::WrappedTokenizerError(TokenizerError::InvalidCharacter('$')).message(),
        "found an invalid (or not supported) character $"
    );
}
