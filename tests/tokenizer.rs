use arith_parser::tokenizer::{Decimal, Token, Tokenizer, TokenizerError};
use arith_parser::parser::OperationPrecedence;

fn num(integer: &[u8], fraction: &[u8]) -> Token {
    Token::Number(Decimal { integer: integer.to_vec(), fraction: fraction.to_vec() })
}

#[test]
fn test_tokenizer_happy_path() {
    let input: &str = "3.23 + 10.0993 - ((3*2)/24) ^ 2";
    let expected_output: [Token; 16] = [
        num(&[3], &[2, 3]),
        Token::Add,
        num(&[1, 0], &[0, 9, 9, 3]),
        Token::Subtract,
        Token::OpenParenthesis,
        Token::OpenParenthesis,
        num(&[3], &[]),
        Token::Multiply,
        num(&[2], &[]),
        Token::CloseParenthesis,
        Token::Divide,
        num(&[2, 4], &[]),
        Token::CloseParenthesis,
        Token::Power,
        num(&[2], &[]),
        Token::End,
    ];
    let mut t = Tokenizer::new(input);
    for expected in expected_output.iter() {
        match t.next() {
            Some(Ok(token)) => assert_eq!(&token, expected),
            other => panic!("unexpected {:?}", other),
        }
    }
}

#[test]
fn test_tokenizer_invalid_char_error() {
    let input: &str = "cos(90)";
    let mut t = Tokenizer::new(input);
    if let Some(res) = t.next() {
        match res {
            Ok(_) => panic!("error expected"),
            Err(err) => match err {
                TokenizerError::InvalidCharacter(_) => {}
                _ => panic!("this is not the expected error"),
            },
        }
    }
}

#[test]
fn invalid_character_is_the_first_one() {
    let mut t = Tokenizer::new("cos(90)");
    assert_eq!(t.next(), Some(Err(TokenizerError::InvalidCharacter('c'))));
}

#[test]
fn end_repeats_after_exhaustion() {
    let mut t = Tokenizer::new(" 7  ");
    assert_eq!(t.next(), Some(Ok(num(&[7], &[]))));
    for _ in 0..3 {
        assert_eq!(t.next(), Some(Ok(Token::End)));
    }
}

#[test]
fn empty_text_gives_end() {
    let mut t = Tokenizer::new("");
    assert_eq!(t.next(), Some(Ok(Token::End)));
    let mut t = Tokenizer::new("   ");
    assert_eq!(t.next(), Some(Ok(Token::End)));
}

#[test]
fn two_points_fail_to_convert() {
    let mut t = Tokenizer::new("1.2.3+4");
    assert_eq!(
        t.next(),
        Some(Err(TokenizerError::ErrorParsingNumber(String::from("1.2.3"))))
    );
    assert_eq!(t.next(), Some(Ok(Token::Add)));
    assert_eq!(t.next(), Some(Ok(num(&[4], &[]))));
}

#[test]
fn trailing_point_is_a_number() {
    let mut t = Tokenizer::new("12.");
    assert_eq!(t.next(), Some(Ok(num(&[1, 2], &[]))));
    assert_eq!(t.next(), Some(Ok(Token::End)));
}

#[test]
fn leading_point_is_invalid() {
    let mut t = Tokenizer::new(".5");
    assert_eq!(t.next(), Some(Err(TokenizerError::InvalidCharacter('.'))));
    assert_eq!(t.next(), Some(Ok(num(&[5], &[]))));
}

#[test]
fn non_ascii_character_is_invalid() {
    let mut t = Tokenizer::new("é1");
    assert_eq!(t.next(), Some(Err(TokenizerError::InvalidCharacter('é'))));
    assert_eq!(t.next(), Some(Ok(num(&[1], &[]))));
}

#[test]
fn operator_precedence_levels() {
    assert_eq!(Token::Add.get_operation_precedence(), OperationPrecedence::AddSubtract);
    assert_eq!(Token::Subtract.get_operation_precedence(), OperationPrecedence::AddSubtract);
    assert_eq!(Token::Multiply.get_operation_precedence(), OperationPrecedence::MultiplyDivision);
    assert_eq!(Token::Divide.get_operation_precedence(), OperationPrecedence::MultiplyDivision);
    assert_eq!(Token::Power.get_operation_precedence(), OperationPrecedence::Power);
    assert_eq!(Token::End.get_operation_precedence(), OperationPrecedence::DefaultZero);
    assert_eq!(num(&[1], &[]).get_operation_precedence(), OperationPrecedence::DefaultZero);
    assert_eq!(Token::OpenParenthesis.get_operation_precedence(), OperationPrecedence::DefaultZero);
    assert!(OperationPrecedence::DefaultZero.level() < OperationPrecedence::AddSubtract.level());
    assert!(OperationPrecedence::AddSubtract.level() < OperationPrecedence::MultiplyDivision.level());
    assert!(OperationPrecedence::MultiplyDivision.level() < OperationPrecedence::Power.level());
    assert!(OperationPrecedence::Power.level() < OperationPrecedence::Negative.level());
}

#[test]
fn tokenizer_error_messages() {
    assert_eq!(
        TokenizerError::InvalidCharacter('c').message(),
        "found an invalid (or not supported) character c"
    );
    assert_eq!(
        TokenizerError::ErrorParsingNumber(String::from("1.2.3")).message(),
        "an error occurred when trying to convert '1.2.3' into a number"
    );
}
