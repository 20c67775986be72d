use berg_compiler::error_code::ErrorCode;
use berg_compiler::identifiers::{IdentifierIndex, COLON, EMPTY_STRING, NEWLINE_SEQUENCE, PLUS};
use berg_compiler::parser::parse;
use berg_compiler::token::{ExpressionToken, OperatorToken, Token};

fn open_source(delta: usize) -> Token {
    Token::Expression(ExpressionToken::OpenBlock { delta, index: 1, error: None })
}

fn close_source(delta: usize) -> Token {
    Token::Operator(OperatorToken::CloseBlock { delta, index: 1, error: None })
}

#[test]
fn parse_infix_with_spaces() {
    let ast = parse(b"1 + 2", None);
    assert_eq!(
        ast.tokens,
        vec![
            open_source(4),
            Token::Expression(ExpressionToken::IntegerLiteral(0)),
            Token::Operator(OperatorToken::InfixOperator(IdentifierIndex(PLUS))),
            Token::Expression(ExpressionToken::IntegerLiteral(1)),
            close_source(4),
        ]
    );
    assert_eq!(ast.literal_string(0), "1");
    assert_eq!(ast.literal_string(1), "2");
    assert_eq!(ast.char_data.size, 5);
    assert_eq!(ast.char_data.line_starts, vec![0]);
    assert_eq!(ast.token_ranges.len(), ast.tokens.len());
}

#[test]
fn parse_newline_joins_lines() {
    let ast = parse(b"a\nb", None);
    assert_eq!(
        ast.tokens,
        vec![
            open_source(4),
            Token::Expression(ExpressionToken::FieldReference(12)),
            Token::Operator(OperatorToken::InfixOperator(IdentifierIndex(NEWLINE_SEQUENCE))),
            Token::Expression(ExpressionToken::FieldReference(13)),
            close_source(4),
        ]
    );
    assert_eq!(ast.char_data.line_starts, vec![0, 2]);
    assert_eq!(ast.field_name(12), "a");
    assert_eq!(ast.field_name(13), "b");
}

#[test]
fn parse_line_starts_after_each_line_ending() {
    let ast = parse(b"x\r\ny\rz\n", None);
    assert_eq!(ast.char_data.line_starts, vec![0, 3, 5, 7]);
    assert_eq!(ast.char_data.size, 7);
}

#[test]
fn parse_unsupported_characters() {
    let ast = parse("\u{1F600}".as_bytes(), None);
    assert_eq!(
        ast.tokens,
        vec![
            open_source(2),
            Token::Expression(ExpressionToken::ErrorTerm(ErrorCode::UnsupportedCharacters, 0)),
            close_source(2),
        ]
    );
    assert_eq!(ast.literal_string(0), "\u{1F600}");
}

#[test]
fn parse_invalid_utf8() {
    let ast = parse(&[0xff, 0xfe], None);
    assert_eq!(
        ast.tokens,
        vec![
            open_source(2),
            Token::Expression(ExpressionToken::RawErrorTerm(ErrorCode::InvalidUtf8, 0)),
            close_source(2),
        ]
    );
    assert_eq!(ast.raw_literals[0], vec![0xff, 0xfe]);
}

#[test]
fn parse_identifier_starting_with_number() {
    let ast = parse(b"12ab", None);
    assert_eq!(
        ast.tokens[1],
        Token::Expression(ExpressionToken::ErrorTerm(ErrorCode::IdentifierStartsWithNumber, 0))
    );
    assert_eq!(ast.literal_string(0), "12ab");
}

#[test]
fn parse_assignment_operator() {
    let ast = parse(b"a = 1", None);
    assert_eq!(
        ast.tokens[2],
        Token::Operator(OperatorToken::InfixAssignment(IdentifierIndex(EMPTY_STRING)))
    );
}

#[test]
fn parse_declaration_makes_field_public() {
    let ast = parse(b":a", None);
    assert_eq!(ast.tokens[1], Token::Expression(ExpressionToken::PrefixOperator(IdentifierIndex(COLON))));
    assert_eq!(ast.tokens[2], Token::Expression(ExpressionToken::FieldReference(12)));
    assert!(ast.fields[12].is_public);
}

#[test]
fn parse_open_error_marks_source() {
    let ast = parse(b"", Some(ErrorCode::SourceNotFound));
    assert_eq!(ast.source_open_error, Some(ErrorCode::SourceNotFound));
    assert_eq!(
        ast.tokens[0],
        Token::Expression(ExpressionToken::OpenBlock {
            delta: 2,
            index: 1,
            error: Some(berg_compiler::token::ExpressionBoundaryError::OpenError)
        })
    );
    assert_eq!(ast.tokens[1], Token::Expression(ExpressionToken::MissingExpression));
}
