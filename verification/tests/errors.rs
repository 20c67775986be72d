use berg_compiler::compiler_error::{CompilerError, ErrorLocation, load_error_string};
use berg_compiler::error_code::{ErrorCode, SourceLoadError};
use berg_compiler::fixity::Fixity;
use berg_compiler::identifiers::{IdentifierIndex, PLUS};
use berg_compiler::parser::parse;
use berg_compiler::token::{ExpressionToken, Token};

#[test]
fn constant_messages() {
    let ast = parse(b"1", None);
    assert_eq!(
        CompilerError::DivideByZero.message(&ast, 0),
        "Division by zero is illegal. Perhaps you meant a different number on the right hand side of the '/'?"
    );
    assert_eq!(
        CompilerError::ThrowWithoutException.message(&ast, 0),
        "throw must be passed a value to throw! For example, 'throw 1'"
    );
}

#[test]
fn field_messages_name_the_field() {
    let ast = parse(b":a = 1", None);
    assert_eq!(CompilerError::NoSuchField(12).message(&ast, 0), "No such field: 'a'");
    assert_eq!(
        CompilerError::FieldNotSet(12).message(&ast, 0),
        "Field 'a' was declared, but never set to a value!"
    );
    assert_eq!(CompilerError::ImmutableFieldOnRoot(0).message(&ast, 0), "'true' cannot be modified!");
}

#[test]
fn value_messages_quote_the_value() {
    let ast = parse(b"1", None);
    let error = CompilerError::UnsupportedOperator("1".to_string(), Fixity::Infix, IdentifierIndex(PLUS));
    assert_eq!(error.message(&ast, 0), "Unsupported binary operator + on value 1");
    let error = CompilerError::PrivateField("{ a }".to_string(), IdentifierIndex(PLUS));
    assert_eq!(
        error.message(&ast, 0),
        "Field '+' on '{ a }' is private and cannot be accessed with '.'! Perhaps you meant to declare the field with ':+' instead of '+'?"
    );
}

#[test]
fn invalid_utf8_message_shows_the_bytes() {
    let ast = parse(&[0xff, 0xfe], None);
    assert_eq!(
        CompilerError::InvalidUtf8(0).message(&ast, 0),
        "Invalid UTF-8 bytes! Perhaps this isn't a Berg UTF-8 source file? Invalid bytes: 'FFFE'"
    );
}

#[test]
fn unsupported_characters_message_quotes_them() {
    let ast = parse(b"12ab", None);
    assert_eq!(
        CompilerError::IdentifierStartsWithNumber(0).message(&ast, 0),
        "Field names must start with letters or '_', but '12ab' starts with a number! You may have mistyped the field name, or missed an operator?"
    );
}

#[test]
fn circular_dependency_quotes_the_expression() {
    let ast = parse(b"1 + 2 * 3", None);
    assert_eq!(CompilerError::CircularDependency.message(&ast, 3), "Circular dependency at '2 * 3'!");
}

#[test]
fn unmatched_open_names_both_brackets() {
    let ast = parse(b"(1", None);
    let mut seen = false;
    for i in 0..ast.tokens.len() {
        if let Token::Expression(ExpressionToken::Open { error: Some(_), .. }) = ast.tokens[i] {
            assert_eq!(
                CompilerError::OpenWithoutClose.message(&ast, i),
                "Open '(' found without a matching close ')'."
            );
            assert_eq!(
                CompilerError::OpenWithoutClose.location(&ast, i),
                ErrorLocation::SourceRange(ast.token_ranges[i])
            );
            seen = true;
        }
    }
    assert!(seen);
}

#[test]
fn codes_and_locations() {
    let ast = parse(b"1 + 2", None);
    assert_eq!(CompilerError::NoSuchPublicFieldOnRoot(IdentifierIndex(PLUS)).code(), ErrorCode::NoSuchPublicField);
    assert_eq!(CompilerError::ImmutableFieldOnRoot(0).code(), ErrorCode::ImmutableField);
    assert_eq!(CompilerError::CatchWithoutFinally.code().number(), 326);
    assert_eq!(CompilerError::ThrowWithoutException.code().number(), 330);
    assert_eq!(CompilerError::DivideByZero.location(&ast, 2), ErrorLocation::SourceExpression(2));
    let error = CompilerError::UnsupportedOperator("1".to_string(), Fixity::Infix, IdentifierIndex(PLUS));
    assert_eq!(error.location(&ast, 2), ErrorLocation::SourceRange(ast.token_ranges[2]));
    let load = CompilerError::SourceLoadError(SourceLoadError::CurrentDirectoryError, "x".to_string(), "e".to_string());
    assert_eq!(load.location(&ast, 0), ErrorLocation::Generic);
    assert_eq!(load.code(), ErrorCode::CurrentDirectoryError);
}

#[test]
fn load_error_messages() {
    assert_eq!(
        load_error_string(SourceLoadError::SourceTooLarge(5), "big.bg", ""),
        "SourceSpec file big.bg too large (5 bytes): source files greater than 4GB are unsupported."
    );
    assert_eq!(
        load_error_string(SourceLoadError::SourceNotFound, "a.bg", "gone"),
        "Source not found a.bg: gone"
    );
}
