use berg_compiler::error_code::{ErrorCode, SourceLoadError};
use berg_compiler::precedence::Precedence;
use berg_compiler::identifiers::{IdentifierIndex, PLUS, STAR, SEMICOLON};

#[test]
fn error_code_numbers() {
    assert_eq!(ErrorCode::SourceNotFound.number(), 101);
    assert_eq!(ErrorCode::InvalidUtf8.number(), 201);
    assert_eq!(ErrorCode::MissingOperand.number(), 301);
}

#[test]
fn plus_takes_times_as_right_child() {
    let plus = Precedence::from(IdentifierIndex(PLUS));
    let star = Precedence::from(IdentifierIndex(STAR));
    let semi = Precedence::from(IdentifierIndex(SEMICOLON));
    assert!(plus.takes_right_child(star));
    assert!(!star.takes_right_child(plus));
    assert!(semi.takes_right_child(plus));
}

#[test]
fn source_load_errors_have_source_codes() {
    assert_eq!(SourceLoadError::SourceNotFound.code(), ErrorCode::SourceNotFound);
    assert_eq!(SourceLoadError::SourceTooLarge(5).code().number(), 105);
    assert_eq!(SourceLoadError::IoReadError.code().number(), 103);
}

#[test]
fn small_sources_fit() {
    assert!(berg_compiler::parser::source_fits(0));
    assert!(berg_compiler::parser::source_fits(1_000_000));
    assert!(!berg_compiler::parser::source_fits(usize::MAX));
}

#[test]
fn identifier_text_for_messages() {
    assert_eq!(IdentifierIndex(PLUS).to_string(), "+");
    assert_eq!(IdentifierIndex(1000).to_string(), "1000");
    assert_eq!(IdentifierIndex(100).to_string(), "100");
}
