use berg_compiler::error_code::ErrorCode;
use berg_compiler::identifiers::{IdentifierIndex, PLUS};
use berg_compiler::token::{ExpressionBoundary, ExpressionBoundaryError, ExpressionToken, OperatorToken, Token};
use berg_compiler::expression_tree::ExpressionTreeWalker;
use berg_compiler::parser::parse;

#[test]
fn format_shows_precedence_groups() {
    let ast = parse(b"1 + 2 * 3", None);
    let text = ExpressionTreeWalker::basic(&ast, 0).format().to_string();
    assert_eq!(text, "source{ 1 + prec(2 * 3) }");
}

#[test]
fn format_shows_parentheses() {
    let ast = parse(b"(1)", None);
    let text = ExpressionTreeWalker::basic(&ast, 0).format().to_string();
    assert_eq!(text, "source{ (1) }");
}

#[test]
fn format_shows_missing_operand() {
    let ast = parse(b"", None);
    let text = ExpressionTreeWalker::basic(&ast, 0).format().to_string();
    assert_eq!(text, "source{ <missing> }");
}

#[test]
fn format_puts_no_space_before_newline_sequence() {
    let ast = parse(b"a\nb", None);
    let text = ExpressionTreeWalker::basic(&ast, 0).format().to_string();
    assert_eq!(text, "source{ a<newline sequence> b }");
}

#[test]
fn format_inner_expression_alone() {
    let ast = parse(b"1 * 2 + 3", None);
    let text = ExpressionTreeWalker::basic(&ast, 4).format().to_string();
    assert_eq!(text, "1 * 2 + 3");
}

#[test]
fn format_tree_lists_each_expression() {
    let ast = parse(b"1 + 2", None);
    let text = ExpressionTreeWalker::basic(&ast, 0).format_tree().to_string();
    assert_eq!(
        text,
        "Expression(OpenBlock { delta: 4, index: 1, error: None }) at token range 0-4: source{ 1 + 2 }\n\
         Operator(InfixOperator(+)) at 2: 1 + 2\n\
         Expression(IntegerLiteral(0)) at 1: 1\n\
         Expression(IntegerLiteral(1)) at 3: 2\n"
    );
}

#[test]
fn token_debug_text_spells_out_fields() {
    assert_eq!(
        Token::Operator(OperatorToken::InfixOperator(IdentifierIndex(PLUS))).debug_string(),
        "Operator(InfixOperator(+))"
    );
    assert_eq!(IdentifierIndex(1000).debug_string(), "1000");
    assert_eq!(
        Token::Expression(ExpressionToken::Open {
            delta: 2,
            boundary: ExpressionBoundary::Parentheses,
            error: Some(ExpressionBoundaryError::OpenWithoutClose)
        })
        .debug_string(),
        "Expression(Open { delta: 2, boundary: Parentheses, error: OpenWithoutClose })"
    );
    assert_eq!(
        Token::Expression(ExpressionToken::ErrorTerm(ErrorCode::InvalidUtf8, 3)).debug_string(),
        "Expression(ErrorTerm(InvalidUtf8, 3))"
    );
}
