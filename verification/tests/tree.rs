use berg_compiler::ast::OperandPosition;
use berg_compiler::expression_tree::AstExpressionTree;
use berg_compiler::identifiers::{IdentifierIndex, PLUS, STAR};
use berg_compiler::parser::parse;
use berg_compiler::token::{ExpressionBoundary, ExpressionToken, OperatorToken, Token};

#[test]
fn precedence_group_inserted_for_tighter_operator() {
    let ast = parse(b"1 + 2 * 3", None);
    assert_eq!(
        ast.tokens,
        vec![
            Token::Expression(ExpressionToken::OpenBlock { delta: 8, index: 1, error: None }),
            Token::Expression(ExpressionToken::IntegerLiteral(0)),
            Token::Operator(OperatorToken::InfixOperator(IdentifierIndex(PLUS))),
            Token::Expression(ExpressionToken::Open {
                delta: 4,
                boundary: ExpressionBoundary::PrecedenceGroup,
                error: None
            }),
            Token::Expression(ExpressionToken::IntegerLiteral(1)),
            Token::Operator(OperatorToken::InfixOperator(IdentifierIndex(STAR))),
            Token::Expression(ExpressionToken::IntegerLiteral(2)),
            Token::Operator(OperatorToken::Close {
                delta: 4,
                boundary: ExpressionBoundary::PrecedenceGroup,
                error: None
            }),
            Token::Operator(OperatorToken::CloseBlock { delta: 8, index: 1, error: None }),
        ]
    );
}

#[test]
fn parsed_tree_navigates_by_precedence() {
    let ast = parse(b"1 + 2 * 3", None);
    let source = AstExpressionTree::new(&ast, 0);
    let plus = source.inner_expression();
    assert_eq!(plus.root_index(), 2);
    assert_eq!(plus.token_string(), "+");
    assert_eq!(plus.left_expression().root_index(), 1);
    let group = plus.right_expression();
    assert_eq!(group.root_index(), 3);
    let times = group.inner_expression();
    assert_eq!(times.root_index(), 5);
    assert_eq!(times.token_string(), "*");
}

#[test]
fn lower_precedence_operator_needs_no_group() {
    let ast = parse(b"1 * 2 + 3", None);
    assert_eq!(ast.tokens.len(), 7);
    let plus = AstExpressionTree::new(&ast, 0).inner_expression();
    assert_eq!(plus.root_index(), 4);
    assert_eq!(plus.left_expression().root_index(), 2);
}

#[test]
fn parentheses_group_their_contents() {
    let ast = parse(b"(1)", None);
    assert_eq!(
        ast.tokens,
        vec![
            Token::Expression(ExpressionToken::OpenBlock { delta: 4, index: 1, error: None }),
            Token::Expression(ExpressionToken::Open { delta: 2, boundary: ExpressionBoundary::Parentheses, error: None }),
            Token::Expression(ExpressionToken::IntegerLiteral(0)),
            Token::Operator(OperatorToken::Close { delta: 2, boundary: ExpressionBoundary::Parentheses, error: None }),
            Token::Operator(OperatorToken::CloseBlock { delta: 4, index: 1, error: None }),
        ]
    );
}

#[test]
fn unclosed_parenthesis_is_an_open_without_close() {
    let ast = parse(b"(", None);
    assert_eq!(
        ast.tokens[1],
        Token::Expression(ExpressionToken::Open {
            delta: 2,
            boundary: ExpressionBoundary::Parentheses,
            error: Some(berg_compiler::token::ExpressionBoundaryError::OpenWithoutClose)
        })
    );
    assert_eq!(ast.tokens[2], Token::Expression(ExpressionToken::MissingExpression));
}

#[test]
fn close_without_open_still_parses() {
    let ast = parse(b"1)", None);
    assert!(ast.tokens.contains(&Token::Expression(ExpressionToken::Open {
        delta: 2,
        boundary: ExpressionBoundary::Parentheses,
        error: Some(berg_compiler::token::ExpressionBoundaryError::CloseWithoutOpen)
    })));
}

#[test]
fn curly_braces_open_a_block() {
    let ast = parse(b"{a}", None);
    assert_eq!(ast.blocks.len(), 3);
    assert_eq!(ast.blocks[2].boundary, ExpressionBoundary::CurlyBraces);
    assert_eq!(
        ast.tokens[1],
        Token::Expression(ExpressionToken::OpenBlock { delta: 2, index: 2, error: None })
    );
    assert_eq!(
        ast.tokens[3],
        Token::Operator(OperatorToken::CloseBlock { delta: 2, index: 2, error: None })
    );
}

fn open_spans(tokens: &[Token]) -> Vec<(usize, usize)> {
    let mut spans = Vec::new();
    for (i, t) in tokens.iter().enumerate() {
        match t {
            Token::Expression(ExpressionToken::Open { delta, .. })
            | Token::Expression(ExpressionToken::OpenBlock { delta, .. }) => spans.push((i, i + delta)),
            _ => {}
        }
    }
    spans
}

fn groups_cross(tokens: &[Token]) -> bool {
    let spans = open_spans(tokens);
    spans.iter().any(|&(i, j)| spans.iter().any(|&(k, l)| i < k && k < j && j < l))
}

#[test]
fn balanced_sources_nest_their_groups() {
    for source in [&b"a + b * c"[..], b"(a + b) * c", b"{a; (b)} * c", b"-(a)*b", b"(a"] {
        let ast = parse(source, None);
        assert!(!groups_cross(&ast.tokens));
    }
}

#[test]
fn close_without_open_after_an_operator_crosses_a_later_group() {
    // The inserted parentheses wrap `a + b`, while the source group keeps
    // `+` as its operator: `*` then opens a precedence group after `+`,
    // inside the parentheses, that closes after them.
    let ast = parse(b"a + b ) * c", None);
    assert!(groups_cross(&ast.tokens));
}

#[test]
fn term_operands_have_their_operator_as_parent() {
    let ast = parse(b"a + b", None);
    let plus = AstExpressionTree::new(&ast, 0).inner_expression();
    assert_eq!(plus.token_string(), "+");
    let left = plus.left_expression();
    let right = plus.right_expression();
    assert_eq!(left.root_index() + 1, plus.root_index());
    assert_eq!(right.root_index(), plus.root_index() + 1);
    assert_eq!(left.parent_expression().root_index(), plus.root_index());
    assert_eq!(right.parent_expression().root_index(), plus.root_index());
    assert_eq!(left.operand_position(), OperandPosition::Left);
    assert_eq!(right.operand_position(), OperandPosition::Right);
    assert_eq!(plus.child_expression(left.operand_position()).root_index(), left.root_index());
    assert_eq!(plus.child_expression(right.operand_position()).root_index(), right.root_index());
}

#[test]
fn a_term_in_parentheses_is_their_operand() {
    let ast = parse(b"(a)", None);
    let group = AstExpressionTree::new(&ast, 0).inner_expression();
    assert_eq!(group.root_index(), 1);
    let inner = group.right_expression();
    assert_eq!(inner.root_index(), 2);
    assert_eq!(inner.parent_expression().root_index(), 1);
    assert_eq!(inner.operand_position(), OperandPosition::PrefixOperand);
}

#[test]
fn an_operand_ending_in_a_group_finds_its_parent_past_the_group() {
    // The walk to the end of `x * (a)` goes into the parentheses and stops
    // at `a`, so the expression is taken to end there, and its parent is
    // the source group rather than `+`.
    let ast = parse(b"x * (a) + b", None);
    let plus = AstExpressionTree::new(&ast, 0).inner_expression();
    assert_eq!(plus.token_string(), "+");
    let times = plus.left_expression();
    assert_eq!(times.token_string(), "*");
    assert_eq!(times.token_range(), 1..=4);
    assert_eq!(times.parent_expression().root_index(), 0);
}

#[test]
fn previous_of_the_expression_after_the_last_token() {
    let ast = parse(b"(1)", None);
    let last = AstExpressionTree::new(&ast, ast.tokens.len() - 1);
    let next = last.next_expression();
    assert_eq!(next.root_index(), ast.tokens.len());
    assert_eq!(next.prev_expression().root_index(), last.open_operator());
    assert_eq!(last.open_operator(), 0);
}
