use berg_compiler::evaluation::{BlockState, Blocks, EvalError, EvalStep, FieldValue, eval_step};
use berg_compiler::token::ExpressionBoundary;
use berg_compiler::identifiers::{APPLY, IdentifierIndex, PLUS};
use berg_compiler::token::{OperatorToken, Token};
use berg_compiler::parser::parse;

fn state_name(blocks: &Blocks<i64>, b: usize) -> &'static str {
    match blocks.blocks[b].state {
        BlockState::Ready => "Ready",
        BlockState::Running => "Running",
        BlockState::InNextVal => "InNextVal",
        BlockState::Complete(_) => "Complete",
    }
}

#[test]
fn source_block_starts_ready() {
    let ast = parse(b":a = 1", None);
    let blocks: Blocks<i64> = Blocks::from_ast(&ast);
    assert_eq!(blocks.blocks.len(), 1);
    assert_eq!(blocks.blocks[0].expression, 0);
    assert_eq!(blocks.blocks[0].index, 1);
    assert_eq!(blocks.blocks[0].parent, None);
    assert_eq!(state_name(&blocks, 0), "Ready");
}

#[test]
fn a_block_runs_once_and_reentry_is_circular() {
    let ast = parse(b":a = 1", None);
    let mut blocks: Blocks<i64> = Blocks::from_ast(&ast);
    assert_eq!(blocks.start_evaluation(&ast, 0), Ok(true));
    assert_eq!(state_name(&blocks, 0), "Running");
    assert_eq!(blocks.blocks[0].fields.len(), ast.blocks[1].scope_count);
    assert_eq!(blocks.start_evaluation(&ast, 0), Err(EvalError::CircularDependency(0)));
    assert_eq!(blocks.result(0), Err(EvalError::CircularDependency(0)));
    blocks.finish_evaluation(&ast, 0, 7);
    assert_eq!(blocks.start_evaluation(&ast, 0), Ok(false));
    assert_eq!(blocks.result(0), Ok(7));
}

#[test]
fn fields_are_not_declared_until_set() {
    let ast = parse(b":a = 1", None);
    let mut blocks: Blocks<i64> = Blocks::from_ast(&ast);
    assert_eq!(blocks.start_evaluation(&ast, 0), Ok(true));
    assert!(matches!(blocks.local_field(&ast, 0, 12), Err(EvalError::NoSuchField(12))));
    assert_eq!(blocks.set_local_field(&ast, 0, 12, 5), Ok(()));
    assert!(matches!(blocks.local_field(&ast, 0, 12), Ok(FieldValue::Value(5))));
}

#[test]
fn keywords_are_fields_of_the_root() {
    let ast = parse(b":a = 1", None);
    let mut blocks: Blocks<i64> = Blocks::from_ast(&ast);
    assert_eq!(blocks.start_evaluation(&ast, 0), Ok(true));
    assert!(matches!(blocks.local_field(&ast, 0, 0), Ok(FieldValue::Root(0))));
    assert_eq!(blocks.set_local_field(&ast, 0, 0, 5), Err(EvalError::ImmutableFieldOnRoot(0)));
}

#[test]
fn child_blocks_see_their_parents_fields() {
    let ast = parse(b":a = 1; {a}", None);
    let mut blocks: Blocks<i64> = Blocks::from_ast(&ast);
    assert_eq!(blocks.start_evaluation(&ast, 0), Ok(true));
    assert_eq!(blocks.set_local_field(&ast, 0, 12, 3), Ok(()));
    let child = blocks.create_child_block(&ast, 0, 5, 2);
    assert_eq!(child, 1);
    assert_eq!(blocks.blocks[1].parent, Some(0));
    assert_eq!(blocks.start_evaluation(&ast, 1), Ok(true));
    assert!(matches!(blocks.local_field(&ast, 1, 12), Ok(FieldValue::Value(3))));
}

#[test]
fn field_prefers_the_result_then_the_blocks_public_field() {
    let ast = parse(b":a = 1", None);
    let mut blocks: Blocks<i64> = Blocks::from_ast(&ast);
    assert_eq!(blocks.start_evaluation(&ast, 0), Ok(true));
    assert_eq!(blocks.set_local_field(&ast, 0, 12, 9), Ok(()));
    blocks.finish_evaluation(&ast, 0, 1);
    let name = ast.fields[12].name;
    assert!(matches!(blocks.field(&ast, 0, name, Some(4)), Ok(FieldValue::Value(4))));
    assert!(matches!(blocks.field(&ast, 0, name, None), Ok(FieldValue::Value(9))));
    assert_eq!(
        blocks.own_field(&ast, 0, IdentifierIndex(PLUS)).err(),
        Some(EvalError::NoSuchPublicField(0, IdentifierIndex(PLUS)))
    );
}

#[test]
fn private_fields_are_refused() {
    let ast = parse(b"a = 1", None);
    let mut blocks: Blocks<i64> = Blocks::from_ast(&ast);
    assert_eq!(blocks.start_evaluation(&ast, 0), Ok(true));
    let name = ast.fields[12].name;
    assert_eq!(blocks.own_field(&ast, 0, name).err(), Some(EvalError::PrivateField(0, name)));
}

#[test]
fn a_lent_result_is_circular_until_replaced() {
    let ast = parse(b"1", None);
    let mut blocks: Blocks<i64> = Blocks::from_ast(&ast);
    assert_eq!(blocks.start_evaluation(&ast, 0), Ok(true));
    blocks.finish_evaluation(&ast, 0, 1);
    assert_eq!(blocks.take_result(&ast, 0, BlockState::InNextVal), Ok(1));
    assert_eq!(blocks.result(0), Err(EvalError::CircularDependency(0)));
    assert_eq!(blocks.take_result(&ast, 0, BlockState::InNextVal), Err(EvalError::CircularDependency(0)));
    blocks.replace_result(&ast, 0, 2);
    assert_eq!(blocks.result(0), Ok(2));
}

fn root_of(ast: &berg_compiler::ast::Ast) -> usize {
    // The root block's inner expression.
    match eval_step(ast, 0) {
        EvalStep::ChildBlock { expression, index } => {
            assert_eq!(expression, 0);
            assert_eq!(index, 1);
        }
        other => panic!("unexpected root step {:?}", other),
    }
    berg_compiler::navigation::inner_root(ast, 0)
}

fn skip_groups(ast: &berg_compiler::ast::Ast, mut root: usize) -> usize {
    while let EvalStep::Inner { inner, .. } = eval_step(ast, root) {
        root = inner;
    }
    root
}

#[test]
fn infix_step_names_its_operands() {
    let ast = parse(b"1 + 2", None);
    let root = skip_groups(&ast, root_of(&ast));
    match eval_step(&ast, root) {
        EvalStep::Infix { operator, left, right } => {
            assert_eq!(operator, IdentifierIndex(PLUS));
            assert!(left < root && root < right);
            assert!(matches!(eval_step(&ast, skip_groups(&ast, left)), EvalStep::IntegerLiteral(_)));
            assert!(matches!(eval_step(&ast, skip_groups(&ast, right)), EvalStep::IntegerLiteral(_)));
        }
        other => panic!("unexpected step {:?}", other),
    }
}

#[test]
fn curly_braces_are_child_blocks() {
    let ast = parse(b"{1}", None);
    let root = skip_groups(&ast, root_of(&ast));
    assert!(matches!(eval_step(&ast, root), EvalStep::ChildBlock { index: 2, .. }));
}

#[test]
fn parentheses_are_required_groups() {
    let ast = parse(b"(1)", None);
    let root = root_of(&ast);
    let mut found = false;
    let mut at = root;
    while let EvalStep::Inner { boundary, inner, required } = eval_step(&ast, at) {
        if boundary == ExpressionBoundary::Parentheses {
            assert!(required);
            found = true;
        }
        at = inner;
    }
    assert!(found);
    assert!(matches!(eval_step(&ast, at), EvalStep::IntegerLiteral(_)));
}

#[test]
fn unclosed_groups_step_to_their_error() {
    let ast = parse(b"(1", None);
    let mut seen = false;
    for i in 0..ast.tokens.len() {
        if let berg_compiler::token::Token::Expression(berg_compiler::token::ExpressionToken::Open { error: Some(e), .. }) =
            ast.tokens[i]
        {
            assert_eq!(eval_step(&ast, i), EvalStep::BoundaryError(e));
            seen = true;
        }
    }
    assert!(seen);
}

#[test]
fn declaring_takes_the_next_input_once() {
    let ast = parse(b":a = 1; :b = 2", None);
    let mut blocks: Blocks<i64> = Blocks::from_ast(&ast);
    assert_eq!(blocks.start_evaluation(&ast, 0), Ok(true));
    assert_eq!(blocks.declare_field(&ast, 0, 12, Some(8)), Ok(()));
    assert!(matches!(blocks.local_field(&ast, 0, 12), Ok(FieldValue::Value(8))));
    assert_eq!(blocks.declare_field(&ast, 0, 12, Some(9)), Ok(()));
    assert!(matches!(blocks.local_field(&ast, 0, 12), Ok(FieldValue::Value(8))));
    assert_eq!(blocks.declare_field(&ast, 0, 13, None), Ok(()));
    assert!(matches!(blocks.local_field(&ast, 0, 13), Err(EvalError::FieldNotSet(13))));
}

#[test]
fn public_fields_are_set_by_name() {
    let ast = parse(b":a = 1", None);
    let mut blocks: Blocks<i64> = Blocks::from_ast(&ast);
    assert_eq!(blocks.start_evaluation(&ast, 0), Ok(true));
    let name = ast.fields[12].name;
    assert_eq!(blocks.set_field(&ast, 0, name, 6), Ok(()));
    assert!(matches!(blocks.own_field(&ast, 0, name), Ok(FieldValue::Value(6))));
    assert_eq!(
        blocks.set_field(&ast, 0, IdentifierIndex(PLUS), 6),
        Err(EvalError::NoSuchPublicField(0, IdentifierIndex(PLUS)))
    );
}

#[test]
fn private_fields_are_not_set_by_name() {
    let ast = parse(b"a = 1", None);
    let mut blocks: Blocks<i64> = Blocks::from_ast(&ast);
    assert_eq!(blocks.start_evaluation(&ast, 0), Ok(true));
    let name = ast.fields[12].name;
    assert_eq!(blocks.set_field(&ast, 0, name, 6), Err(EvalError::PrivateField(0, name)));
}

#[test]
fn juxtaposed_terms_step_to_an_application() {
    let ast = parse(b"f (1)", None);
    let mut found = false;
    for i in 0..ast.tokens.len() {
        if ast.tokens[i] == Token::Operator(OperatorToken::InfixOperator(IdentifierIndex(APPLY))) {
            match eval_step(&ast, i) {
                EvalStep::Apply { left, right } => {
                    assert!(left < i && i < right);
                    // The argument is the expression inside the parentheses.
                    assert!(matches!(eval_step(&ast, right), EvalStep::IntegerLiteral(_)));
                }
                other => panic!("unexpected step {:?}", other),
            }
            found = true;
        }
    }
    assert!(found);
}
