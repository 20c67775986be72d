use berg_compiler::conditional::{ConditionalOperand, ConditionalState, ConditionalStep, conditional_step, if_step};
use berg_compiler::error_code::{ErrorCode, ExpressionErrorPosition};
use berg_compiler::conditional::ConditionalOperand::{Block, Boolean, Else, If, Other};

fn run(operands: &[ConditionalOperand<u32>]) -> ConditionalStep<u32> {
    let mut step = if_step(operands[0]);
    for operand in &operands[1..] {
        step = match step {
            ConditionalStep::Conditional(state, result) => conditional_step(state, result, *operand),
            other => return other,
        };
    }
    step
}

#[test]
fn if_true_takes_the_first_block() {
    assert_eq!(run(&[Boolean(true), Block(1), Else, Block(2)]), ConditionalStep::Result(1));
}

#[test]
fn if_false_takes_the_else_block() {
    assert_eq!(run(&[Boolean(false), Block(1), Else, Block(2)]), ConditionalStep::Result(2));
}

#[test]
fn else_if_chains_take_the_first_true_branch() {
    assert_eq!(
        run(&[Boolean(false), Block(1), Else, If, Boolean(true), Block(3), Else, Block(4)]),
        ConditionalStep::Result(3)
    );
    assert_eq!(
        run(&[Boolean(true), Block(1), Else, If, Boolean(true), Block(3), Else, Block(4)]),
        ConditionalStep::Result(1)
    );
}

#[test]
fn if_without_else_waits_for_else() {
    assert_eq!(
        run(&[Boolean(true), Block(1)]),
        ConditionalStep::Conditional(ConditionalState::MaybeElse, Some(1))
    );
}

#[test]
fn conditional_errors() {
    assert_eq!(
        run(&[Else]),
        ConditionalStep::Error(ErrorCode::IfWithoutCondition, ExpressionErrorPosition::Left)
    );
    assert_eq!(
        run(&[Boolean(true), Other]),
        ConditionalStep::Error(ErrorCode::IfBlockMustBeBlock, ExpressionErrorPosition::Right)
    );
    assert_eq!(
        run(&[Boolean(true), Block(1), Block(2)]),
        ConditionalStep::Error(ErrorCode::IfFollowedByNonElse, ExpressionErrorPosition::Right)
    );
    assert_eq!(
        run(&[Boolean(true), Block(1), Else, Other]),
        ConditionalStep::Error(ErrorCode::ElseBlockMustBeBlock, ExpressionErrorPosition::Right)
    );
    assert_eq!(
        run(&[Boolean(false), Block(1), Else, If, Else]),
        ConditionalStep::Error(ErrorCode::IfWithoutCondition, ExpressionErrorPosition::LeftRight)
    );
    assert_eq!(run(&[Other]), ConditionalStep::NotBoolean);
}
