//! The `if` / `else` state machine: what a conditional becomes when the
//! next operand follows it (`if cond {...} else if cond {...} else {...}`).
//! The values themselves stay with the evaluator, which tells the machine
//! what kind of operand came: the keyword `if` or `else`, a block, or (at a
//! condition) the condition's truth.
use crate::error_code::{ErrorCode, ExpressionErrorPosition};
use vstd::prelude::*;

verus! {

/// Where a conditional stands.
#[derive(Debug, Copy, Clone, PartialEq, Eq, Structural)]
pub enum ConditionalState {
    /// `if ^`: a condition comes next.
    IfCondition,
    /// `if true ^`: the block to run comes next.
    RunBlock,
    /// `if false ^`: a block to skip comes next.
    IgnoreBlock,
    /// `else ^`: the else block (or `if`) comes next.
    ElseBlock,
    /// `(if true | if false | else) {} ^`: `else` may come next.
    MaybeElse,
}

/// The operand that follows a conditional, as far as the conditional looks
/// at it.
#[derive(Debug, Copy, Clone, PartialEq, Eq)]
pub enum ConditionalOperand<B> {
    /// The keyword `if`.
    If,
    /// The keyword `else`.
    Else,
    /// A block.
    Block(B),
    /// At a condition: the truth of the condition.
    Boolean(bool),
    /// Any other value.
    Other,
}

/// What the conditional becomes.
#[derive(Debug, Copy, Clone, PartialEq, Eq)]
pub enum ConditionalStep<B> {
    /// A conditional in this state, with the block whose branch was taken
    /// (if any).
    Conditional(ConditionalState, Option<B>),
    /// The conditional is complete; its value is that of this block.
    Result(B),
    /// A condition that is not a boolean: the evaluator reports its failed
    /// conversion.
    NotBoolean,
    /// An error, at the given operand.
    Error(ErrorCode, ExpressionErrorPosition),
}

/// What `if` followed by `right` becomes.
pub open spec fn spec_if_step<B>(right: ConditionalOperand<B>) -> ConditionalStep<B> {
    match right {
        ConditionalOperand::If | ConditionalOperand::Else => ConditionalStep::Error(
            ErrorCode::IfWithoutCondition,
            ExpressionErrorPosition::Left,
        ),
        ConditionalOperand::Boolean(b) => ConditionalStep::Conditional(
            if b {
                ConditionalState::RunBlock
            } else {
                ConditionalState::IgnoreBlock
            },
            None,
        ),
        _ => ConditionalStep::NotBoolean,
    }
}

/// What a conditional in state `state`, with the taken branch's block
/// `result`, becomes when `right` follows it.
pub open spec fn spec_conditional_step<B>(
    state: ConditionalState,
    result: Option<B>,
    right: ConditionalOperand<B>,
) -> ConditionalStep<B> {
    match state {
        ConditionalState::IfCondition => match right {
            ConditionalOperand::If | ConditionalOperand::Else => ConditionalStep::Error(
                ErrorCode::IfWithoutCondition,
                ExpressionErrorPosition::LeftRight,
            ),
            ConditionalOperand::Boolean(b) => ConditionalStep::Conditional(
                if result is None && b {
                    ConditionalState::RunBlock
                } else {
                    ConditionalState::IgnoreBlock
                },
                result,
            ),
            _ => ConditionalStep::NotBoolean,
        },
        ConditionalState::RunBlock => match right {
            ConditionalOperand::Block(block) => ConditionalStep::Conditional(ConditionalState::MaybeElse, Some(block)),
            _ => ConditionalStep::Error(ErrorCode::IfBlockMustBeBlock, ExpressionErrorPosition::Right),
        },
        ConditionalState::IgnoreBlock => match right {
            ConditionalOperand::Block(_) => ConditionalStep::Conditional(ConditionalState::MaybeElse, result),
            _ => ConditionalStep::Error(ErrorCode::IfBlockMustBeBlock, ExpressionErrorPosition::Right),
        },
        ConditionalState::ElseBlock => match right {
            ConditionalOperand::If => ConditionalStep::Conditional(ConditionalState::IfCondition, result),
            ConditionalOperand::Block(block) => match result {
                None => ConditionalStep::Result(block),
                Some(taken) => ConditionalStep::Result(taken),
            },
            _ => ConditionalStep::Error(ErrorCode::ElseBlockMustBeBlock, ExpressionErrorPosition::Right),
        },
        ConditionalState::MaybeElse => match right {
            ConditionalOperand::Else => ConditionalStep::Conditional(ConditionalState::ElseBlock, result),
            _ => ConditionalStep::Error(ErrorCode::IfFollowedByNonElse, ExpressionErrorPosition::Right),
        },
    }
}

/// `if` followed by `right`: a condition must come (its truth decides
/// whether the next block runs); another `if` or an `else` is an error.
pub fn if_step<B>(right: ConditionalOperand<B>) -> (r: ConditionalStep<B>)
    ensures
        r == spec_if_step(right),
{
    match right {
        ConditionalOperand::If | ConditionalOperand::Else => ConditionalStep::Error(
            ErrorCode::IfWithoutCondition,
            ExpressionErrorPosition::Left,
        ),
        ConditionalOperand::Boolean(b) => ConditionalStep::Conditional(
            if b {
                ConditionalState::RunBlock
            } else {
                ConditionalState::IgnoreBlock
            },
            None,
        ),
        _ => ConditionalStep::NotBoolean,
    }
}

/// A conditional followed by `right`. Only the first branch whose
/// condition holds runs (`result` is its block); after `else` the else
/// block, or another `if`, follows; the conditional's value is the taken
/// branch's block, or the else block when none was taken.
pub fn conditional_step<B>(state: ConditionalState, result: Option<B>, right: ConditionalOperand<B>) -> (r: ConditionalStep<B>)
    requires
        state == ConditionalState::RunBlock ==> result is None,
    ensures
        r == spec_conditional_step(state, result, right),
{
    match state {
        ConditionalState::IfCondition => match right {
            ConditionalOperand::If | ConditionalOperand::Else => ConditionalStep::Error(
                ErrorCode::IfWithoutCondition,
                ExpressionErrorPosition::LeftRight,
            ),
            ConditionalOperand::Boolean(b) => {
                let next = if result.is_none() && b {
                    ConditionalState::RunBlock
                } else {
                    ConditionalState::IgnoreBlock
                };
                ConditionalStep::Conditional(next, result)
            },
            _ => ConditionalStep::NotBoolean,
        },
        ConditionalState::RunBlock => match right {
            ConditionalOperand::Block(block) => ConditionalStep::Conditional(ConditionalState::MaybeElse, Some(block)),
            _ => ConditionalStep::Error(ErrorCode::IfBlockMustBeBlock, ExpressionErrorPosition::Right),
        },
        ConditionalState::IgnoreBlock => match right {
            ConditionalOperand::Block(_) => ConditionalStep::Conditional(ConditionalState::MaybeElse, result),
            _ => ConditionalStep::Error(ErrorCode::IfBlockMustBeBlock, ExpressionErrorPosition::Right),
        },
        ConditionalState::ElseBlock => match right {
            ConditionalOperand::If => ConditionalStep::Conditional(ConditionalState::IfCondition, result),
            ConditionalOperand::Block(block) => match result {
                None => ConditionalStep::Result(block),
                Some(taken) => ConditionalStep::Result(taken),
            },
            _ => ConditionalStep::Error(ErrorCode::ElseBlockMustBeBlock, ExpressionErrorPosition::Right),
        },
        ConditionalState::MaybeElse => match right {
            ConditionalOperand::Else => ConditionalStep::Conditional(ConditionalState::ElseBlock, result),
            _ => ConditionalStep::Error(ErrorCode::IfFollowedByNonElse, ExpressionErrorPosition::Right),
        },
    }
}

/// At most one branch runs: once a branch was taken, no later condition
/// selects another block to run, and the conditional's value is the taken
/// branch's block.
pub proof fn law_one_branch_runs<B>(state: ConditionalState, taken: B, right: ConditionalOperand<B>)
    requires
        state != ConditionalState::RunBlock,
    ensures
        spec_conditional_step(state, Some(taken), right) matches ConditionalStep::Conditional(s, r) ==> s
            != ConditionalState::RunBlock && r == Some(taken),
        spec_conditional_step(state, Some(taken), right) matches ConditionalStep::Result(v) ==> v == taken,
{
}

/// A condition selects its block exactly when it holds: after `if` (at the
/// start or after `else`), a true condition leads to running the next block
/// unless an earlier branch was taken, and a false one always leads to
/// skipping it. The taken branch stays as it was.
pub proof fn law_condition_selects_block<B>(result: Option<B>, b: bool)
    ensures
        spec_if_step::<B>(ConditionalOperand::Boolean(b)) == ConditionalStep::<B>::Conditional(
            if b { ConditionalState::RunBlock } else { ConditionalState::IgnoreBlock },
            None,
        ),
        spec_conditional_step(ConditionalState::IfCondition, result, ConditionalOperand::Boolean(b)) matches ConditionalStep::Conditional(s, r)
            && r == result && (s == ConditionalState::RunBlock <==> (b && result is None))
            && (s == ConditionalState::RunBlock || s == ConditionalState::IgnoreBlock),
        !b ==> spec_conditional_step(ConditionalState::IfCondition, result, ConditionalOperand::Boolean(b))
            == ConditionalStep::Conditional(ConditionalState::IgnoreBlock, result),
{
}

/// Only a run block becomes the taken branch: a skipped block leaves the
/// taken branch as it was, and a run block (reached only when none was
/// taken) becomes it.
pub proof fn law_only_run_blocks_are_taken<B>(result: Option<B>, block: B)
    ensures
        spec_conditional_step(ConditionalState::IgnoreBlock, result, ConditionalOperand::Block(block))
            == ConditionalStep::Conditional(ConditionalState::MaybeElse, result),
        spec_conditional_step(ConditionalState::RunBlock, None::<B>, ConditionalOperand::Block(block))
            == ConditionalStep::Conditional(ConditionalState::MaybeElse, Some(block)),
{
}

/// The value of a finished conditional: the else block when no branch was
/// taken, and the taken branch's block otherwise (the else block is then
/// not the value).
pub proof fn law_else_is_the_fallback<B>(result: Option<B>, block: B)
    ensures
        spec_conditional_step(ConditionalState::ElseBlock, result, ConditionalOperand::Block(block))
            == ConditionalStep::Result(
            match result {
                Some(taken) => taken,
                None => block,
            },
        ),
{
}

/// A run over a whole chain `if c1 {b1} else if c2 {b2} ... else {e}`:
/// the branches' conditions and blocks in order, then the else block.
/// With every condition false, the conditional's value is the else block.
pub open spec fn run_chain<B>(state: ConditionalState, result: Option<B>, operands: Seq<ConditionalOperand<B>>) -> ConditionalStep<B>
    decreases operands.len(),
{
    if operands.len() == 0 {
        ConditionalStep::Conditional(state, result)
    } else {
        match spec_conditional_step(state, result, operands[0]) {
            ConditionalStep::Conditional(s, r) => run_chain(s, r, operands.drop_first()),
            other => other,
        }
    }
}

/// The operands that follow `if false` in `if false {b0} else if false
/// {b1} ... else {e}`: each branch's block, `else`, `if`, a false
/// condition, and finally `else` and the else block.
pub open spec fn false_chain_tail<B>(blocks: Seq<B>, last: B, e: B) -> Seq<ConditionalOperand<B>>
    decreases blocks.len(),
{
    if blocks.len() == 0 {
        seq![ConditionalOperand::Block(last), ConditionalOperand::Else, ConditionalOperand::Block(e)]
    } else {
        seq![
            ConditionalOperand::Block(blocks[0]),
            ConditionalOperand::Else,
            ConditionalOperand::If,
            ConditionalOperand::Boolean(false),
        ] + false_chain_tail(blocks.drop_first(), last, e)
    }
}

/// When every condition of a chain is false, no branch runs and the
/// conditional's value is the else block.
pub proof fn law_all_false_gives_else<B>(blocks: Seq<B>, last: B, e: B)
    ensures
        spec_if_step::<B>(ConditionalOperand::Boolean(false)) == ConditionalStep::<B>::Conditional(ConditionalState::IgnoreBlock, None),
        run_chain(ConditionalState::IgnoreBlock, None, false_chain_tail(blocks, last, e)) == ConditionalStep::Result(e),
    decreases blocks.len(),
{
    let t = false_chain_tail(blocks, last, e);
    let t1 = t.drop_first();
    let t2 = t1.drop_first();
    if blocks.len() == 0 {
        assert(t1 =~= seq![ConditionalOperand::Else, ConditionalOperand::Block(e)]);
        assert(t2 =~= seq![ConditionalOperand::Block(e)]);
        assert(run_chain(ConditionalState::ElseBlock, None, t2) == ConditionalStep::Result(e));
        assert(run_chain(ConditionalState::MaybeElse, None, t1) == run_chain(ConditionalState::ElseBlock, None, t2));
    } else {
        let rest = false_chain_tail(blocks.drop_first(), last, e);
        law_all_false_gives_else(blocks.drop_first(), last, e);
        let t3 = t2.drop_first();
        let t4 = t3.drop_first();
        assert(t1 =~= seq![ConditionalOperand::Else, ConditionalOperand::If, ConditionalOperand::Boolean(false)] + rest);
        assert(t2 =~= seq![ConditionalOperand::If, ConditionalOperand::Boolean(false)] + rest);
        assert(t3 =~= seq![ConditionalOperand::Boolean(false)] + rest);
        assert(t4 =~= rest);
        assert(run_chain(ConditionalState::IfCondition, None, t3) == run_chain(ConditionalState::IgnoreBlock, None, t4));
        assert(run_chain(ConditionalState::ElseBlock, None, t2) == run_chain(ConditionalState::IfCondition, None, t3));
        assert(run_chain(ConditionalState::MaybeElse, None, t1) == run_chain(ConditionalState::ElseBlock, None, t2));
    }
    assert(run_chain(ConditionalState::IgnoreBlock, None, t) == run_chain(ConditionalState::MaybeElse, None, t1));
}

} // verus!
