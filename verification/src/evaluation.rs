//! Lazy evaluation of blocks: each block of a parsed source is evaluated at
//! most once, when its result or one of its fields is first asked for, and
//! asking for a block's result while that block is still being evaluated is
//! a circular dependency. Blocks live in an arena and refer to their parent
//! block by its position there; a field is looked up in the innermost block
//! whose scope holds it, and the root scope holds the keywords.
use crate::ast::Ast;
use crate::block::{AstBlock, FieldError, spec_public_field};
use crate::error_code::ErrorCode;
use crate::fixity::Fixity;
use crate::identifiers::{APPLY, IdentifierIndex, NEWLINE_SEQUENCE};
use crate::indices::{AstIndex, BlockIndex, FieldIndex, LiteralIndex, RawLiteralIndex};
use crate::navigation::{
    fix, has_right, inner_root, left_operand_root, open_matched, right_operand_root, spec_inner_root,
    spec_left_operand_root, spec_right_operand_root, tree_wf,
};
use crate::token::{ExpressionBoundary, ExpressionBoundaryError, ExpressionToken, OperatorToken, Token};
use vstd::prelude::*;

verus! {

/// Where a block stands in its evaluation.
pub enum BlockState<V> {
    /// Not evaluated yet.
    Ready,
    /// Being evaluated.
    Running,
    /// Its result is lent out to produce the next value of a sequence.
    InNextVal,
    /// Evaluated, with this result.
    Complete(V),
}

/// What a field of a running or evaluated block holds.
pub enum BlockFieldValue<V> {
    NotDeclared,
    NotSet,
    Val(V),
}

/// What a field lookup found: a value held by a block, or a field of the
/// root scope (a keyword), named by its index.
pub enum FieldValue<V> {
    Value(V),
    Root(FieldIndex),
}

/// Why reading or writing a block's field or result failed.
#[derive(Debug, Copy, Clone, PartialEq, Eq, Structural)]
pub enum EvalError {
    /// The result of the block (by its position in the arena) was asked for
    /// while the block was being evaluated.
    CircularDependency(usize),
    NoSuchField(FieldIndex),
    FieldNotSet(FieldIndex),
    NoSuchPublicField(usize, IdentifierIndex),
    PrivateField(usize, IdentifierIndex),
    ImmutableFieldOnRoot(FieldIndex),
}

/// What evaluating the expression rooted at a token comes down to: a value
/// read from the token itself, a syntax error to throw, a child block to
/// create, or an operator to apply to the roots of its operands.
#[derive(Debug, Copy, Clone, PartialEq, Eq, Structural)]
pub enum EvalStep {
    IntegerLiteral(LiteralIndex),
    LocalFieldReference(FieldIndex),
    RawIdentifier(IdentifierIndex),
    MissingExpression,
    ErrorTerm(ErrorCode, LiteralIndex),
    RawErrorTerm(ErrorCode, RawLiteralIndex),
    BoundaryError(ExpressionBoundaryError),
    /// A block, run in a child block of the current one.
    ChildBlock { expression: AstIndex, index: BlockIndex },
    /// A group that is no block: the expression inside it, whose result is
    /// checked as a subexpression where the group is user syntax.
    Inner { boundary: ExpressionBoundary, inner: AstIndex, required: bool },
    Prefix { operator: IdentifierIndex, operand: AstIndex },
    Postfix { operator: IdentifierIndex, operand: AstIndex },
    Infix { operator: IdentifierIndex, left: AstIndex, right: AstIndex },
    InfixAssignment { operator: IdentifierIndex, left: AstIndex, right: AstIndex },
    /// A call: the left operand applied to what the right operand holds.
    Apply { left: AstIndex, right: AstIndex },
}

/// The evaluation step of the expression rooted at token `root`.
pub open spec fn spec_eval_step(toks: Seq<Token>, root: int) -> EvalStep {
    match toks[root] {
        Token::Expression(t) => match t {
            ExpressionToken::IntegerLiteral(literal) => EvalStep::IntegerLiteral(literal),
            ExpressionToken::FieldReference(field) => EvalStep::LocalFieldReference(field),
            ExpressionToken::RawIdentifier(name) => EvalStep::RawIdentifier(name),
            ExpressionToken::MissingExpression => EvalStep::MissingExpression,
            ExpressionToken::ErrorTerm(code, literal) => EvalStep::ErrorTerm(code, literal),
            ExpressionToken::RawErrorTerm(code, literal) => EvalStep::RawErrorTerm(code, literal),
            ExpressionToken::PrefixOperator(operator) => EvalStep::Prefix {
                operator,
                operand: spec_right_operand_root(toks, root) as usize,
            },
            ExpressionToken::Open { boundary, error, .. } => match error {
                Some(e) => EvalStep::BoundaryError(e),
                None => EvalStep::Inner {
                    boundary,
                    inner: spec_inner_root(toks, root) as usize,
                    required: crate::token::spec_is_required(boundary),
                },
            },
            ExpressionToken::OpenBlock { index, error, .. } => match error {
                Some(e) => EvalStep::BoundaryError(e),
                None => EvalStep::ChildBlock { expression: root as usize, index },
            },
        },
        Token::Operator(t) => match t {
            OperatorToken::InfixOperator(operator) => if operator.0 == APPLY {
                EvalStep::Apply {
                    left: spec_left_operand_root(toks, root) as usize,
                    right: spec_inner_root(toks, spec_right_operand_root(toks, root)) as usize,
                }
            } else {
                EvalStep::Infix {
                    operator,
                    left: spec_left_operand_root(toks, root) as usize,
                    right: spec_right_operand_root(toks, root) as usize,
                }
            },
            OperatorToken::NewlineSequence => EvalStep::Infix {
                operator: IdentifierIndex(NEWLINE_SEQUENCE),
                left: spec_left_operand_root(toks, root) as usize,
                right: spec_right_operand_root(toks, root) as usize,
            },
            OperatorToken::InfixAssignment(operator) => EvalStep::InfixAssignment {
                operator,
                left: spec_left_operand_root(toks, root) as usize,
                right: spec_right_operand_root(toks, root) as usize,
            },
            OperatorToken::Apply => EvalStep::Apply {
                left: spec_left_operand_root(toks, root) as usize,
                right: spec_inner_root(toks, spec_right_operand_root(toks, root)) as usize,
            },
            OperatorToken::PostfixOperator(operator) => EvalStep::Postfix {
                operator,
                operand: spec_left_operand_root(toks, root) as usize,
            },
            OperatorToken::Close { .. } | OperatorToken::CloseBlock { .. } => EvalStep::MissingExpression,
        },
    }
}

/// The evaluation step of the expression rooted at token `root` of `ast`
/// (an expression is rooted at an open token, never at a close token).
pub fn eval_step(ast: &Ast, root: AstIndex) -> (s: EvalStep)
    requires
        tree_wf(ast.tokens@),
        root < ast.tokens@.len(),
        fix(ast.tokens@[root as int]) != Fixity::Close,
    ensures
        s == spec_eval_step(ast.tokens@, root as int),
{
    let ghost toks = ast.tokens@;
    proof {
        assert(open_matched(toks, root as int));
        if root == 0 {
            assert(!crate::navigation::has_left(toks[0]));
        }
    }
    match ast.tokens[root] {
        Token::Expression(t) => match t {
            ExpressionToken::IntegerLiteral(literal) => EvalStep::IntegerLiteral(literal),
            ExpressionToken::FieldReference(field) => EvalStep::LocalFieldReference(field),
            ExpressionToken::RawIdentifier(name) => EvalStep::RawIdentifier(name),
            ExpressionToken::MissingExpression => EvalStep::MissingExpression,
            ExpressionToken::ErrorTerm(code, literal) => EvalStep::ErrorTerm(code, literal),
            ExpressionToken::RawErrorTerm(code, literal) => EvalStep::RawErrorTerm(code, literal),
            ExpressionToken::PrefixOperator(operator) => EvalStep::Prefix {
                operator,
                operand: right_operand_root(ast, root),
            },
            ExpressionToken::Open { boundary, error, .. } => match error {
                Some(e) => EvalStep::BoundaryError(e),
                None => EvalStep::Inner { boundary, inner: inner_root(ast, root), required: boundary.is_required() },
            },
            ExpressionToken::OpenBlock { index, error, .. } => match error {
                Some(e) => EvalStep::BoundaryError(e),
                None => EvalStep::ChildBlock { expression: root, index },
            },
        },
        Token::Operator(t) => match t {
            OperatorToken::InfixOperator(operator) => {
                let left = left_operand_root(ast, root);
                let right = right_operand_root(ast, root);
                if operator.0 == APPLY {
                    proof {
                        assert(open_matched(toks, right as int));
                    }
                    EvalStep::Apply { left, right: inner_root(ast, right) }
                } else {
                    EvalStep::Infix { operator, left, right }
                }
            },
            OperatorToken::NewlineSequence => EvalStep::Infix {
                operator: IdentifierIndex(NEWLINE_SEQUENCE),
                left: left_operand_root(ast, root),
                right: right_operand_root(ast, root),
            },
            OperatorToken::InfixAssignment(operator) => EvalStep::InfixAssignment {
                operator,
                left: left_operand_root(ast, root),
                right: right_operand_root(ast, root),
            },
            OperatorToken::Apply => {
                let left = left_operand_root(ast, root);
                let right = right_operand_root(ast, root);
                proof {
                    assert(open_matched(toks, right as int));
                }
                EvalStep::Apply { left, right: inner_root(ast, right) }
            },
            OperatorToken::PostfixOperator(operator) => EvalStep::Postfix {
                operator,
                operand: left_operand_root(ast, root),
            },
            OperatorToken::Close { .. } | OperatorToken::CloseBlock { .. } => EvalStep::MissingExpression,
        },
    }
}

/// The evaluation of one block: the expression it runs, the AST block whose
/// scope it has, its state, its field values (from the block's
/// `scope_start` on) and its parent block.
pub struct BlockData<V> {
    pub expression: AstIndex,
    pub index: BlockIndex,
    pub state: BlockState<V>,
    pub fields: Vec<BlockFieldValue<V>>,
    pub parent: Option<usize>,
}

/// The blocks of an evaluation, each referring to its parent by position.
pub struct Blocks<V> {
    pub blocks: Vec<BlockData<V>>,
}

/// The AST block of the source's root expression, when that expression is a
/// block.
pub open spec fn root_block(ast: &Ast) -> Option<BlockIndex> {
    if ast.tokens@.len() > 0 {
        match ast.tokens@[0] {
            Token::Expression(ExpressionToken::OpenBlock { index, .. }) => Some(index),
            _ => None,
        }
    } else {
        None
    }
}

/// The block (by position) whose scope holds field `index`, looking from
/// block `b` out through its parents; `None` for a field of the root scope.
pub open spec fn field_owner<V>(blocks: Seq<BlockData<V>>, ast_blocks: Seq<AstBlock>, b: int, index: int) -> Option<int>
    decreases b,
{
    if b < 0 || b >= blocks.len() {
        None
    } else if index >= ast_blocks[blocks[b].index as int].scope_start {
        Some(b)
    } else {
        match blocks[b].parent {
            Some(p) => if p < b {
                field_owner(blocks, ast_blocks, p as int, index)
            } else {
                None
            },
            None => None,
        }
    }
}

/// The block that holds a field is a block of the arena whose scope starts
/// at or before the field.
pub proof fn lemma_field_owner<V>(blocks: Seq<BlockData<V>>, ast_blocks: Seq<AstBlock>, b: int, index: int)
    ensures
        field_owner(blocks, ast_blocks, b, index) matches Some(o) ==> 0 <= o < blocks.len() && index
            >= ast_blocks[blocks[o].index as int].scope_start,
    decreases b,
{
    if 0 <= b < blocks.len() && index < ast_blocks[blocks[b].index as int].scope_start {
        if let Some(p) = blocks[b].parent {
            if p < b {
                lemma_field_owner(blocks, ast_blocks, p as int, index);
            }
        }
    }
}

/// Blocks that keep their AST blocks and parents hold each field in the
/// same block.
pub proof fn lemma_field_owner_frame<V>(old_blocks: Seq<BlockData<V>>, new_blocks: Seq<BlockData<V>>, ast_blocks: Seq<AstBlock>, b: int, index: int)
    requires
        new_blocks.len() == old_blocks.len(),
        forall|i: int| 0 <= i < old_blocks.len() ==> (#[trigger] new_blocks[i]).index == old_blocks[i].index
            && new_blocks[i].parent == old_blocks[i].parent,
    ensures
        field_owner(new_blocks, ast_blocks, b, index) == field_owner(old_blocks, ast_blocks, b, index),
    decreases b,
{
    if 0 <= b < old_blocks.len() {
        assert(new_blocks[b].index == old_blocks[b].index);
        if let Some(p) = old_blocks[b].parent {
            if p < b {
                lemma_field_owner_frame(old_blocks, new_blocks, ast_blocks, p as int, index);
            }
        }
    }
}

/// A field read after a write to it gives back the value written: when the
/// block that holds field `index` (seen from `b`) has had that field set to
/// `value`, with every block keeping its AST block and parent, reading the
/// field from `b` gives `value`.
pub proof fn law_read_after_write<V>(
    old_blocks: Seq<BlockData<V>>,
    new_blocks: Seq<BlockData<V>>,
    ast_blocks: Seq<AstBlock>,
    b: int,
    index: int,
    value: V,
)
    requires
        field_owner(old_blocks, ast_blocks, b, index) matches Some(o) && {
            let k = index - ast_blocks[old_blocks[o].index as int].scope_start;
            &&& k < old_blocks[o].fields@.len()
            &&& others_unchanged(old_blocks, new_blocks, o)
            &&& new_blocks[o].fields@ == old_blocks[o].fields@.update(k, BlockFieldValue::Val(value))
        },
    ensures
        spec_local_field(new_blocks, ast_blocks, b, index) == Ok::<FieldValue<V>, EvalError>(FieldValue::Value(value)),
{
    lemma_field_owner(old_blocks, ast_blocks, b, index);
    let o = field_owner(old_blocks, ast_blocks, b, index)->0;
    assert forall|i: int| 0 <= i < old_blocks.len() implies (#[trigger] new_blocks[i]).index == old_blocks[i].index
        && new_blocks[i].parent == old_blocks[i].parent by {
        if i != o {
            assert(new_blocks[i] == old_blocks[i]);
        }
    }
    lemma_field_owner_frame(old_blocks, new_blocks, ast_blocks, b, index);
}

/// A write to a field leaves every other field as it was: when the block
/// that holds field `index` (seen from `b`) has had that field set, a field
/// `other` read from any block `c` gives what it gave before, unless it is
/// the very slot that was written.
pub proof fn law_write_leaves_other_fields<V>(
    old_blocks: Seq<BlockData<V>>,
    new_blocks: Seq<BlockData<V>>,
    ast_blocks: Seq<AstBlock>,
    b: int,
    index: int,
    value: V,
    c: int,
    other: int,
)
    requires
        field_owner(old_blocks, ast_blocks, b, index) matches Some(o) && {
            let k = index - ast_blocks[old_blocks[o].index as int].scope_start;
            &&& k < old_blocks[o].fields@.len()
            &&& others_unchanged(old_blocks, new_blocks, o)
            &&& new_blocks[o].fields@ == old_blocks[o].fields@.update(k, BlockFieldValue::Val(value))
        },
        !(field_owner(old_blocks, ast_blocks, c, other) == field_owner(old_blocks, ast_blocks, b, index) && other == index),
    ensures
        spec_local_field(new_blocks, ast_blocks, c, other) == spec_local_field(old_blocks, ast_blocks, c, other),
{
    lemma_field_owner(old_blocks, ast_blocks, b, index);
    lemma_field_owner(old_blocks, ast_blocks, c, other);
    let o = field_owner(old_blocks, ast_blocks, b, index)->0;
    assert forall|i: int| 0 <= i < old_blocks.len() implies (#[trigger] new_blocks[i]).index == old_blocks[i].index
        && new_blocks[i].parent == old_blocks[i].parent by {
        if i != o {
            assert(new_blocks[i] == old_blocks[i]);
        }
    }
    lemma_field_owner_frame(old_blocks, new_blocks, ast_blocks, c, other);
    if let Some(p) = field_owner(old_blocks, ast_blocks, c, other) {
        if p != o {
            assert(new_blocks[p] == old_blocks[p]);
        }
    }
}

/// What field `index`, seen from block `b`, holds.
pub open spec fn spec_local_field<V>(blocks: Seq<BlockData<V>>, ast_blocks: Seq<AstBlock>, b: int, index: int) -> Result<FieldValue<V>, EvalError> {
    match field_owner(blocks, ast_blocks, b, index) {
        None => Ok(FieldValue::Root(index as usize)),
        Some(o) => {
            let k = index - ast_blocks[blocks[o].index as int].scope_start;
            if k < blocks[o].fields@.len() {
                match blocks[o].fields@[k] {
                    BlockFieldValue::Val(v) => Ok(FieldValue::Value(v)),
                    BlockFieldValue::NotSet => Err(EvalError::FieldNotSet(index as usize)),
                    BlockFieldValue::NotDeclared => Err(EvalError::NoSuchField(index as usize)),
                }
            } else {
                Err(EvalError::NoSuchField(index as usize))
            }
        },
    }
}

/// What starting the evaluation of block `b` in state `state` gives: a
/// circular dependency while it is being evaluated or lends out its result,
/// `false` (nothing to do) once evaluated, `true` (run it now) when ready.
pub open spec fn start_result<V>(state: BlockState<V>, b: usize) -> Result<bool, EvalError> {
    match state {
        BlockState::Running | BlockState::InNextVal => Err(EvalError::CircularDependency(b)),
        BlockState::Complete(_) => Ok(false),
        BlockState::Ready => Ok(true),
    }
}

/// A block is evaluated at most once: starting a block that was just
/// started (and so is running) reports a circular dependency, and starting
/// a block whose evaluation finished, with whatever result, does nothing.
pub proof fn law_evaluated_at_most_once<V>(state: BlockState<V>, result: V, b: usize)
    requires
        start_result(state, b) == Ok::<bool, EvalError>(true),
    ensures
        start_result(BlockState::<V>::Running, b) == Err::<bool, EvalError>(EvalError::CircularDependency(b)),
        start_result(BlockState::Complete(result), b) == Ok::<bool, EvalError>(false),
{
}

/// Block `b` and every other block keep everything but what the clause
/// after it says.
pub open spec fn others_unchanged<V>(old_blocks: Seq<BlockData<V>>, new_blocks: Seq<BlockData<V>>, b: int) -> bool {
    &&& new_blocks.len() == old_blocks.len()
    &&& forall|i: int| 0 <= i < old_blocks.len() && i != b ==> #[trigger] new_blocks[i] == old_blocks[i]
    &&& new_blocks[b].expression == old_blocks[b].expression
    &&& new_blocks[b].index == old_blocks[b].index
    &&& new_blocks[b].parent == old_blocks[b].parent
}

/// The public field `name` of block `b` itself, by its index: fields of its
/// child blocks do not count.
pub open spec fn spec_public_field_of<V>(blocks: Seq<BlockData<V>>, ast: &Ast, b: int, name: IdentifierIndex) -> Result<FieldIndex, FieldError> {
    let index = blocks[b].index;
    let ast_block = ast.blocks@[index as int];
    spec_public_field(
        ast.blocks@,
        ast.fields@,
        index + 1,
        ast_block.scope_start as int,
        ast_block.scope_start + ast_block.scope_count,
        name,
    )
}

/// The public field `name` of block `b` itself: found among the fields of
/// its AST block (not those of child blocks), then read as seen from `b`.
pub open spec fn spec_own_field<V>(blocks: Seq<BlockData<V>>, ast: &Ast, b: int, name: IdentifierIndex) -> Result<FieldValue<V>, EvalError> {
    let index = blocks[b].index;
    let ast_block = ast.blocks@[index as int];
    match spec_public_field(
        ast.blocks@,
        ast.fields@,
        index + 1,
        ast_block.scope_start as int,
        ast_block.scope_start + ast_block.scope_count,
        name,
    ) {
        Ok(field) => spec_local_field(blocks, ast.blocks@, b, field as int),
        Err(FieldError::NoSuchPublicField) => Err(EvalError::NoSuchPublicField(b as usize, name)),
        Err(FieldError::PrivateField) => Err(EvalError::PrivateField(b as usize, name)),
    }
}

impl<V: Copy> Blocks<V> {
    /// Every block has an AST block and an earlier parent, a block that has
    /// not started holds no field values, and the scopes of the AST blocks
    /// lie within its fields.
    pub open spec fn wf(&self, ast: &Ast) -> bool {
        &&& forall|b: int| 0 <= b < self.blocks@.len() ==> (#[trigger] self.blocks@[b]).index < ast.blocks@.len()
        &&& forall|b: int| 0 <= b < self.blocks@.len() ==> match (#[trigger] self.blocks@[b]).parent {
            Some(p) => p < b,
            None => true,
        }
        &&& forall|b: int| 0 <= b < self.blocks@.len() ==> ((#[trigger] self.blocks@[b]).state is Ready ==> self.blocks@[b].fields@.len() == 0)
        &&& forall|i: int| 0 <= i < ast.blocks@.len() ==> (#[trigger] ast.blocks@[i]).scope_start + ast.blocks@[i].scope_count
            <= ast.fields@.len()
    }

    /// The evaluation of a parsed source: one block, for the root
    /// expression, ready to run, with no parent but the root scope.
    pub fn from_ast(ast: &Ast) -> (r: Blocks<V>)
        requires
            root_block(ast) matches Some(i) && i < ast.blocks@.len(),
            forall|i: int| 0 <= i < ast.blocks@.len() ==> (#[trigger] ast.blocks@[i]).scope_start + ast.blocks@[i].scope_count
                <= ast.fields@.len(),
        ensures
            r.wf(ast),
            r.blocks@.len() == 1,
            r.blocks@[0].expression == 0,
            Some(r.blocks@[0].index) == root_block(ast),
            r.blocks@[0].state is Ready,
            r.blocks@[0].fields@.len() == 0,
            r.blocks@[0].parent is None,
    {
        let index = match ast.tokens[0] {
            Token::Expression(ExpressionToken::OpenBlock { index, .. }) => index,
            _ => 0,
        };
        let mut blocks: Vec<BlockData<V>> = Vec::new();
        blocks.push(BlockData { expression: 0, index, state: BlockState::Ready, fields: Vec::new(), parent: None });
        Blocks { blocks }
    }

    /// Adds a block that runs `expression` in the scope of AST block `index`,
    /// inside block `parent`; returns its position.
    pub fn create_child_block(&mut self, ast: &Ast, parent: usize, expression: AstIndex, index: BlockIndex) -> (b: usize)
        requires
            old(self).wf(ast),
            parent < old(self).blocks@.len(),
            index < ast.blocks@.len(),
            old(self).blocks@.len() < usize::MAX,
        ensures
            final(self).wf(ast),
            b == old(self).blocks@.len(),
            final(self).blocks@.len() == b + 1,
            final(self).blocks@.take(b as int) == old(self).blocks@,
            final(self).blocks@[b as int].expression == expression,
            final(self).blocks@[b as int].index == index,
            final(self).blocks@[b as int].state is Ready,
            final(self).blocks@[b as int].fields@.len() == 0,
            final(self).blocks@[b as int].parent == Some(parent),
    {
        let b = self.blocks.len();
        self.blocks.push(BlockData { expression, index, state: BlockState::Ready, fields: Vec::new(), parent: Some(parent) });
        proof {
            assert(final(self).blocks@.take(b as int) =~= old(self).blocks@);
        }
        b
    }

    /// The first step of evaluating block `b` on demand: a block being
    /// evaluated (or lending out its result) is a circular dependency, an
    /// evaluated block is left alone (`Ok(false)`), and a ready block starts
    /// running with each field of its scope not declared yet (`Ok(true)`: the
    /// caller now evaluates its expression and hands the result to
    /// `finish_evaluation`).
    pub fn start_evaluation(&mut self, ast: &Ast, b: usize) -> (r: Result<bool, EvalError>)
        requires
            old(self).wf(ast),
            b < old(self).blocks@.len(),
        ensures
            final(self).wf(ast),
            r == start_result(old(self).blocks@[b as int].state, b),
            match old(self).blocks@[b as int].state {
                BlockState::Running | BlockState::InNextVal => final(self).blocks@ == old(self).blocks@,
                BlockState::Complete(_) => final(self).blocks@ == old(self).blocks@,
                BlockState::Ready => {
                    &&& others_unchanged(old(self).blocks@, final(self).blocks@, b as int)
                    &&& final(self).blocks@[b as int].state is Running
                    &&& final(self).blocks@[b as int].fields@ == Seq::new(
                        ast.blocks@[old(self).blocks@[b as int].index as int].scope_count as nat,
                        |i: int| BlockFieldValue::<V>::NotDeclared,
                    )
                },
            },
    {
        match self.blocks[b].state {
            BlockState::Running | BlockState::InNextVal => {
                return Err(EvalError::CircularDependency(b));
            },
            BlockState::Complete(_) => {
                return Ok(false);
            },
            BlockState::Ready => {},
        }
        let count = ast.blocks[self.blocks[b].index].scope_count;
        let mut fields: Vec<BlockFieldValue<V>> = Vec::new();
        while fields.len() < count
            invariant
                fields@.len() <= count,
                forall|i: int| 0 <= i < fields@.len() ==> (#[trigger] fields@[i]) is NotDeclared,
            decreases count - fields@.len(),
        {
            fields.push(BlockFieldValue::NotDeclared);
        }
        let data = self.blocks.remove(b);
        let running = BlockData {
            expression: data.expression,
            index: data.index,
            state: BlockState::Running,
            fields,
            parent: data.parent,
        };
        self.blocks.insert(b, running);
        proof {
            assert(final(self).blocks@[b as int].fields@ =~= Seq::new(count as nat, |i: int| BlockFieldValue::<V>::NotDeclared));
            assert forall|i: int| 0 <= i < old(self).blocks@.len() && i != b implies #[trigger] final(self).blocks@[i]
                == old(self).blocks@[i] by {
                if i < b {
                } else {
                }
            }
        }
        Ok(true)
    }

    /// The last step of evaluating block `b`: it is evaluated, with `result`.
    pub fn finish_evaluation(&mut self, ast: &Ast, b: usize, result: V)
        requires
            old(self).wf(ast),
            b < old(self).blocks@.len(),
        ensures
            final(self).wf(ast),
            others_unchanged(old(self).blocks@, final(self).blocks@, b as int),
            final(self).blocks@[b as int].fields@ == old(self).blocks@[b as int].fields@,
            final(self).blocks@[b as int].state == BlockState::Complete(result),
    {
        self.set_state(ast, b, BlockState::Complete(result));
    }

    /// Block `b` takes state `state`, keeping the rest.
    fn set_state(&mut self, ast: &Ast, b: usize, state: BlockState<V>)
        requires
            old(self).wf(ast),
            b < old(self).blocks@.len(),
            state is Ready ==> old(self).blocks@[b as int].fields@.len() == 0,
        ensures
            final(self).wf(ast),
            others_unchanged(old(self).blocks@, final(self).blocks@, b as int),
            final(self).blocks@[b as int].fields@ == old(self).blocks@[b as int].fields@,
            final(self).blocks@[b as int].state == state,
    {
        let data = self.blocks.remove(b);
        let updated = BlockData {
            expression: data.expression,
            index: data.index,
            state,
            fields: data.fields,
            parent: data.parent,
        };
        self.blocks.insert(b, updated);
        proof {
            assert forall|i: int| 0 <= i < old(self).blocks@.len() && i != b implies #[trigger] final(self).blocks@[i]
                == old(self).blocks@[i] by {
                if i < b {
                } else {
                }
            }
        }
    }

    /// The result of block `b`, once its evaluation has started: a block
    /// still being evaluated, or lending out its result, is a circular
    /// dependency.
    pub fn result(&self, b: usize) -> (r: Result<V, EvalError>)
        requires
            b < self.blocks@.len(),
            !(self.blocks@[b as int].state is Ready),
        ensures
            match self.blocks@[b as int].state {
                BlockState::Complete(v) => r == Ok::<V, EvalError>(v),
                _ => r == Err::<V, EvalError>(EvalError::CircularDependency(b)),
            },
    {
        match self.blocks[b].state {
            BlockState::Complete(v) => Ok(v),
            _ => Err(EvalError::CircularDependency(b)),
        }
    }

    /// Takes the result of evaluated block `b` out, leaving `replace_with` in
    /// its place; a block still being evaluated, or lending out its result,
    /// is a circular dependency and is left alone.
    pub fn take_result(&mut self, ast: &Ast, b: usize, replace_with: BlockState<V>) -> (r: Result<V, EvalError>)
        requires
            old(self).wf(ast),
            b < old(self).blocks@.len(),
            !(old(self).blocks@[b as int].state is Ready),
            !(replace_with is Ready),
        ensures
            final(self).wf(ast),
            match old(self).blocks@[b as int].state {
                BlockState::Complete(v) => {
                    &&& r == Ok::<V, EvalError>(v)
                    &&& others_unchanged(old(self).blocks@, final(self).blocks@, b as int)
                    &&& final(self).blocks@[b as int].fields@ == old(self).blocks@[b as int].fields@
                    &&& final(self).blocks@[b as int].state == replace_with
                },
                _ => r == Err::<V, EvalError>(EvalError::CircularDependency(b)) && final(self).blocks@ == old(self).blocks@,
            },
    {
        match self.blocks[b].state {
            BlockState::Complete(v) => {
                self.set_state(ast, b, replace_with);
                Ok(v)
            },
            _ => Err(EvalError::CircularDependency(b)),
        }
    }

    /// Gives block `b`, whose result was lent out, its next result.
    pub fn replace_result(&mut self, ast: &Ast, b: usize, result: V)
        requires
            old(self).wf(ast),
            b < old(self).blocks@.len(),
            old(self).blocks@[b as int].state is InNextVal,
        ensures
            final(self).wf(ast),
            others_unchanged(old(self).blocks@, final(self).blocks@, b as int),
            final(self).blocks@[b as int].fields@ == old(self).blocks@[b as int].fields@,
            final(self).blocks@[b as int].state == BlockState::Complete(result),
    {
        self.set_state(ast, b, BlockState::Complete(result));
    }

    /// Block `b` seen from outside: field `name` of its result when the
    /// result has such a public field (`inner`, what the result's own lookup
    /// found), else the block's own public field `name`.
    pub fn field(&self, ast: &Ast, b: usize, name: IdentifierIndex, inner: Option<V>) -> (r: Result<FieldValue<V>, EvalError>)
        requires
            self.wf(ast),
            b < self.blocks@.len(),
        ensures
            r == match inner {
                Some(v) => Ok(FieldValue::Value(v)),
                None => spec_own_field(self.blocks@, ast, b as int, name),
            },
    {
        match inner {
            Some(v) => Ok(FieldValue::Value(v)),
            None => self.own_field(ast, b, name),
        }
    }

    /// The public field `name` of block `b` itself (fields of its child
    /// blocks do not count).
    pub fn own_field(&self, ast: &Ast, b: usize, name: IdentifierIndex) -> (r: Result<FieldValue<V>, EvalError>)
        requires
            self.wf(ast),
            b < self.blocks@.len(),
        ensures
            r == spec_own_field(self.blocks@, ast, b as int, name),
    {
        let index = self.blocks[b].index;
        let ast_block = ast.blocks[index];
        let _fields = ast.fields.len();
        proof {
            assert forall|i: int| 0 <= i < ast.blocks@.len() implies (#[trigger] ast.blocks@[i]).scope_start
                + ast.blocks@[i].scope_count <= usize::MAX by {}
        }
        match ast_block.public_field_index(index, name, ast) {
            Ok(field) => self.local_field(ast, b, field),
            Err(FieldError::NoSuchPublicField) => Err(EvalError::NoSuchPublicField(b, name)),
            Err(FieldError::PrivateField) => Err(EvalError::PrivateField(b, name)),
        }
    }

    /// What field `index` holds, seen from block `b`: the innermost block
    /// whose scope holds it is asked, or else the root scope.
    pub fn local_field(&self, ast: &Ast, b: usize, index: FieldIndex) -> (r: Result<FieldValue<V>, EvalError>)
        requires
            self.wf(ast),
            b < self.blocks@.len(),
        ensures
            r == spec_local_field(self.blocks@, ast.blocks@, b as int, index as int),
    {
        proof {
            lemma_field_owner(self.blocks@, ast.blocks@, b as int, index as int);
        }
        match self.owner(ast, b, index) {
            None => Ok(FieldValue::Root(index)),
            Some(o) => {
                let k = index - ast.blocks[self.blocks[o].index].scope_start;
                if k < self.blocks[o].fields.len() {
                    match self.blocks[o].fields[k] {
                        BlockFieldValue::Val(v) => Ok(FieldValue::Value(v)),
                        BlockFieldValue::NotSet => Err(EvalError::FieldNotSet(index)),
                        BlockFieldValue::NotDeclared => Err(EvalError::NoSuchField(index)),
                    }
                } else {
                    Err(EvalError::NoSuchField(index))
                }
            },
        }
    }

    /// The block whose scope holds field `index`, looking from block `b`
    /// out through its parents.
    fn owner(&self, ast: &Ast, b: usize, index: FieldIndex) -> (r: Option<usize>)
        requires
            self.wf(ast),
            b < self.blocks@.len(),
        ensures
            r is None <==> field_owner(self.blocks@, ast.blocks@, b as int, index as int) is None,
            r matches Some(o) ==> field_owner(self.blocks@, ast.blocks@, b as int, index as int) == Some(o as int),
            r matches Some(o) ==> o < self.blocks@.len(),
    {
        let mut cur = b;
        loop
            invariant
                self.wf(ast),
                cur < self.blocks@.len(),
                field_owner(self.blocks@, ast.blocks@, cur as int, index as int) == field_owner(
                    self.blocks@,
                    ast.blocks@,
                    b as int,
                    index as int,
                ),
            decreases cur,
        {
            let data = &self.blocks[cur];
            if index >= ast.blocks[data.index].scope_start {
                return Some(cur);
            }
            match data.parent {
                Some(p) => {
                    cur = p;
                },
                None => {
                    return None;
                },
            }
        }
    }

    /// Sets field `index`, seen from block `b`, to `value` in the innermost
    /// block whose scope holds it; the fields of the root scope cannot be
    /// set.
    pub fn set_local_field(&mut self, ast: &Ast, b: usize, index: FieldIndex, value: V) -> (r: Result<(), EvalError>)
        requires
            old(self).wf(ast),
            b < old(self).blocks@.len(),
            field_owner(old(self).blocks@, ast.blocks@, b as int, index as int) matches Some(o) ==> index
                - ast.blocks@[old(self).blocks@[o].index as int].scope_start < old(self).blocks@[o].fields@.len(),
        ensures
            final(self).wf(ast),
            match field_owner(old(self).blocks@, ast.blocks@, b as int, index as int) {
                None => r == Err::<(), EvalError>(EvalError::ImmutableFieldOnRoot(index)) && final(self).blocks@ == old(
                    self,
                ).blocks@,
                Some(o) => {
                    &&& r == Ok::<(), EvalError>(())
                    &&& others_unchanged(old(self).blocks@, final(self).blocks@, o)
                    &&& final(self).blocks@[o].state == old(self).blocks@[o].state
                    &&& final(self).blocks@[o].fields@ == old(self).blocks@[o].fields@.update(
                        index - ast.blocks@[old(self).blocks@[o].index as int].scope_start,
                        BlockFieldValue::Val(value),
                    )
                },
            },
    {
        proof {
            lemma_field_owner(old(self).blocks@, ast.blocks@, b as int, index as int);
        }
        match self.owner(ast, b, index) {
            None => Err(EvalError::ImmutableFieldOnRoot(index)),
            Some(o) => {
                let k = index - ast.blocks[self.blocks[o].index].scope_start;
                let data = self.blocks.remove(o);
                let mut fields = data.fields;
                fields.set(k, BlockFieldValue::Val(value));
                let updated = BlockData {
                    expression: data.expression,
                    index: data.index,
                    state: data.state,
                    fields,
                    parent: data.parent,
                };
                self.blocks.insert(o, updated);
                proof {
                    assert forall|i: int| 0 <= i < old(self).blocks@.len() && i != o implies #[trigger] final(self).blocks@[i]
                        == old(self).blocks@[i] by {
                        if i < o {
                        } else {
                        }
                    }
                }
                Ok(())
            },
        }
    }
    /// Declares field `index`, seen from block `b`, in the innermost block
    /// whose scope holds it: a field not declared yet takes the block's next
    /// input value (`next`, or "not set" when the input has run out); a
    /// declared field keeps its value.
    pub fn declare_field(&mut self, ast: &Ast, b: usize, index: FieldIndex, next: Option<V>) -> (r: Result<(), EvalError>)
        requires
            old(self).wf(ast),
            b < old(self).blocks@.len(),
            field_owner(old(self).blocks@, ast.blocks@, b as int, index as int) matches Some(o) && index
                - ast.blocks@[old(self).blocks@[o].index as int].scope_start < old(self).blocks@[o].fields@.len(),
        ensures
            r == Ok::<(), EvalError>(()),
            final(self).wf(ast),
            field_owner(old(self).blocks@, ast.blocks@, b as int, index as int) matches Some(o) && {
                let k = index - ast.blocks@[old(self).blocks@[o].index as int].scope_start;
                if old(self).blocks@[o].fields@[k] is NotDeclared {
                    &&& others_unchanged(old(self).blocks@, final(self).blocks@, o)
                    &&& final(self).blocks@[o].state == old(self).blocks@[o].state
                    &&& final(self).blocks@[o].fields@ == old(self).blocks@[o].fields@.update(
                        k,
                        match next {
                            Some(v) => BlockFieldValue::Val(v),
                            None => BlockFieldValue::NotSet,
                        },
                    )
                } else {
                    final(self).blocks@ == old(self).blocks@
                }
            },
    {
        proof {
            lemma_field_owner(old(self).blocks@, ast.blocks@, b as int, index as int);
        }
        let o = match self.owner(ast, b, index) {
            Some(o) => o,
            None => {
                return Ok(());
            },
        };
        let k = index - ast.blocks[self.blocks[o].index].scope_start;
        match self.blocks[o].fields[k] {
            BlockFieldValue::NotDeclared => {},
            _ => {
                return Ok(());
            },
        }
        let value = match next {
            Some(v) => BlockFieldValue::Val(v),
            None => BlockFieldValue::NotSet,
        };
        let data = self.blocks.remove(o);
        let mut fields = data.fields;
        fields.set(k, value);
        let updated = BlockData {
            expression: data.expression,
            index: data.index,
            state: data.state,
            fields,
            parent: data.parent,
        };
        self.blocks.insert(o, updated);
        proof {
            assert forall|i: int| 0 <= i < old(self).blocks@.len() && i != o implies #[trigger] final(self).blocks@[i]
                == old(self).blocks@[i] by {
                if i < o {
                } else {
                }
            }
        }
        Ok(())
    }
    /// Sets the public field `name` of block `b` to `value`: a private or
    /// missing field is refused, and a field of the root scope cannot be
    /// set.
    pub fn set_field(&mut self, ast: &Ast, b: usize, name: IdentifierIndex, value: V) -> (r: Result<(), EvalError>)
        requires
            old(self).wf(ast),
            b < old(self).blocks@.len(),
            spec_public_field_of(old(self).blocks@, ast, b as int, name) matches Ok(f) ==> (field_owner(
                old(self).blocks@,
                ast.blocks@,
                b as int,
                f as int,
            ) matches Some(o) ==> f - ast.blocks@[old(self).blocks@[o].index as int].scope_start
                < old(self).blocks@[o].fields@.len()),
        ensures
            final(self).wf(ast),
            match spec_public_field_of(old(self).blocks@, ast, b as int, name) {
                Err(FieldError::NoSuchPublicField) => r == Err::<(), EvalError>(EvalError::NoSuchPublicField(b, name))
                    && final(self).blocks@ == old(self).blocks@,
                Err(FieldError::PrivateField) => r == Err::<(), EvalError>(EvalError::PrivateField(b, name))
                    && final(self).blocks@ == old(self).blocks@,
                Ok(f) => match field_owner(old(self).blocks@, ast.blocks@, b as int, f as int) {
                    None => r == Err::<(), EvalError>(EvalError::ImmutableFieldOnRoot(f)) && final(self).blocks@ == old(
                        self,
                    ).blocks@,
                    Some(o) => {
                        &&& r == Ok::<(), EvalError>(())
                        &&& others_unchanged(old(self).blocks@, final(self).blocks@, o)
                        &&& final(self).blocks@[o].state == old(self).blocks@[o].state
                        &&& final(self).blocks@[o].fields@ == old(self).blocks@[o].fields@.update(
                            f - ast.blocks@[old(self).blocks@[o].index as int].scope_start,
                            BlockFieldValue::Val(value),
                        )
                    },
                },
            },
    {
        let index = self.blocks[b].index;
        let ast_block = ast.blocks[index];
        let _fields = ast.fields.len();
        proof {
            assert forall|i: int| 0 <= i < ast.blocks@.len() implies (#[trigger] ast.blocks@[i]).scope_start
                + ast.blocks@[i].scope_count <= usize::MAX by {}
        }
        match ast_block.public_field_index(index, name, ast) {
            Ok(field) => self.set_local_field(ast, b, field, value),
            Err(FieldError::NoSuchPublicField) => Err(EvalError::NoSuchPublicField(b, name)),
            Err(FieldError::PrivateField) => Err(EvalError::PrivateField(b, name)),
        }
    }
}

} // verus!
