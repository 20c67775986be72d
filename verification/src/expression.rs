//! A second form of navigable expression: the same navigation, with the
//! open and close tokens given as plain tokens.
use crate::ast::{Ast, OperandPosition};
use crate::fixity::Fixity;
use crate::indices::{AstIndex, ByteRange};
use crate::navigation::{
    close_matched, close_operator_index, depth, first_index, fix, has_right, inner_root, is_whole_tree,
    last_index, lemma_first_last_bounds, lemma_left_operand_root_bounds, lemma_parent_root, left_operand_root,
    open_matched, open_operator_index, parent_root, prev_index, right_operand_root, spec_close_operator_index,
    spec_depth, spec_first_index, spec_inner_root, spec_last_index, spec_left_operand_root,
    spec_open_operator_index, spec_parent_root, spec_right_operand_root, tree_wf,
};
use crate::expression_tree::{spec_boundary, spec_operand_position};
use crate::token::{ExpressionBoundary, ExpressionToken, Token};
use vstd::prelude::*;

verus! {

/// An expression of an AST, identified by its root token.
#[derive(Copy, Clone)]
pub struct AstExpression<'p> {
    pub ast: &'p Ast,
    pub root: AstIndex,
}

/// An expression together with a context value that navigation carries
/// along.
#[derive(Copy, Clone)]
pub struct Expression<'p, Context: Copy> {
    pub context: Context,
    pub expression: AstExpression<'p>,
}

impl<'p> AstExpression<'p> {
    /// The AST reads as a tree and the root is one of its tokens.
    pub open spec fn wf(&self) -> bool {
        &&& tree_wf(self.ast.tokens@)
        &&& self.root < self.ast.tokens@.len()
        &&& self.ast.tokens@.len() == self.ast.token_ranges@.len()
    }

    pub open spec fn toks(&self) -> Seq<Token> {
        self.ast.tokens@
    }

    pub fn new(ast: &'p Ast, root: AstIndex) -> (e: Self)
        ensures
            e.ast == ast,
            e.root == root,
    {
        AstExpression { ast, root }
    }

    pub fn ast(self) -> (a: &'p Ast)
        ensures
            a == self.ast,
    {
        self.ast
    }

    pub fn root_index(&self) -> (r: AstIndex)
        ensures
            r == self.root,
    {
        self.root
    }

    /// The source bytes the expression covers.
    pub fn byte_range(&self) -> (r: ByteRange)
        requires
            self.wf(),
        ensures
            r.start == self.ast.token_ranges@[spec_first_index(self.toks(), self.root as int)].start,
            r.end == self.ast.token_ranges@[spec_last_index(self.toks(), self.root as int)].end,
    {
        proof {
            lemma_first_last_bounds(self.toks(), self.root as int);
        }
        let first = first_index(self.ast, self.root);
        let last = last_index(self.ast, self.root);
        let start = self.ast.token_ranges[first].start;
        let end = self.ast.token_ranges[last].end;
        ByteRange { start, end }
    }

    /// The first and last tokens of the expression.
    pub fn token_range(&self) -> (r: core::ops::RangeInclusive<AstIndex>)
        requires
            self.wf(),
        ensures
            r@.start == spec_first_index(self.toks(), self.root as int),
            r@.end == spec_last_index(self.toks(), self.root as int),
            !r@.exhausted,
    {
        let first = first_index(self.ast, self.root);
        let last = last_index(self.ast, self.root);
        core::ops::RangeInclusive::new(first, last)
    }

    pub fn token(&self) -> (t: Token)
        requires
            self.wf(),
        ensures
            t == self.toks()[self.root as int],
    {
        self.ast.tokens[self.root]
    }

    pub fn token_string(self) -> (s: String)
        requires
            self.wf(),
            self.ast.token_refs_valid(self.toks()[self.root as int]),
        ensures
            s@ == self.ast.spec_token_text(self.toks()[self.root as int]),
    {
        self.ast.token_string(self.root)
    }

    pub fn open_operator(&self) -> (r: AstIndex)
        requires
            self.wf(),
        ensures
            r == spec_open_operator_index(self.toks(), self.root as int),
    {
        open_operator_index(self.ast, self.root)
    }

    pub fn close_operator(&self) -> (r: AstIndex)
        requires
            self.wf(),
        ensures
            r == spec_close_operator_index(self.toks(), self.root as int),
    {
        close_operator_index(self.ast, self.root)
    }

    /// The open token of a group expression (given its open or close token);
    /// the root token itself otherwise.
    pub fn open_token(&self) -> (t: Token)
        requires
            self.wf(),
        ensures
            t == self.toks()[spec_open_operator_index(self.toks(), self.root as int)],
    {
        proof {
            assert(close_matched(self.toks(), self.root as int));
        }
        self.ast.tokens[open_operator_index(self.ast, self.root)]
    }

    /// The close token of a group expression (given its open or close
    /// token); the root token itself otherwise.
    pub fn close_token(&self) -> (t: Token)
        requires
            self.wf(),
        ensures
            t == self.toks()[spec_close_operator_index(self.toks(), self.root as int)],
    {
        proof {
            assert(open_matched(self.toks(), self.root as int));
        }
        self.ast.tokens[close_operator_index(self.ast, self.root)]
    }

    /// The number of parent steps up to the top expression.
    pub fn depth(self) -> (d: usize)
        requires
            self.wf(),
            spec_depth(self.toks(), self.root as int) is Some,
        ensures
            d == spec_depth(self.toks(), self.root as int).unwrap(),
    {
        depth(self.ast, self.root)
    }

    /// The kind of group of a group expression.
    pub fn boundary(self) -> (b: ExpressionBoundary)
        requires
            self.wf(),
            fix(self.toks()[spec_open_operator_index(self.toks(), self.root as int)]) == Fixity::Open,
            self.toks()[spec_open_operator_index(self.toks(), self.root as int)] matches Token::Expression(
                ExpressionToken::OpenBlock { index, .. },
            ) ==> index < self.ast.blocks@.len(),
        ensures
            b == spec_boundary(self.ast, self.toks()[spec_open_operator_index(self.toks(), self.root as int)]->Expression_0),
    {
        proof {
            assert(close_matched(self.toks(), self.root as int));
        }
        match self.open_token() {
            Token::Expression(ExpressionToken::Open { boundary, .. }) => boundary,
            Token::Expression(ExpressionToken::OpenBlock { index, .. }) => self.ast.blocks[index].boundary,
            _ => ExpressionBoundary::Root,
        }
    }

    pub fn left_expression(self) -> (e: Self)
        requires
            self.wf(),
            self.root >= 1,
        ensures
            e.ast == self.ast,
            e.root == spec_left_operand_root(self.toks(), self.root as int),
            e.wf(),
    {
        AstExpression::new(self.ast, left_operand_root(self.ast, self.root))
    }

    pub fn right_expression(self) -> (e: Self)
        requires
            self.wf(),
            has_right(self.toks()[self.root as int]),
        ensures
            e.ast == self.ast,
            e.root == spec_right_operand_root(self.toks(), self.root as int),
            e.wf(),
    {
        AstExpression::new(self.ast, right_operand_root(self.ast, self.root))
    }

    pub fn parent(self) -> (e: Self)
        requires
            self.wf(),
            !is_whole_tree(self.toks(), self.root as int),
        ensures
            e.ast == self.ast,
            e.root == spec_parent_root(self.toks(), self.root as int),
            e.wf(),
    {
        proof {
            lemma_parent_root(self.toks(), self.root as int);
        }
        AstExpression::new(self.ast, parent_root(self.ast, self.root))
    }

    /// Which operand of its parent this expression is.
    pub fn operand_position(self) -> (p: OperandPosition)
        requires
            self.wf(),
            !is_whole_tree(self.toks(), self.root as int),
        ensures
            p == spec_operand_position(self.toks(), self.root as int),
    {
        let parent = self.parent();
        let f = parent.token().fixity();
        if f == Fixity::Prefix || f == Fixity::Open {
            OperandPosition::PrefixOperand
        } else if f == Fixity::Postfix || f == Fixity::Close {
            OperandPosition::PostfixOperand
        } else if self.root < parent.root {
            OperandPosition::Left
        } else {
            OperandPosition::Right
        }
    }

    /// The expression inside a group.
    pub fn inner_expression(self) -> (e: Self)
        requires
            self.wf(),
            spec_close_operator_index(self.toks(), self.root as int) >= 1,
        ensures
            e.ast == self.ast,
            e.root == spec_inner_root(self.toks(), self.root as int),
            e.wf(),
    {
        proof {
            assert(open_matched(self.toks(), self.root as int));
            lemma_left_operand_root_bounds(self.toks(), spec_close_operator_index(self.toks(), self.root as int));
        }
        AstExpression::new(self.ast, inner_root(self.ast, self.root))
    }

    /// The operand at a position: left for left and postfix operands, right
    /// for right and prefix operands.
    pub fn child(self, position: OperandPosition) -> (e: Self)
        requires
            self.wf(),
            (position == OperandPosition::Left || position == OperandPosition::PostfixOperand) ==> self.root >= 1,
            (position == OperandPosition::Right || position == OperandPosition::PrefixOperand) ==> has_right(self.toks()[self.root as int]),
        ensures
            e.ast == self.ast,
            (position == OperandPosition::Left || position == OperandPosition::PostfixOperand) ==> e.root == spec_left_operand_root(self.toks(), self.root as int),
            (position == OperandPosition::Right || position == OperandPosition::PrefixOperand) ==> e.root == spec_right_operand_root(self.toks(), self.root as int),
    {
        match position {
            OperandPosition::Left | OperandPosition::PostfixOperand => self.left_expression(),
            OperandPosition::Right | OperandPosition::PrefixOperand => self.right_expression(),
        }
    }
}

impl<'p> Expression<'p, ()> {
    pub fn basic(ast: &'p Ast, index: AstIndex) -> (e: Self)
        ensures
            e.expression.ast == ast,
            e.expression.root == index,
    {
        Expression::new((), ast, index)
    }
}

impl<'p, Context: Copy> Expression<'p, Context> {
    pub open spec fn wf(&self) -> bool {
        self.expression.wf()
    }

    pub open spec fn toks(&self) -> Seq<Token> {
        self.expression.ast.tokens@
    }

    pub open spec fn root(&self) -> int {
        self.expression.root as int
    }

    pub fn new(context: Context, ast: &'p Ast, root: AstIndex) -> (e: Self)
        ensures
            e.context == context,
            e.expression.ast == ast,
            e.expression.root == root,
    {
        Expression { context, expression: AstExpression::new(ast, root) }
    }

    pub fn with_context<C: Copy>(self, context: C) -> (e: Expression<'p, C>)
        ensures
            e.context == context,
            e.expression == self.expression,
    {
        Expression { context, expression: self.expression }
    }

    pub fn with_expression(self, expression: AstExpression<'p>) -> (e: Self)
        ensures
            e.context == self.context,
            e.expression == expression,
    {
        Expression { context: self.context, expression }
    }

    pub fn context(self) -> (c: Context)
        ensures
            c == self.context,
    {
        self.context
    }

    pub fn index(self) -> (r: AstIndex)
        ensures
            r == self.expression.root,
    {
        self.expression.root_index()
    }

    pub fn inner_expression(self) -> (e: Self)
        requires
            self.wf(),
            spec_close_operator_index(self.toks(), self.root()) >= 1,
        ensures
            e.context == self.context,
            e.expression.ast == self.expression.ast,
            e.expression.root == spec_inner_root(self.toks(), self.root()),
            e.wf(),
    {
        self.with_expression(self.expression.inner_expression())
    }

    pub fn left_expression(self) -> (e: Self)
        requires
            self.wf(),
            self.root() >= 1,
        ensures
            e.context == self.context,
            e.expression.ast == self.expression.ast,
            e.expression.root == spec_left_operand_root(self.toks(), self.root()),
            e.wf(),
    {
        self.with_expression(self.expression.left_expression())
    }

    pub fn right_expression(self) -> (e: Self)
        requires
            self.wf(),
            has_right(self.toks()[self.root()]),
        ensures
            e.context == self.context,
            e.expression.ast == self.expression.ast,
            e.expression.root == spec_right_operand_root(self.toks(), self.root()),
            e.wf(),
    {
        self.with_expression(self.expression.right_expression())
    }

    pub fn parent(self) -> (e: Self)
        requires
            self.wf(),
            !is_whole_tree(self.toks(), self.root()),
        ensures
            e.context == self.context,
            e.expression.ast == self.expression.ast,
            e.expression.root == spec_parent_root(self.toks(), self.root()),
            e.wf(),
    {
        self.with_expression(self.expression.parent())
    }
}

} // verus!
