//! Expressions of an AST as values that can be navigated: an expression is
//! an AST with the index of the expression's root token.
use crate::ast::{Ast, OperandPosition};
use crate::fixity::Fixity;
use crate::indices::{AstIndex, ByteRange};
use crate::navigation::{
    close_matched, close_operator_index, depth, first_index, fix, has_right, inner_root, is_whole_tree,
    last_index, law_term_operand_parent, lemma_first_last_bounds, lemma_left_operand_root_bounds, lemma_parent_root, left_operand_root,
    open_matched, open_operator_index, parent_root, prev_index, right_operand_root, spec_close_operator_index,
    spec_depth, spec_first_index, spec_inner_root, spec_last_index, spec_left_operand_root,
    spec_open_operator_index, spec_parent_root, spec_right_operand_root, tree_wf,
};
use crate::source_reconstruction::{SourceReconstruction, lossy_text, spec_reconstruction_pieces};
use crate::token::{ExpressionBoundary, ExpressionToken, OperatorToken, Token};
use vstd::prelude::*;

verus! {

/// Formats an expression with explicit grouping.
#[derive(Copy, Clone, Debug)]
pub struct ExpressionFormatter;

/// Formats an expression as an indented tree.
#[derive(Copy, Clone, Debug)]
pub struct ExpressionTreeFormatter {
    pub starting_depth: usize,
}

/// An expression of an AST, identified by its root token.
#[derive(Copy, Clone)]
pub struct AstExpressionTree<'p> {
    pub ast: &'p Ast,
    pub root: AstIndex,
}

/// An expression together with a context value that navigation carries
/// along.
#[derive(Copy, Clone)]
pub struct ExpressionTreeWalker<'p, Context: Copy> {
    pub context: Context,
    pub expression: AstExpressionTree<'p>,
}

/// The operand position of the expression rooted at `root` in its parent.
pub open spec fn spec_operand_position(toks: Seq<Token>, root: int) -> OperandPosition {
    let parent = spec_parent_root(toks, root);
    let f = fix(toks[parent]);
    if f == Fixity::Prefix || f == Fixity::Open {
        OperandPosition::PrefixOperand
    } else if f == Fixity::Postfix || f == Fixity::Close {
        OperandPosition::PostfixOperand
    } else if root < parent {
        OperandPosition::Left
    } else {
        OperandPosition::Right
    }
}

/// A term operand holds its operator's place for it: left or right of an
/// infix operator, the operand of a postfix operator, or that of a prefix
/// operator or group. So the child at that position is the term again.
pub proof fn law_term_operand_position(toks: Seq<Token>, root: int)
    requires
        tree_wf(toks),
        0 <= root < toks.len(),
    ensures
        fix(toks[root]) == Fixity::Infix && fix(toks[spec_left_operand_root(toks, root)]) == Fixity::Term
            ==> spec_operand_position(toks, spec_left_operand_root(toks, root)) == OperandPosition::Left,
        fix(toks[root]) == Fixity::Infix && fix(toks[spec_right_operand_root(toks, root)]) == Fixity::Term
            ==> spec_operand_position(toks, spec_right_operand_root(toks, root)) == OperandPosition::Right,
        fix(toks[root]) == Fixity::Postfix && fix(toks[spec_left_operand_root(toks, root)]) == Fixity::Term
            ==> spec_operand_position(toks, spec_left_operand_root(toks, root)) == OperandPosition::PostfixOperand,
        (fix(toks[root]) == Fixity::Prefix || fix(toks[root]) == Fixity::Open) && fix(
            toks[spec_right_operand_root(toks, root)],
        ) == Fixity::Term ==> spec_operand_position(toks, spec_right_operand_root(toks, root))
            == OperandPosition::PrefixOperand,
{
    law_term_operand_parent(toks, root);
}

/// The kind of group of an open token.
pub open spec fn spec_boundary(ast: &Ast, t: ExpressionToken) -> ExpressionBoundary {
    match t {
        ExpressionToken::Open { boundary, .. } => boundary,
        ExpressionToken::OpenBlock { index, .. } => ast.blocks@[index as int].boundary,
        _ => ExpressionBoundary::Root,
    }
}

impl<'p> AstExpressionTree<'p> {
    /// The AST reads as a tree and the root is one of its tokens.
    pub open spec fn wf(&self) -> bool {
        &&& tree_wf(self.ast.tokens@)
        &&& self.root < self.ast.tokens@.len()
        &&& self.ast.tokens@.len() == self.ast.token_ranges@.len()
    }

    pub open spec fn toks(&self) -> Seq<Token> {
        self.ast.tokens@
    }

    pub fn new(ast: &'p Ast, root: AstIndex) -> (e: Self)
        ensures
            e.ast == ast,
            e.root == root,
    {
        AstExpressionTree { ast, root }
    }

    pub fn ast(self) -> (a: &'p Ast)
        ensures
            a == self.ast,
    {
        self.ast
    }

    pub fn root_index(&self) -> (r: AstIndex)
        ensures
            r == self.root,
    {
        self.root
    }

    /// The source bytes the expression covers.
    pub fn byte_range(&self) -> (r: ByteRange)
        requires
            self.wf(),
        ensures
            r.start == self.ast.token_ranges@[spec_first_index(self.toks(), self.root as int)].start,
            r.end == self.ast.token_ranges@[spec_last_index(self.toks(), self.root as int)].end,
    {
        proof {
            lemma_first_last_bounds(self.toks(), self.root as int);
        }
        let first = first_index(self.ast, self.root);
        let last = last_index(self.ast, self.root);
        let start = self.ast.token_ranges[first].start;
        let end = self.ast.token_ranges[last].end;
        ByteRange { start, end }
    }

    /// The first and last tokens of the expression.
    pub fn token_range(&self) -> (r: core::ops::RangeInclusive<AstIndex>)
        requires
            self.wf(),
        ensures
            r@.start == spec_first_index(self.toks(), self.root as int),
            r@.end == spec_last_index(self.toks(), self.root as int),
            !r@.exhausted,
    {
        let first = first_index(self.ast, self.root);
        let last = last_index(self.ast, self.root);
        core::ops::RangeInclusive::new(first, last)
    }

    pub fn token(&self) -> (t: Token)
        requires
            self.wf(),
        ensures
            t == self.toks()[self.root as int],
    {
        self.ast.tokens[self.root]
    }

    pub fn token_string(self) -> (s: String)
        requires
            self.wf(),
            self.ast.token_refs_valid(self.toks()[self.root as int]),
        ensures
            s@ == self.ast.spec_token_text(self.toks()[self.root as int]),
    {
        self.ast.token_string(self.root)
    }

    pub fn open_operator(&self) -> (r: AstIndex)
        requires
            self.wf(),
        ensures
            r == spec_open_operator_index(self.toks(), self.root as int),
    {
        open_operator_index(self.ast, self.root)
    }

    pub fn close_operator(&self) -> (r: AstIndex)
        requires
            self.wf(),
        ensures
            r == spec_close_operator_index(self.toks(), self.root as int),
    {
        close_operator_index(self.ast, self.root)
    }

    /// The open token of a group expression (given its open or close token).
    pub fn open_token(&self) -> (t: ExpressionToken)
        requires
            self.wf(),
            self.toks()[spec_open_operator_index(self.toks(), self.root as int)] is Expression,
        ensures
            Token::Expression(t) == self.toks()[spec_open_operator_index(self.toks(), self.root as int)],
    {
        proof {
            assert(close_matched(self.toks(), self.root as int));
        }
        self.ast.expression_token(open_operator_index(self.ast, self.root))
    }

    /// The close token of a group expression (given its open or close token).
    pub fn close_token(&self) -> (t: OperatorToken)
        requires
            self.wf(),
            self.toks()[spec_close_operator_index(self.toks(), self.root as int)] is Operator,
        ensures
            Token::Operator(t) == self.toks()[spec_close_operator_index(self.toks(), self.root as int)],
    {
        proof {
            assert(open_matched(self.toks(), self.root as int));
        }
        self.ast.operator_token(close_operator_index(self.ast, self.root))
    }

    /// The number of parent steps up to the top expression.
    pub fn depth(self) -> (d: usize)
        requires
            self.wf(),
            spec_depth(self.toks(), self.root as int) is Some,
        ensures
            d == spec_depth(self.toks(), self.root as int).unwrap(),
    {
        depth(self.ast, self.root)
    }

    /// The kind of group of a group expression.
    pub fn boundary(self) -> (b: ExpressionBoundary)
        requires
            self.wf(),
            fix(self.toks()[spec_open_operator_index(self.toks(), self.root as int)]) == Fixity::Open,
            self.toks()[spec_open_operator_index(self.toks(), self.root as int)] matches Token::Expression(
                ExpressionToken::OpenBlock { index, .. },
            ) ==> index < self.ast.blocks@.len(),
        ensures
            b == spec_boundary(self.ast, self.toks()[spec_open_operator_index(self.toks(), self.root as int)]->Expression_0),
    {
        proof {
            assert(close_matched(self.toks(), self.root as int));
        }
        match self.open_token() {
            ExpressionToken::Open { boundary, .. } => boundary,
            ExpressionToken::OpenBlock { index, .. } => self.ast.blocks[index].boundary,
            _ => ExpressionBoundary::Root,
        }
    }

    pub fn left_expression(self) -> (e: Self)
        requires
            self.wf(),
            self.root >= 1,
        ensures
            e.ast == self.ast,
            e.root == spec_left_operand_root(self.toks(), self.root as int),
            e.wf(),
    {
        AstExpressionTree::new(self.ast, left_operand_root(self.ast, self.root))
    }

    pub fn right_expression(self) -> (e: Self)
        requires
            self.wf(),
            has_right(self.toks()[self.root as int]),
        ensures
            e.ast == self.ast,
            e.root == spec_right_operand_root(self.toks(), self.root as int),
            e.wf(),
    {
        AstExpressionTree::new(self.ast, right_operand_root(self.ast, self.root))
    }

    pub fn parent_expression(self) -> (e: Self)
        requires
            self.wf(),
            !is_whole_tree(self.toks(), self.root as int),
        ensures
            e.ast == self.ast,
            e.root == spec_parent_root(self.toks(), self.root as int),
            e.wf(),
    {
        proof {
            lemma_parent_root(self.toks(), self.root as int);
        }
        AstExpressionTree::new(self.ast, parent_root(self.ast, self.root))
    }

    /// The expression just before this one (rooted at the token before it,
    /// or at the open token of a group that ends there).
    pub fn prev_expression(self) -> (e: Self)
        requires
            tree_wf(self.toks()),
            1 <= self.root <= self.toks().len(),
            self.ast.tokens@.len() == self.ast.token_ranges@.len(),
        ensures
            e.ast == self.ast,
            e.root == spec_open_operator_index(self.toks(), self.root - 1),
            e.wf(),
    {
        proof {
            assert(close_matched(self.toks(), self.root - 1));
        }
        AstExpressionTree::new(self.ast, prev_index(self.ast, self.root))
    }

    /// The expression rooted at the next token.
    pub fn next_expression(self) -> (e: Self)
        requires
            self.wf(),
        ensures
            e.ast == self.ast,
            e.root == self.root + 1,
            self.root + 1 < self.toks().len() ==> e.wf(),
    {
        let _len = self.ast.tokens.len();
        AstExpressionTree::new(self.ast, self.root + 1)
    }

    /// Which operand of its parent this expression is.
    pub fn operand_position(self) -> (p: OperandPosition)
        requires
            self.wf(),
            !is_whole_tree(self.toks(), self.root as int),
        ensures
            p == spec_operand_position(self.toks(), self.root as int),
    {
        let parent = self.parent_expression();
        let f = parent.token().fixity();
        if f == Fixity::Prefix || f == Fixity::Open {
            OperandPosition::PrefixOperand
        } else if f == Fixity::Postfix || f == Fixity::Close {
            OperandPosition::PostfixOperand
        } else if self.root < parent.root {
            OperandPosition::Left
        } else {
            OperandPosition::Right
        }
    }

    /// The expression inside a group.
    pub fn inner_expression(self) -> (e: Self)
        requires
            self.wf(),
            spec_close_operator_index(self.toks(), self.root as int) >= 1,
        ensures
            e.ast == self.ast,
            e.root == spec_inner_root(self.toks(), self.root as int),
            e.wf(),
    {
        proof {
            assert(open_matched(self.toks(), self.root as int));
            lemma_left_operand_root_bounds(self.toks(), spec_close_operator_index(self.toks(), self.root as int));
        }
        AstExpressionTree::new(self.ast, inner_root(self.ast, self.root))
    }

    /// The operand at a position: left for left and postfix operands, right
    /// for right and prefix operands.
    pub fn child_expression(self, position: OperandPosition) -> (e: Self)
        requires
            self.wf(),
            (position == OperandPosition::Left || position == OperandPosition::PostfixOperand) ==> self.root >= 1,
            (position == OperandPosition::Right || position == OperandPosition::PrefixOperand) ==> has_right(self.toks()[self.root as int]),
        ensures
            e.ast == self.ast,
            (position == OperandPosition::Left || position == OperandPosition::PostfixOperand) ==> e.root == spec_left_operand_root(self.toks(), self.root as int),
            (position == OperandPosition::Right || position == OperandPosition::PrefixOperand) ==> e.root == spec_right_operand_root(self.toks(), self.root as int),
    {
        match position {
            OperandPosition::Left | OperandPosition::PostfixOperand => self.left_expression(),
            OperandPosition::Right | OperandPosition::PrefixOperand => self.right_expression(),
        }
    }

    /// This expression, with a formatter for explicit grouping.
    pub fn format(self) -> (w: ExpressionTreeWalker<'p, ExpressionFormatter>)
        ensures
            w.expression == self,
    {
        ExpressionTreeWalker::new(ExpressionFormatter, self.ast(), self.root_index())
    }

    /// This expression, with a tree formatter starting at its depth.
    pub fn format_tree(self) -> (w: ExpressionTreeWalker<'p, ExpressionTreeFormatter>)
        requires
            self.wf(),
            spec_depth(self.toks(), self.root as int) is Some,
        ensures
            w.expression == self,
            w.context.starting_depth == spec_depth(self.toks(), self.root as int).unwrap(),
    {
        ExpressionTreeWalker::new(ExpressionTreeFormatter { starting_depth: self.depth() }, self.ast(), self.root_index())
    }

    /// A reconstruction of the source this expression covers.
    pub fn reconstruct_source(self) -> (r: SourceReconstruction<'p>)
        requires
            self.wf(),
        ensures
            r.ast == self.ast,
            r.range.start == self.ast.token_ranges@[spec_first_index(self.toks(), self.root as int)].start,
            r.range.end == self.ast.token_ranges@[spec_last_index(self.toks(), self.root as int)].end,
    {
        SourceReconstruction::new(self.ast(), self.byte_range())
    }

    /// The source text of the expression, reconstructed.
    pub fn to_string(self) -> (s: String)
        requires
            self.wf(),
            self.ast.wf(),
            self.ast.tokens_refs_valid(),
            spec_reconstruction_pieces(
                self.ast,
                ByteRange {
                    start: self.ast.token_ranges@[spec_first_index(self.toks(), self.root as int)].start,
                    end: self.ast.token_ranges@[spec_last_index(self.toks(), self.root as int)].end,
                },
            ) is Some,
        ensures
            s@ == lossy_text(
                spec_reconstruction_pieces(
                    self.ast,
                    ByteRange {
                        start: self.ast.token_ranges@[spec_first_index(self.toks(), self.root as int)].start,
                        end: self.ast.token_ranges@[spec_last_index(self.toks(), self.root as int)].end,
                    },
                ).unwrap(),
            ),
    {
        self.reconstruct_source().to_string()
    }
}

impl<'p> ExpressionTreeWalker<'p, ()> {
    pub fn basic(ast: &'p Ast, index: AstIndex) -> (w: Self)
        ensures
            w.expression.ast == ast,
            w.expression.root == index,
    {
        ExpressionTreeWalker::new((), ast, index)
    }
}

impl<'p, Context: Copy> ExpressionTreeWalker<'p, Context> {
    pub open spec fn wf(&self) -> bool {
        self.expression.wf()
    }

    pub open spec fn toks(&self) -> Seq<Token> {
        self.expression.ast.tokens@
    }

    pub open spec fn root(&self) -> int {
        self.expression.root as int
    }

    pub fn new(context: Context, ast: &'p Ast, root: AstIndex) -> (w: Self)
        ensures
            w.context == context,
            w.expression.ast == ast,
            w.expression.root == root,
    {
        ExpressionTreeWalker { context, expression: AstExpressionTree::new(ast, root) }
    }

    pub fn format(self) -> (w: ExpressionTreeWalker<'p, ExpressionFormatter>)
        ensures
            w.expression == self.expression,
    {
        self.expression.format()
    }

    pub fn format_tree(self) -> (w: ExpressionTreeWalker<'p, ExpressionTreeFormatter>)
        requires
            self.wf(),
            spec_depth(self.toks(), self.root()) is Some,
        ensures
            w.expression == self.expression,
            w.context.starting_depth == spec_depth(self.toks(), self.root()).unwrap(),
    {
        self.expression.format_tree()
    }

    pub fn with_context<C: Copy>(self, context: C) -> (w: ExpressionTreeWalker<'p, C>)
        ensures
            w.context == context,
            w.expression == self.expression,
    {
        ExpressionTreeWalker { context, expression: self.expression }
    }

    pub fn with_expression(self, expression: AstExpressionTree<'p>) -> (w: Self)
        ensures
            w.context == self.context,
            w.expression == expression,
    {
        ExpressionTreeWalker { context: self.context, expression }
    }

    pub fn context(self) -> (c: Context)
        ensures
            c == self.context,
    {
        self.context
    }

    pub fn ast(self) -> (a: &'p Ast)
        ensures
            a == self.expression.ast,
    {
        self.expression.ast()
    }

    pub fn root_index(&self) -> (r: AstIndex)
        ensures
            r == self.expression.root,
    {
        self.expression.root_index()
    }

    pub fn byte_range(&self) -> (r: ByteRange)
        requires
            self.wf(),
        ensures
            r.start == self.expression.ast.token_ranges@[spec_first_index(self.toks(), self.root())].start,
            r.end == self.expression.ast.token_ranges@[spec_last_index(self.toks(), self.root())].end,
    {
        self.expression.byte_range()
    }

    pub fn token_range(&self) -> (r: core::ops::RangeInclusive<AstIndex>)
        requires
            self.wf(),
        ensures
            r@.start == spec_first_index(self.toks(), self.root()),
            r@.end == spec_last_index(self.toks(), self.root()),
            !r@.exhausted,
    {
        self.expression.token_range()
    }

    pub fn token(&self) -> (t: Token)
        requires
            self.wf(),
        ensures
            t == self.toks()[self.root()],
    {
        self.expression.token()
    }

    pub fn token_string(self) -> (s: String)
        requires
            self.wf(),
            self.expression.ast.token_refs_valid(self.toks()[self.root()]),
        ensures
            s@ == self.expression.ast.spec_token_text(self.toks()[self.root()]),
    {
        self.expression.token_string()
    }

    pub fn open_operator(&self) -> (r: AstIndex)
        requires
            self.wf(),
        ensures
            r == spec_open_operator_index(self.toks(), self.root()),
    {
        self.expression.open_operator()
    }

    pub fn close_operator(&self) -> (r: AstIndex)
        requires
            self.wf(),
        ensures
            r == spec_close_operator_index(self.toks(), self.root()),
    {
        self.expression.close_operator()
    }

    pub fn open_token(&self) -> (t: ExpressionToken)
        requires
            self.wf(),
            self.toks()[spec_open_operator_index(self.toks(), self.root())] is Expression,
        ensures
            Token::Expression(t) == self.toks()[spec_open_operator_index(self.toks(), self.root())],
    {
        self.expression.open_token()
    }

    pub fn close_token(&self) -> (t: OperatorToken)
        requires
            self.wf(),
            self.toks()[spec_close_operator_index(self.toks(), self.root())] is Operator,
        ensures
            Token::Operator(t) == self.toks()[spec_close_operator_index(self.toks(), self.root())],
    {
        self.expression.close_token()
    }

    pub fn depth(self) -> (d: usize)
        requires
            self.wf(),
            spec_depth(self.toks(), self.root()) is Some,
        ensures
            d == spec_depth(self.toks(), self.root()).unwrap(),
    {
        self.expression.depth()
    }

    pub fn boundary(self) -> (b: ExpressionBoundary)
        requires
            self.wf(),
            fix(self.toks()[spec_open_operator_index(self.toks(), self.root())]) == Fixity::Open,
            self.toks()[spec_open_operator_index(self.toks(), self.root())] matches Token::Expression(
                ExpressionToken::OpenBlock { index, .. },
            ) ==> index < self.expression.ast.blocks@.len(),
        ensures
            b == spec_boundary(self.expression.ast, self.toks()[spec_open_operator_index(self.toks(), self.root())]->Expression_0),
    {
        self.expression.boundary()
    }

    pub fn operand_position(self) -> (p: OperandPosition)
        requires
            self.wf(),
            !is_whole_tree(self.toks(), self.root()),
        ensures
            p == spec_operand_position(self.toks(), self.root()),
    {
        self.expression.operand_position()
    }

    pub fn inner_expression(self) -> (w: Self)
        requires
            self.wf(),
            spec_close_operator_index(self.toks(), self.root()) >= 1,
        ensures
            w.context == self.context,
            w.expression.ast == self.expression.ast,
            w.expression.root == spec_inner_root(self.toks(), self.root()),
            w.wf(),
    {
        self.with_expression(self.expression.inner_expression())
    }

    pub fn left_expression(self) -> (w: Self)
        requires
            self.wf(),
            self.root() >= 1,
        ensures
            w.context == self.context,
            w.expression.ast == self.expression.ast,
            w.expression.root == spec_left_operand_root(self.toks(), self.root()),
            w.wf(),
    {
        self.with_expression(self.expression.left_expression())
    }

    pub fn right_expression(self) -> (w: Self)
        requires
            self.wf(),
            has_right(self.toks()[self.root()]),
        ensures
            w.context == self.context,
            w.expression.ast == self.expression.ast,
            w.expression.root == spec_right_operand_root(self.toks(), self.root()),
            w.wf(),
    {
        self.with_expression(self.expression.right_expression())
    }

    pub fn prev_expression(self) -> (w: Self)
        requires
            tree_wf(self.toks()),
            1 <= self.root() <= self.toks().len(),
            self.expression.ast.tokens@.len() == self.expression.ast.token_ranges@.len(),
        ensures
            w.context == self.context,
            w.expression.ast == self.expression.ast,
            w.expression.root == spec_open_operator_index(self.toks(), self.root() - 1),
            w.wf(),
    {
        self.with_expression(self.expression.prev_expression())
    }

    pub fn next_expression(self) -> (w: Self)
        requires
            self.wf(),
        ensures
            w.context == self.context,
            w.expression.ast == self.expression.ast,
            w.expression.root == self.root() + 1,
            self.root() + 1 < self.toks().len() ==> w.wf(),
    {
        self.with_expression(self.expression.next_expression())
    }

    pub fn parent_expression(self) -> (w: Self)
        requires
            self.wf(),
            !is_whole_tree(self.toks(), self.root()),
        ensures
            w.context == self.context,
            w.expression.ast == self.expression.ast,
            w.expression.root == spec_parent_root(self.toks(), self.root()),
            w.wf(),
    {
        self.with_expression(self.expression.parent_expression())
    }

    pub fn child_expression(self, position: OperandPosition) -> (w: Self)
        requires
            self.wf(),
            (position == OperandPosition::Left || position == OperandPosition::PostfixOperand) ==> self.root() >= 1,
            (position == OperandPosition::Right || position == OperandPosition::PrefixOperand) ==> has_right(self.toks()[self.root()]),
        ensures
            w.context == self.context,
            w.expression.ast == self.expression.ast,
            (position == OperandPosition::Left || position == OperandPosition::PostfixOperand) ==> w.expression.root == spec_left_operand_root(self.toks(), self.root()),
            (position == OperandPosition::Right || position == OperandPosition::PrefixOperand) ==> w.expression.root == spec_right_operand_root(self.toks(), self.root()),
    {
        self.with_expression(self.expression.child_expression(position))
    }
}

} // verus!
