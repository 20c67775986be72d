//! The grouping stage of the parser: it balances parentheses, braces and
//! compound terms, and inserts precedence groups where precedence needs
//! them, eliding compound terms and precedence groups that change nothing.
use crate::ast::Ast;
use crate::binder::{Binder, OpenScope, ast_grows, is_block_open_for, lemma_ranges_insert, lemma_ranges_push, ranges_within, bound_form, closes_block, fields_named, is_binder_input_expression, opens_block};
use crate::block::AstBlock;
use crate::indices::{AstIndex, ByteRange};
use crate::token::{
    ExpressionBoundary, ExpressionBoundaryError, ExpressionToken, OperatorToken, Token, boundary_rank,
    has_precedence, spec_is_required, spec_is_scope, spec_operator_takes_right_child,
};
use crate::fixity::Fixity;
use crate::grouping::{
    closable, kinds, lemma_close_pending, lemma_close_required, lemma_kinds_push, lemma_kinds_same_boundaries,
    lemma_pop_pending, lemma_pop_pending_pass_infix, lemma_push_open, lemma_push_pending, lemma_push_plain,
    lemma_set_infix, lemma_tree_inv_same_shape, pop_to, same_shape, tree_inv, entry_ok, entry_before,
};
use crate::navigation::{fix, has_left, has_right};
use vstd::prelude::*;

verus! {

/// A group (parentheses, block, precedence group, compound term) whose
/// close has not been seen yet.
#[derive(Debug, Copy, Clone)]
pub struct OpenExpression {
    /// The last infix operator of the group, with its index: the operator
    /// whose precedence decides whether later operators belong to it.
    pub infix: Option<(OperatorToken, AstIndex)>,
    /// Where the group's open token stands; for a group that needs no token
    /// until it closes (a compound term or precedence group), where it will
    /// be inserted.
    pub open_index: AstIndex,
    pub boundary: ExpressionBoundary,
}

/// Groups the tokens and hands them on to the binder.
pub struct Grouper {
    pub binder: Binder,
    /// The open groups, outermost (the source) first.
    pub open_expressions: Vec<OpenExpression>,
    /// The tokens handed to the grouper so far, with their ranges.
    pub received: Ghost<Seq<(Token, ByteRange)>>,
}

/// The number of groups with a scope among `s`.
pub open spec fn block_count(s: Seq<OpenExpression>) -> nat
    decreases s.len(),
{
    if s.len() == 0 {
        0
    } else {
        block_count(s.drop_last()) + if spec_is_scope(s.last().boundary) { 1nat } else { 0nat }
    }
}

/// Groups with the same boundaries hold the same number of scopes.
proof fn lemma_block_count_same_boundaries(s: Seq<OpenExpression>, t: Seq<OpenExpression>)
    requires
        s.len() == t.len(),
        forall|i: int| 0 <= i < s.len() ==> (#[trigger] s[i]).boundary == t[i].boundary,
    ensures
        block_count(s) == block_count(t),
    decreases s.len(),
{
    if s.len() > 0 {
        lemma_block_count_same_boundaries(s.drop_last(), t.drop_last());
    }
}

/// Pushing a group adds one scope if it has one.
proof fn lemma_block_count_push(s: Seq<OpenExpression>, e: OpenExpression)
    ensures
        block_count(s.push(e)) == block_count(s) + if spec_is_scope(e.boundary) { 1int } else { 0 },
{
    assert(s.push(e).drop_last() =~= s);
}

/// An open group as the grouper keeps it: its indices in range, its infix
/// operator one with a precedence.
pub open spec fn open_expression_wf(e: OpenExpression, len: int) -> bool {
    &&& e.open_index <= len
    &&& spec_is_required(e.boundary) ==> e.open_index < len
    &&& e.boundary != ExpressionBoundary::Root
    &&& e.boundary != ExpressionBoundary::AutoBlock
    &&& e.infix matches Some((t, i)) ==> i < len && has_precedence(t)
}

/// Whether the innermost group takes the infix operator `next` into its
/// right operand: a precedence group (or an auto block, by the group
/// around it) by the precedence of its operator; any other group always.
pub open spec fn spec_wants_child(s: Seq<OpenExpression>, next: OperatorToken) -> bool {
    let top = s.last();
    if top.boundary == ExpressionBoundary::AutoBlock || top.boundary == ExpressionBoundary::PrecedenceGroup {
        let infix = if top.boundary == ExpressionBoundary::AutoBlock {
            if s.len() >= 2 {
                s[s.len() - 2].infix
            } else {
                None
            }
        } else {
            top.infix
        };
        match infix {
            Some((op, _)) => spec_operator_takes_right_child(op, Token::Operator(next)),
            None => true,
        }
    } else {
        true
    }
}

/// The first token from `k` on that is not a prefix operator.
pub open spec fn skip_prefix_operators(t: Seq<Token>, k: int) -> int
    decreases t.len() - k,
{
    if 0 <= k < t.len() && t[k] matches Token::Expression(ExpressionToken::PrefixOperator(_)) {
        skip_prefix_operators(t, k + 1)
    } else {
        k
    }
}

/// Whether the compound term starting at `open_index` must stay a group:
/// unless it is prefix operators then a single term, or a single group,
/// that ends the token list.
pub open spec fn spec_compound_term_needed(t: Seq<Token>, open_index: int) -> bool {
    let k = skip_prefix_operators(t, open_index);
    let last = t.len() - 1;
    if k >= t.len() {
        true
    } else {
        match t[k] {
            Token::Expression(ExpressionToken::Open { delta, .. }) => delta != last - k,
            Token::Expression(ExpressionToken::OpenBlock { delta, .. }) => delta != last - k,
            Token::Expression(ExpressionToken::PrefixOperator(_)) => true,
            Token::Expression(_) => k != last,
            Token::Operator(_) => true,
        }
    }
}

/// Whether the innermost group keeps tokens of its own when it closes: a
/// precedence group only when the group around it takes its operator as a
/// right child, a compound term only when it is needed, any other group
/// always.
pub open spec fn spec_group_kept(s: Seq<OpenExpression>, t: Seq<Token>) -> bool {
    let e = s.last();
    if e.boundary == ExpressionBoundary::PrecedenceGroup {
        match e.infix {
            Some((op, _)) => s.len() >= 2 && match s[s.len() - 2].infix {
                Some((p, _)) => spec_operator_takes_right_child(p, Token::Operator(op)),
                None => false,
            },
            None => false,
        }
    } else if e.boundary == ExpressionBoundary::CompoundTerm {
        spec_compound_term_needed(t, e.open_index as int)
    } else {
        true
    }
}

/// The open groups after the innermost one is dropped: a dropped precedence
/// group with an operator hands that operator to the group around it.
pub open spec fn spec_after_drop(s: Seq<OpenExpression>) -> Seq<OpenExpression> {
    let e = s.last();
    let rest = s.drop_last();
    if e.boundary == ExpressionBoundary::PrecedenceGroup && e.infix is Some {
        rest.update(rest.len() - 1, OpenExpression { infix: e.infix, ..rest.last() })
    } else {
        rest
    }
}

/// `t` is the open token that a group of kind `boundary` starts with: an
/// open token with no distance yet, or for a group with a scope, the open
/// token of a new block.
pub open spec fn is_open_placeholder(
    t: Token,
    boundary: ExpressionBoundary,
    error: Option<ExpressionBoundaryError>,
    blocks: Seq<AstBlock>,
) -> bool {
    if spec_is_scope(boundary) {
        is_block_open_for(t, 0, boundary, error, blocks)
    } else {
        t == Token::Expression(ExpressionToken::Open { delta: 0, boundary, error })
    }
}

/// An open token of a group that gets its open token at once.
pub open spec fn opens_tokened_group(t: ExpressionToken) -> bool {
    t matches ExpressionToken::Open { boundary, .. } && spec_is_required(boundary)
}

/// A close token of a group that always has tokens.
pub open spec fn closes_required_group(t: OperatorToken) -> bool {
    t matches OperatorToken::Close { boundary, .. } && spec_is_required(boundary)
}

/// An operator token the grouper accepts.
pub open spec fn is_grouper_input_operator(t: OperatorToken) -> bool {
    match t {
        OperatorToken::InfixOperator(_) | OperatorToken::InfixAssignment(_) | OperatorToken::PostfixOperator(_) => true,
        OperatorToken::Close { boundary, .. } => boundary != ExpressionBoundary::PrecedenceGroup && boundary
            != ExpressionBoundary::Root,
        _ => false,
    }
}

/// An expression token the grouper accepts.
pub open spec fn is_grouper_input_expression(t: ExpressionToken) -> bool {
    &&& is_binder_input_expression(t)
    &&& t matches ExpressionToken::Open { boundary, .. } ==> boundary != ExpressionBoundary::PrecedenceGroup
        && boundary != ExpressionBoundary::Root && boundary != ExpressionBoundary::AutoBlock
}

impl Grouper {
    pub open spec fn wf(&self) -> bool {
        let s = self.open_expressions@;
        let len = self.binder.ast.tokens@.len() as int;
        &&& self.binder.wf()
        &&& self.binder.open_scopes@.len() == 1 + block_count(s)
        &&& forall|i: int| 0 <= i < s.len() ==> open_expression_wf(#[trigger] s[i], len)
        &&& s.len() > 0 ==> s[0].boundary == ExpressionBoundary::Source
        &&& forall|i: int| 0 < i < s.len() ==> (#[trigger] s[i]).boundary != ExpressionBoundary::Source
    }

    /// The token count plus twice the number of open groups: every operation
    /// raises it by a bounded amount, which keeps token indices in range.
    pub open spec fn budget(&self) -> int {
        self.binder.ast.tokens@.len() + 2 * self.open_expressions@.len() as int
    }

    /// The token list and the open groups form a tree under construction.
    pub open spec fn tree_ok(&self) -> bool {
        tree_inv(self.binder.ast.tokens@, self.open_expressions@)
    }

    /// The last token takes an operand after it.
    pub open spec fn last_has_right(&self) -> bool {
        self.binder.ast.tokens@.len() >= 1 && has_right(self.binder.ast.tokens@.last())
    }

    /// The last token is a complete operand.
    pub open spec fn last_is_operand(&self) -> bool {
        self.binder.ast.tokens@.len() >= 1 && !has_right(self.binder.ast.tokens@.last())
    }

    /// The stack of open groups holds the source group.
    pub open spec fn started(&self) -> bool {
        self.open_expressions@.len() > 0
    }

    /// A grouper over a fresh AST, before the source's open token.
    pub fn new(ast: Ast) -> (grouper: Grouper)
        requires
            ast.wf(),
            ast.tokens@.len() == 0,
            ast.blocks@.len() == 0,
            fields_named(&ast),
        ensures
            grouper.wf(),
            !grouper.started(),
            grouper.open_expressions@.len() == 0,
            grouper.received@ == Seq::<(Token, ByteRange)>::empty(),
            forall|k: int| 0 <= k < grouper.binder.scope@.len() ==> grouper.binder.scope@[k] == k,
            grouper.binder.scope@.len() == ast.fields@.len(),
            grouper.binder.ast.fields == ast.fields,
            grouper.binder.ast.blocks@ == seq![
                AstBlock {
                    boundary: ExpressionBoundary::Root,
                    parent: 0,
                    scope_start: ast.fields@.len() as usize,
                    scope_count: 0,
                    delta: 0,
                },
            ],
            grouper.binder.open_scopes@ == seq![OpenScope { open_index: 0, index: 0, scope_start: ast.fields@.len() as usize }],
            grouper.binder.ast.literals == ast.literals,
            grouper.binder.ast.raw_literals == ast.raw_literals,
            grouper.binder.ast.token_ranges == ast.token_ranges,
            grouper.binder.ast.tokens@.len() == 0,
            grouper.binder.ast.source_open_error == ast.source_open_error,
            grouper.binder.ast.char_data == ast.char_data,
            grouper.binder.ast.identifiers == ast.identifiers,
    {
        Grouper { binder: Binder::new(ast), open_expressions: Vec::new(), received: Ghost(Seq::empty()) }
    }

    pub fn ast(&self) -> (ast: &Ast)
        ensures
            *ast == self.binder.ast,
    {
        &self.binder.ast
    }

    pub fn ast_mut(&mut self) -> (ast: &mut Ast)
        ensures
            *ast == old(self).binder.ast,
            final(self).binder.ast == *final(ast),
            final(self).binder.open_scopes == old(self).binder.open_scopes,
            final(self).binder.scope == old(self).binder.scope,
            final(self).open_expressions == old(self).open_expressions,
            final(self).received == old(self).received,
    {
        &mut self.binder.ast
    }

    /// The finished AST.
    pub fn on_source_end(self) -> (ast: Ast)
        ensures
            ast == self.binder.ast,
    {
        self.binder.on_source_end()
    }

    /// Takes an expression token: an open token starts a group, and any
    /// other token is passed on.
    pub fn on_expression_token(&mut self, token: ExpressionToken, range: ByteRange)
        requires
            old(self).budget() + 3 <= usize::MAX,
            old(self).wf(),
            is_grouper_input_expression(token),
            old(self).binder.ast.token_refs_valid(Token::Expression(token)),
            (token matches ExpressionToken::Open { boundary, .. } && boundary == ExpressionBoundary::Source) <==> !old(self).started(),
        ensures
            final(self).received@ == old(self).received@.push((Token::Expression(token), range)),
            forall|b: int| range.start <= range.end <= b && ranges_within(old(self).binder.ast.token_ranges@, b) ==> #[trigger] ranges_within(
                final(self).binder.ast.token_ranges@,
                b,
            ),
            opens_tokened_group(token) ==> {
                &&& final(self).binder.ast.tokens@.len() == old(self).binder.ast.tokens@.len() + 1
                &&& final(self).binder.ast.tokens@.take(old(self).binder.ast.tokens@.len() as int) == old(self).binder.ast.tokens@
                &&& final(self).binder.ast.token_ranges@.last() == range
                &&& is_open_placeholder(
                    final(self).binder.ast.tokens@.last(),
                    token->Open_boundary,
                    token->Open_error,
                    final(self).binder.ast.blocks@,
                )
            },
            !(token is Open) ==> final(self).open_expressions == old(self).open_expressions,
            token matches ExpressionToken::Open { boundary, .. } ==> final(self).open_expressions@ == old(self).open_expressions@.push(
                OpenExpression { open_index: old(self).binder.ast.tokens@.len() as usize, boundary, infix: None },
            ),
            !(token is Open) ==> final(self).binder.ast.tokens@.len() == old(self).binder.ast.tokens@.len() + 1
                && final(self).binder.ast.tokens@.take(old(self).binder.ast.tokens@.len() as int) == old(self).binder.ast.tokens@,
            token matches ExpressionToken::Open { boundary, .. } && !spec_is_required(boundary) ==> final(self).binder.ast.tokens@
                == old(self).binder.ast.tokens@,
            !(token is Open) ==> bound_form(token, final(self).binder.ast.tokens@.last(), final(self).binder.ast.fields@)
                && final(self).binder.ast.token_ranges@.last() == range,
            token matches ExpressionToken::Open { boundary, .. } && spec_is_required(boundary) ==> final(self).binder.ast.tokens@.len() >= 1 && fix(final(self).binder.ast.tokens@.last()) == Fixity::Open,
            (old(self).started() ==> old(self).last_has_right()) ==> (final(self).binder.ast.tokens@.len() >= 1 && has_right(
                final(self).binder.ast.tokens@.last(),
            ) == has_right(Token::Expression(token))),
            kinds(final(self).open_expressions@) == match token {
                ExpressionToken::Open { boundary, .. } => kinds(old(self).open_expressions@).push(boundary),
                _ => kinds(old(self).open_expressions@),
            },
            (old(self).tree_ok() && (!old(self).started() ==> old(self).binder.ast.tokens@.len() == 0) && (old(self).started()
                ==> old(self).last_has_right())) ==> final(self).tree_ok(),
            final(self).budget() <= old(self).budget() + 3,
            final(self).wf(),
            final(self).started(),
            ast_grows(&old(self).binder.ast, &final(self).binder.ast),
            final(self).binder.ast.source_open_error == old(self).binder.ast.source_open_error,
            final(self).binder.ast.char_data == old(self).binder.ast.char_data,
            final(self).binder.ast.identifiers == old(self).binder.ast.identifiers,
            final(self).binder.ast.literals == old(self).binder.ast.literals,
    {
        match token {
            ExpressionToken::Open { error, boundary, .. } => {
                let ghost s = self.open_expressions@;
                self.on_open_token(boundary, error, range);
                proof {
                    lemma_kinds_push(s, self.open_expressions@.last());
                    assert(s.push(self.open_expressions@.last()) == self.open_expressions@);
                    if old(self).started() ==> old(self).last_has_right() {
                        if spec_is_required(boundary) {
                            let x = Token::Expression(ExpressionToken::Open { delta: 0, boundary, error });
                            assert(fix(self.binder.ast.tokens@.last()) == fix(old(self).binder.ast.tokens@.push(x).last()));
                        }
                    }
                }
            },
            _ => {
                let ghost before = *self;
                self.binder.push_expression_token(token, range);
                proof {
                    self.lemma_wf_after_push(&before);
                    let t = before.binder.ast.tokens@;
                    let x = Token::Expression(token);
                    assert(fix(self.binder.ast.tokens@.last()) == fix(t.push(x).last()));
                    if old(self).tree_ok() && old(self).last_has_right() {
                        lemma_push_plain(t, before.open_expressions@, x);
                        lemma_tree_inv_same_shape(t.push(x), self.binder.ast.tokens@, self.open_expressions@);
                    }
                }
            },
        }
        proof {
            self.received@ = old(self).received@.push((Token::Expression(token), range));
        }
    }

    /// Takes an operator token: a close token closes groups, an infix
    /// operator closes the groups that do not take it and opens a
    /// precedence group where it binds tighter than the operator before it.
    pub fn on_operator_token(&mut self, token: OperatorToken, range: ByteRange)
        requires
            old(self).budget() + 3 <= usize::MAX,
            old(self).wf(),
            old(self).started(),
            is_grouper_input_operator(token),
            old(self).binder.ast.token_refs_valid(Token::Operator(token)),
        ensures
            final(self).received@ == old(self).received@.push((Token::Operator(token), range)),
            closes_required_group(token) ==> final(self).binder.ast.token_ranges@.len() >= 1
                && final(self).binder.ast.token_ranges@.last() == range,
            forall|b: int| range.start <= range.end <= b && ranges_within(old(self).binder.ast.token_ranges@, b) ==> #[trigger] ranges_within(
                final(self).binder.ast.token_ranges@,
                b,
            ),
            old(self).last_is_operand() ==> (final(self).binder.ast.tokens@.len() >= 1 && has_right(
                final(self).binder.ast.tokens@.last(),
            ) == has_right(Token::Operator(token))),
            !(token is Close) ==> final(self).binder.ast.tokens@.last() == Token::Operator(token)
                && final(self).binder.ast.token_ranges@.last() == range,
            token matches OperatorToken::Close { boundary, .. } && spec_is_required(boundary) ==> final(self).binder.ast.tokens@.len() >= 1 && fix(final(self).binder.ast.tokens@.last()) == Fixity::Close,
            !(token is Close) ==> kinds(final(self).open_expressions@) == kinds(old(self).open_expressions@),
            token is PostfixOperator ==> final(self).open_expressions == old(self).open_expressions,
            has_precedence(token) ==> final(self).open_expressions@.len() >= 1 && final(self).binder.ast.tokens@.len() >= 1
                && final(self).open_expressions@.last().infix == Some(
                (token, (final(self).binder.ast.tokens@.len() - 1) as usize),
            ),
            token matches OperatorToken::Close { boundary, .. } ==> (closable(old(self).open_expressions@, boundary) ==> kinds(
                final(self).open_expressions@,
            ) == pop_to(kinds(old(self).open_expressions@), boundary)),
            (old(self).tree_ok() && old(self).last_is_operand() && (token matches OperatorToken::Close { boundary, .. } ==> closable(
                old(self).open_expressions@,
                boundary,
            ))) ==> final(self).tree_ok(),
            final(self).budget() <= old(self).budget() + 3,
            final(self).wf(),
            final(self).started() <==> !(token matches OperatorToken::Close { boundary, .. } && boundary
                == ExpressionBoundary::Source),
            ast_grows(&old(self).binder.ast, &final(self).binder.ast),
            final(self).binder.ast.source_open_error == old(self).binder.ast.source_open_error,
            final(self).binder.ast.char_data == old(self).binder.ast.char_data,
            final(self).binder.ast.identifiers == old(self).binder.ast.identifiers,
            final(self).binder.ast.literals == old(self).binder.ast.literals,
    {
        match token {
            OperatorToken::Close { boundary, .. } => {
                let ghost before = self.binder.ast.token_ranges@;
                self.on_close_token(boundary, range);
                assert forall|b: int| range.start <= range.end <= b && ranges_within(before, b) implies ranges_within(
                    self.binder.ast.token_ranges@,
                    b,
                ) by {}
            },
            OperatorToken::PostfixOperator(_) => {
                let ghost before = *self;
                self.binder.push_operator_token(token, range);
                proof {
                    self.lemma_wf_after_push(&before);
                    let t = before.binder.ast.tokens@;
                    let x = Token::Operator(token);
                    assert(fix(self.binder.ast.tokens@.last()) == fix(t.push(x).last()));
                    if old(self).tree_ok() && old(self).last_is_operand() {
                        lemma_push_plain(t, before.open_expressions@, x);
                        lemma_tree_inv_same_shape(t.push(x), self.binder.ast.tokens@, self.open_expressions@);
                    }
                    assert forall|b: int| range.start <= range.end <= b && ranges_within(
                        before.binder.ast.token_ranges@,
                        b,
                    ) implies ranges_within(self.binder.ast.token_ranges@, b) by {
                        lemma_ranges_push(before.binder.ast.token_ranges@, range, b);
                    }
                }
            },
            _ => {
                let ghost start = *self;
                while !self.open_expression_wants_child(token)
                    invariant
                        forall|b: int| range.start <= range.end <= b && ranges_within(start.binder.ast.token_ranges@, b)
                            ==> #[trigger] ranges_within(self.binder.ast.token_ranges@, b),
                        self.wf(),
                        self.started(),
                        self.budget() <= start.budget(),
                        start.budget() + 3 <= usize::MAX,
                        has_precedence(token),
                        start.binder.ast.token_refs_valid(Token::Operator(token)),
                        ast_grows(&start.binder.ast, &self.binder.ast),
                        self.binder.ast.source_open_error == start.binder.ast.source_open_error,
                        self.binder.ast.char_data == start.binder.ast.char_data,
                        self.binder.ast.identifiers == start.binder.ast.identifiers,
                        self.binder.ast.literals == start.binder.ast.literals,
                        kinds(self.open_expressions@) == kinds(start.open_expressions@),
                        start.last_is_operand() ==> self.last_is_operand(),
                        (start.tree_ok() && start.last_is_operand()) ==> self.tree_ok(),
                    decreases self.open_expressions@.len(),
                {
                    let at = range.start;
                    let ghost before = self.open_expressions@;
                    self.close_top(None, ByteRange { start: at, end: at });
                    proof {
                        assert(before.drop_last().push(before.last()) =~= before);
                        lemma_kinds_push(before.drop_last(), before.last());
                    }
                }
                self.open_precedence_group_if_needed(token);
                let ghost before = *self;
                proof {
                    crate::binder::lemma_token_refs_grow(&start.binder.ast, &self.binder.ast, Token::Operator(token));
                }
                let ghost mid_ranges = self.binder.ast.token_ranges@;
                let index = self.binder.push_operator_token(token, range);
                proof {
                    assert forall|b: int| range.start <= range.end <= b && ranges_within(
                        start.binder.ast.token_ranges@,
                        b,
                    ) implies ranges_within(self.binder.ast.token_ranges@, b) by {
                        assert(ranges_within(mid_ranges, b));
                        lemma_ranges_push(mid_ranges, range, b);
                    }
                    self.lemma_wf_after_push(&before);
                    let t = before.binder.ast.tokens@;
                    let x = Token::Operator(token);
                    assert(fix(self.binder.ast.tokens@.last()) == fix(t.push(x).last()));
                    if start.tree_ok() && start.last_is_operand() {
                        lemma_push_plain(t, before.open_expressions@, x);
                        lemma_tree_inv_same_shape(t.push(x), self.binder.ast.tokens@, self.open_expressions@);
                    }
                }
                let last = self.open_expressions.len() - 1;
                let top = self.open_expressions[last];
                let ghost s = self.open_expressions@;
                self.open_expressions.set(last, OpenExpression { infix: Some((token, index)), ..top });
                proof {
                    lemma_block_count_same_boundaries(s, self.open_expressions@);
                    lemma_kinds_same_boundaries(s, self.open_expressions@);
                    if start.tree_ok() && start.last_is_operand() {
                        assert(fix(self.binder.ast.tokens@[index as int]) == Fixity::Infix);
                        lemma_set_infix(self.binder.ast.tokens@, s, self.open_expressions@.last());
                        assert(s.update(s.len() - 1, self.open_expressions@.last()) == self.open_expressions@);
                    }
                    assert forall|i: int| 0 < i < self.open_expressions@.len() implies (#[trigger] self.open_expressions@[i]).boundary
                        != ExpressionBoundary::Source by {
                        assert(self.open_expressions@[i].boundary == s[i].boundary);
                    }
                    assert forall|i: int| 0 <= i < self.open_expressions@.len() implies open_expression_wf(
                        #[trigger] self.open_expressions@[i],
                        self.binder.ast.tokens@.len() as int,
                    ) by {
                        if i != last {
                            assert(self.open_expressions@[i] == s[i]);
                        }
                    }
                }
            },
        }
        proof {
            self.received@ = old(self).received@.push((Token::Operator(token), range));
        }
    }

    /// The grouper stays well formed when the binder appended one token and
    /// its open scopes did not change.
    proof fn lemma_wf_after_push(&self, before: &Grouper)
        requires
            before.wf(),
            self.binder.wf(),
            self.open_expressions == before.open_expressions,
            self.binder.open_scopes@.len() == before.binder.open_scopes@.len(),
            self.binder.ast.tokens@.len() == before.binder.ast.tokens@.len() + 1,
        ensures
            self.wf(),
    {
        assert forall|i: int| 0 <= i < self.open_expressions@.len() implies open_expression_wf(
            #[trigger] self.open_expressions@[i],
            self.binder.ast.tokens@.len() as int,
        ) by {
            assert(open_expression_wf(before.open_expressions@[i], before.binder.ast.tokens@.len() as int));
        }
    }

    /// Whether the innermost group takes the infix operator `next_infix`
    /// into its right operand (groups other than precedence groups always
    /// do).
    fn open_expression_wants_child(&self, next_infix: OperatorToken) -> (wants: bool)
        requires
            self.wf(),
            self.started(),
            has_precedence(next_infix),
        ensures
            wants == spec_wants_child(self.open_expressions@, next_infix),
            !wants ==> self.open_expressions@.last().boundary == ExpressionBoundary::PrecedenceGroup,
            !wants ==> self.open_expressions@.len() >= 2,
    {
        let len = self.open_expressions.len();
        let top = self.open_expressions[len - 1];
        let infix = match top.boundary {
            ExpressionBoundary::AutoBlock => {
                if len >= 2 {
                    self.open_expressions[len - 2].infix
                } else {
                    None
                }
            },
            ExpressionBoundary::PrecedenceGroup => top.infix,
            _ => {
                return true;
            },
        };
        match infix {
            Some((infix, _)) => {
                proof {
                    if len >= 2 {
                        assert(open_expression_wf(self.open_expressions@[len - 2], self.binder.ast.tokens@.len() as int));
                    }
                    assert(open_expression_wf(top, self.binder.ast.tokens@.len() as int));
                }
                infix.takes_right_child(Token::Operator(next_infix))
            },
            None => true,
        }
    }

    /// Opens a precedence group after the innermost group's infix operator
    /// when `next_infix` binds tighter than it: in `1+2*3`, `*` opens a
    /// group that starts at `2`.
    fn open_precedence_group_if_needed(&mut self, next_infix: OperatorToken)
        requires
            old(self).budget() + 3 <= usize::MAX,
            old(self).wf(),
            old(self).started(),
            has_precedence(next_infix),
        ensures
            final(self).open_expressions@ == match old(self).open_expressions@.last().infix {
                Some((op, i)) => if spec_operator_takes_right_child(op, Token::Operator(next_infix)) {
                    old(self).open_expressions@.push(
                        OpenExpression { infix: None, open_index: (i + 1) as usize, boundary: ExpressionBoundary::PrecedenceGroup },
                    )
                } else {
                    old(self).open_expressions@
                },
                None => old(self).open_expressions@,
            },
            kinds(final(self).open_expressions@) == kinds(old(self).open_expressions@),
            final(self).open_expressions@.last().open_index <= final(self).binder.ast.tokens@.len(),
            forall|k: int| 0 <= k < old(self).open_expressions@.len() ==> #[trigger] final(self).open_expressions@[k] == old(self).open_expressions@[k],
            final(self).open_expressions@.len() >= old(self).open_expressions@.len(),
            old(self).tree_ok() ==> final(self).tree_ok(),
            final(self).budget() <= old(self).budget() + 2,
            final(self).wf(),
            final(self).started(),
            final(self).binder == old(self).binder,
    {
        let len = self.open_expressions.len();
        let top = self.open_expressions[len - 1];
        proof {
            assert(open_expression_wf(top, self.binder.ast.tokens@.len() as int));
        }
        if let Some((infix, index)) = top.infix {
            if infix.takes_right_child(Token::Operator(next_infix)) {
                let ghost s = self.open_expressions@;
                let group = OpenExpression {
                    open_index: index + 1,
                    boundary: ExpressionBoundary::PrecedenceGroup,
                    infix: None,
                };
                self.open_expressions.push(group);
                proof {
                    lemma_block_count_push(s, group);
                    lemma_kinds_push(s, group);
                    if old(self).tree_ok() {
                        let t = self.binder.ast.tokens@;
                        assert(entry_ok(t, s, len - 1));
                        assert forall|j: int| 0 <= j < s.len() implies #[trigger] entry_before(s[j], group) by {
                            if j < len - 1 {
                                assert(entry_before(s[j], s[len - 1]));
                            }
                        }
                        lemma_push_pending(t, s, group);
                    }
                    assert forall|i: int| 0 <= i < self.open_expressions@.len() implies open_expression_wf(
                        #[trigger] self.open_expressions@[i],
                        self.binder.ast.tokens@.len() as int,
                    ) by {
                        if i < len {
                            assert(self.open_expressions@[i] == s[i]);
                        }
                    }
                    assert forall|i: int| 0 < i < self.open_expressions@.len() implies (#[trigger] self.open_expressions@[i]).boundary
                        != ExpressionBoundary::Source by {
                        if i < len {
                            assert(self.open_expressions@[i] == s[i]);
                        }
                    }
                }
            }
        }
    }

    /// Handles a close token: groups of a lower kind than it are closed
    /// (those that needed a close token of their own with an error), a
    /// group of its kind is closed by it, and if the innermost group is of a
    /// higher kind the close token had no open token, and one is inserted
    /// right after the innermost group's open token.
    fn on_close_token(&mut self, boundary: ExpressionBoundary, range: ByteRange)
        requires
            old(self).budget() + 3 <= usize::MAX,
            old(self).wf(),
            old(self).started(),
            boundary != ExpressionBoundary::PrecedenceGroup,
            boundary != ExpressionBoundary::Root,
        ensures
            spec_is_required(boundary) ==> final(self).binder.ast.token_ranges@.len() >= 1
                && final(self).binder.ast.token_ranges@.last() == range,
            forall|b: int| range.start <= range.end <= b && ranges_within(old(self).binder.ast.token_ranges@, b) ==> #[trigger] ranges_within(
                final(self).binder.ast.token_ranges@,
                b,
            ),
            old(self).last_is_operand() ==> final(self).last_is_operand(),
            spec_is_required(boundary) ==> final(self).binder.ast.tokens@.len() >= 1 && fix(
                final(self).binder.ast.tokens@.last(),
            ) == Fixity::Close,
            closable(old(self).open_expressions@, boundary) ==> kinds(final(self).open_expressions@) == pop_to(
                kinds(old(self).open_expressions@),
                boundary,
            ),
            (old(self).tree_ok() && old(self).last_is_operand() && closable(old(self).open_expressions@, boundary)) ==> (
            final(self).tree_ok() && final(self).last_is_operand()),
            final(self).budget() <= old(self).budget() + 2,
            final(self).wf(),
            final(self).started() <==> boundary != ExpressionBoundary::Source,
            ast_grows(&old(self).binder.ast, &final(self).binder.ast),
            final(self).binder.ast.source_open_error == old(self).binder.ast.source_open_error,
            final(self).binder.ast.char_data == old(self).binder.ast.char_data,
            final(self).binder.ast.identifiers == old(self).binder.ast.identifiers,
            final(self).binder.ast.literals == old(self).binder.ast.literals,
    {
        let rank = boundary.rank();
        loop
            invariant
                forall|b: int| range.start <= range.end <= b && ranges_within(old(self).binder.ast.token_ranges@, b) ==> #[trigger] ranges_within(
                    self.binder.ast.token_ranges@,
                    b,
                ),
                self.wf(),
                self.started(),
                self.budget() <= old(self).budget(),
                old(self).budget() + 3 <= usize::MAX,
                boundary != ExpressionBoundary::PrecedenceGroup,
                boundary != ExpressionBoundary::Root,
                rank == boundary_rank(boundary),
                old(self).last_is_operand() ==> self.last_is_operand(),
                closable(old(self).open_expressions@, boundary) ==> closable(self.open_expressions@, boundary) && pop_to(
                    kinds(self.open_expressions@),
                    boundary,
                ) == pop_to(kinds(old(self).open_expressions@), boundary),
                (old(self).tree_ok() && old(self).last_is_operand() && closable(old(self).open_expressions@, boundary)) ==> (
                self.tree_ok() && self.last_is_operand()),
                ast_grows(&old(self).binder.ast, &self.binder.ast),
                self.binder.ast.source_open_error == old(self).binder.ast.source_open_error,
                self.binder.ast.char_data == old(self).binder.ast.char_data,
                self.binder.ast.identifiers == old(self).binder.ast.identifiers,
                self.binder.ast.literals == old(self).binder.ast.literals,
            decreases self.open_expressions@.len(),
        {
            let len = self.open_expressions.len();
            let top = self.open_expressions[len - 1];
            let open_rank = top.boundary.rank();
            if rank > open_rank {
                // A group of a lower kind that is still open: close it, with
                // an error unless it closes by itself.
                proof {
                    if len == 1 {
                        assert(top.boundary == ExpressionBoundary::Source);
                    }
                }
                let error = if top.boundary.is_closed_automatically() {
                    None
                } else {
                    Some(ExpressionBoundaryError::OpenWithoutClose)
                };
                let at = range.start;
                let ghost before = self.open_expressions@;
                self.close_top(error, ByteRange { start: at, end: at });
                proof {
                    if closable(old(self).open_expressions@, boundary) {
                        let j = choose|j: int|
                            0 <= j < before.len() && (#[trigger] before[j]).boundary == boundary && forall|k: int|
                                j < k < before.len() ==> boundary_rank((#[trigger] before[k]).boundary) < boundary_rank(boundary);
                        assert(j < before.len() - 1);
                        let after = self.open_expressions@;
                        lemma_kinds_same_boundaries(before.drop_last(), after);
                        assert(after[j].boundary == before[j].boundary);
                        assert forall|k: int| j < k < after.len() implies boundary_rank((#[trigger] after[k]).boundary)
                            < boundary_rank(boundary) by {
                            assert(after[k].boundary == before[k].boundary);
                        }
                        assert(closable(after, boundary));
                        assert(before.drop_last().push(before.last()) =~= before);
                        lemma_kinds_push(before.drop_last(), before.last());
                        let kk = kinds(before.drop_last());
                        if before.last().boundary != ExpressionBoundary::PrecedenceGroup {
                            assert(kk.push(before.last().boundary).drop_last() =~= kk);
                            assert(before.last().boundary != boundary);
                        }
                        assert(pop_to(kinds(before), boundary) == pop_to(kk, boundary));
                    }
                }
            } else if rank == open_rank {
                proof {
                    assert(top.boundary == boundary);
                    if boundary != ExpressionBoundary::Source {
                        assert(len > 1);
                    }
                }
                let ghost before = self.open_expressions@;
                self.close_top(None, range);
                proof {
                    assert(before.drop_last().push(before.last()) =~= before);
                    lemma_kinds_push(before.drop_last(), before.last());
                }
                return;
            } else {
                // The close token has no open token: insert one right after
                // the innermost group's open token.
                proof {
                    assert(open_expression_wf(top, self.binder.ast.tokens@.len() as int));
                    if closable(old(self).open_expressions@, boundary) {
                        let s = self.open_expressions@;
                        let j = choose|j: int|
                            0 <= j < s.len() && (#[trigger] s[j]).boundary == boundary && forall|k: int|
                                j < k < s.len() ==> boundary_rank((#[trigger] s[k]).boundary) < boundary_rank(boundary);
                        if j < len - 1 {
                            assert(boundary_rank(s[len - 1].boundary) < boundary_rank(boundary));
                        }
                        assert(false);
                    }
                }
                let open_index = top.open_index + 1;
                let error = if boundary.is_required() {
                    Some(ExpressionBoundaryError::CloseWithoutOpen)
                } else {
                    None
                };
                self.insert_token_pair(open_index, boundary, error, range);
                return;
            }
        }
    }

    /// Closes the innermost group, giving it tokens if it needs them.
    fn close_top(&mut self, error: Option<ExpressionBoundaryError>, range: ByteRange)
        requires
            old(self).budget() + 3 <= usize::MAX,
            old(self).wf(),
            old(self).started(),
        ensures
            spec_is_required(old(self).open_expressions@.last().boundary) ==> final(self).binder.ast.token_ranges@.len() >= 1
                && final(self).binder.ast.token_ranges@.last() == range,
            forall|b: int| range.start <= range.end <= b && ranges_within(old(self).binder.ast.token_ranges@, b) ==> #[trigger] ranges_within(
                final(self).binder.ast.token_ranges@,
                b,
            ),
            old(self).last_is_operand() ==> final(self).last_is_operand(),
            spec_is_required(old(self).open_expressions@.last().boundary) ==> final(self).binder.ast.tokens@.len() >= 1 && fix(
                final(self).binder.ast.tokens@.last(),
            ) == Fixity::Close,
            forall|k: int| 0 <= k < final(self).open_expressions@.len() ==> (#[trigger] final(self).open_expressions@[k]).boundary
                == old(self).open_expressions@[k].boundary,
            kinds(final(self).open_expressions@) == kinds(old(self).open_expressions@.drop_last()),
            final(self).open_expressions@ == if spec_group_kept(old(self).open_expressions@, old(self).binder.ast.tokens@) {
                old(self).open_expressions@.drop_last()
            } else {
                spec_after_drop(old(self).open_expressions@)
            },
            (old(self).tree_ok() && old(self).last_is_operand()) ==> (final(self).tree_ok() && final(self).last_is_operand()),
            final(self).budget() <= old(self).budget(),
            final(self).wf(),
            final(self).open_expressions@.len() == old(self).open_expressions@.len() - 1,
            ast_grows(&old(self).binder.ast, &final(self).binder.ast),
            final(self).binder.ast.source_open_error == old(self).binder.ast.source_open_error,
            final(self).binder.ast.char_data == old(self).binder.ast.char_data,
            final(self).binder.ast.identifiers == old(self).binder.ast.identifiers,
            final(self).binder.ast.literals == old(self).binder.ast.literals,
    {
        let ghost s = self.open_expressions@;
        let ghost t = self.binder.ast.tokens@;
        proof {
            assert(open_expression_wf(s.last(), self.binder.ast.tokens@.len() as int));
        }
        let popped = self.pop_open_expression();
        proof {
            lemma_block_count_same_boundaries(s.drop_last(), self.open_expressions@);
            lemma_kinds_same_boundaries(s.drop_last(), self.open_expressions@);
            if old(self).tree_ok() && old(self).last_is_operand() && popped is None {
                if self.open_expressions@ == s.drop_last() {
                    lemma_pop_pending(t, s);
                } else {
                    lemma_pop_pending_pass_infix(t, s, self.open_expressions@.last());
                }
            }
        }
        if let Some(expression) = popped {
            if expression.boundary.is_required() {
                self.push_close_token(expression.open_index, expression.boundary, error, range);
                proof {
                    if old(self).tree_ok() && old(self).last_is_operand() {
                        assert(entry_ok(t, s, s.len() - 1));
                        let d = (t.len() - expression.open_index) as usize;
                        let o = Token::Expression(ExpressionToken::Open { delta: d, boundary: expression.boundary, error });
                        let c = Token::Operator(OperatorToken::Close { delta: d, boundary: expression.boundary, error });
                        lemma_close_required(t, s, o, c);
                        let ideal = t.update(expression.open_index as int, o).push(c);
                        lemma_tree_inv_same_shape(ideal, self.binder.ast.tokens@, self.open_expressions@);
                        assert(fix(self.binder.ast.tokens@[t.len() as int]) == fix(ideal[t.len() as int]));
                    }
                }
            } else {
                self.insert_token_pair(expression.open_index, expression.boundary, error, range);
                proof {
                    if old(self).tree_ok() && old(self).last_is_operand() {
                        let d = (t.len() + 1 - expression.open_index) as usize;
                        let o = Token::Expression(ExpressionToken::Open { delta: d, boundary: expression.boundary, error });
                        let c = Token::Operator(OperatorToken::Close { delta: d, boundary: expression.boundary, error });
                        lemma_close_pending(t, s, o, c);
                        let ideal = t.insert(expression.open_index as int, o).push(c);
                        lemma_tree_inv_same_shape(ideal, self.binder.ast.tokens@, self.open_expressions@);
                        assert(fix(self.binder.ast.tokens@[t.len() + 1int]) == fix(ideal[t.len() + 1int]));
                    }
                }
            }
        }
    }

    /// Pops the innermost group and tells whether it needs tokens: a
    /// precedence group only if the group around it takes its operator as
    /// a right child (otherwise its operator becomes the outer group's), a
    /// compound term only if it holds more than prefix operators and one
    /// operand.
    fn pop_open_expression(&mut self) -> (popped: Option<OpenExpression>)
        requires
            old(self).wf(),
            old(self).started(),
        ensures
            popped is Some <==> spec_group_kept(old(self).open_expressions@, old(self).binder.ast.tokens@),
            popped is None ==> final(self).open_expressions@ == spec_after_drop(old(self).open_expressions@),
            popped is Some ==> final(self).open_expressions@ == old(self).open_expressions@.drop_last(),
            popped is None ==> final(self).open_expressions@ == old(self).open_expressions@.drop_last() || (
                old(self).open_expressions@.len() >= 2 && old(self).open_expressions@.last().infix is Some
                && final(self).open_expressions@ == old(self).open_expressions@.drop_last().update(
                    old(self).open_expressions@.len() - 2,
                    OpenExpression { infix: old(self).open_expressions@.last().infix, ..old(self).open_expressions@[old(self).open_expressions@.len() - 2] },
                )),
            final(self).budget() == old(self).budget() - 2,
            final(self).binder == old(self).binder,
            final(self).open_expressions@.len() == old(self).open_expressions@.len() - 1,
            forall|i: int|
                0 <= i < final(self).open_expressions@.len() ==> (#[trigger] final(self).open_expressions@[i]).boundary
                    == old(self).open_expressions@[i].boundary,
            forall|i: int|
                0 <= i < final(self).open_expressions@.len() ==> open_expression_wf(
                    #[trigger] final(self).open_expressions@[i],
                    old(self).binder.ast.tokens@.len() as int,
                ),
            popped matches Some(e) ==> e == old(self).open_expressions@.last(),
            popped is None ==> !spec_is_required(old(self).open_expressions@.last().boundary),
    {
        let ghost s = self.open_expressions@;
        let expression = self.open_expressions.pop().unwrap();
        proof {
            assert(self.open_expressions@ == s.drop_last());
            assert(open_expression_wf(expression, self.binder.ast.tokens@.len() as int));
        }
        match expression.boundary {
            ExpressionBoundary::PrecedenceGroup => {
                proof {
                    assert(s.len() >= 2);
                }
                match expression.infix {
                    Some((infix, infix_index)) => {
                        let parent_index = self.open_expressions.len() - 1;
                        let parent = self.open_expressions[parent_index];
                        proof {
                            assert(open_expression_wf(parent, self.binder.ast.tokens@.len() as int));
                        }
                        let needed = match parent.infix {
                            Some((parent_infix, _)) => parent_infix.takes_right_child(Token::Operator(infix)),
                            None => false,
                        };
                        if needed {
                            Some(expression)
                        } else {
                            let ghost t = self.open_expressions@;
                            self.open_expressions.set(
                                parent_index,
                                OpenExpression { infix: Some((infix, infix_index)), ..parent },
                            );
                            proof {
                                assert forall|i: int| 0 <= i < self.open_expressions@.len() implies open_expression_wf(
                                    #[trigger] self.open_expressions@[i],
                                    self.binder.ast.tokens@.len() as int,
                                ) by {
                                    if i != parent_index {
                                        assert(self.open_expressions@[i] == t[i]);
                                    }
                                }
                            }
                            None
                        }
                    },
                    None => None,
                }
            },
            ExpressionBoundary::CompoundTerm => {
                if self.compound_term_needed(expression.open_index) {
                    Some(expression)
                } else {
                    None
                }
            },
            _ => Some(expression),
        }
    }

    /// Whether a compound term starting at `open_index` must stay a group:
    /// not when it is prefix operators followed by a single term or group
    /// that ends the token list.
    fn compound_term_needed(&self, open_index: AstIndex) -> (needed: bool)
        requires
            self.binder.wf(),
        ensures
            needed == spec_compound_term_needed(self.binder.ast.tokens@, open_index as int),
    {
        let tokens = &self.binder.ast.tokens;
        let len = tokens.len();
        let mut index = open_index;
        while index < len && matches!(tokens[index], Token::Expression(ExpressionToken::PrefixOperator(_)))
            invariant
                len == tokens@.len(),
                tokens@ == self.binder.ast.tokens@,
                open_index <= index,
                skip_prefix_operators(tokens@, index as int) == skip_prefix_operators(tokens@, open_index as int),
            decreases len - index,
        {
            index = index + 1;
        }
        if index >= len {
            return true;
        }
        let last = len - 1;
        match tokens[index] {
            Token::Expression(ExpressionToken::Open { delta, .. }) | Token::Expression(
                ExpressionToken::OpenBlock { delta, .. },
            ) => {
                delta != last - index
            },
            Token::Expression(ExpressionToken::PrefixOperator(_)) => true,
            Token::Expression(_) => index != last,
            Token::Operator(_) => true,
        }
    }

    /// Closes a group whose open token is already in the token list: the
    /// open token gets the distance to the close token (and the error, if
    /// any), and the close token is pushed.
    fn push_close_token(
        &mut self,
        open_index: AstIndex,
        boundary: ExpressionBoundary,
        error: Option<ExpressionBoundaryError>,
        close_range: ByteRange,
    ) -> (index: AstIndex)
        requires
            old(self).binder.ast.tokens@.len() + 1 <= usize::MAX,
            old(self).binder.wf(),
            old(self).binder.open_scopes@.len() == 1 + block_count(old(self).open_expressions@) + if spec_is_scope(boundary) { 1int } else { 0 },
            forall|i: int|
                0 <= i < old(self).open_expressions@.len() ==> open_expression_wf(
                    #[trigger] old(self).open_expressions@[i],
                    old(self).binder.ast.tokens@.len() as int,
                ),
            old(self).open_expressions@.len() > 0 ==> old(self).open_expressions@[0].boundary == ExpressionBoundary::Source,
            forall|i: int| 0 < i < old(self).open_expressions@.len() ==> (#[trigger] old(self).open_expressions@[i]).boundary != ExpressionBoundary::Source,
            open_index < old(self).binder.ast.tokens@.len(),
            boundary != ExpressionBoundary::PrecedenceGroup,
            boundary != ExpressionBoundary::Root,
        ensures
            final(self).binder.ast.token_ranges@.len() >= 1 && final(self).binder.ast.token_ranges@.last() == close_range,
            forall|b: int| close_range.start <= close_range.end <= b && ranges_within(old(self).binder.ast.token_ranges@, b) ==> #[trigger] ranges_within(
                final(self).binder.ast.token_ranges@,
                b,
            ),
            final(self).binder.ast.tokens@.len() >= 1,
            fix(final(self).binder.ast.tokens@.last()) == Fixity::Close,
            fix(old(self).binder.ast.tokens@[open_index as int]) == Fixity::Open ==> same_shape(
                final(self).binder.ast.tokens@,
                old(self).binder.ast.tokens@.update(
                    open_index as int,
                    Token::Expression(ExpressionToken::Open { delta: (old(self).binder.ast.tokens@.len() - open_index) as usize, boundary, error }),
                ).push(Token::Operator(OperatorToken::Close { delta: (old(self).binder.ast.tokens@.len() - open_index) as usize, boundary, error })),
            ),
            final(self).binder.ast.tokens@.len() == old(self).binder.ast.tokens@.len() + 1,
            final(self).wf(),
            final(self).open_expressions == old(self).open_expressions,
            ast_grows(&old(self).binder.ast, &final(self).binder.ast),
            final(self).binder.ast.source_open_error == old(self).binder.ast.source_open_error,
            final(self).binder.ast.char_data == old(self).binder.ast.char_data,
            final(self).binder.ast.identifiers == old(self).binder.ast.identifiers,
            final(self).binder.ast.literals == old(self).binder.ast.literals,
    {
        let close_index = self.binder.ast.next_index();
        let delta = close_index - open_index;
        let ghost before = self.binder.ast;
        match self.binder.ast.tokens[open_index] {
            Token::Expression(ExpressionToken::Open { error: open_error, boundary: open_boundary, .. }) => {
                let error = if error.is_some() { error } else { open_error };
                self.binder.ast.tokens.set(
                    open_index,
                    Token::Expression(ExpressionToken::Open { delta, boundary: open_boundary, error }),
                );
            },
            Token::Expression(ExpressionToken::OpenBlock { error: open_error, index, .. }) => {
                let error = if error.is_some() { error } else { open_error };
                self.binder.ast.tokens.set(
                    open_index,
                    Token::Expression(ExpressionToken::OpenBlock { delta, index, error }),
                );
            },
            _ => {},
        }
        proof {
            assert forall|i: int| 0 <= i < self.binder.ast.tokens@.len() implies self.binder.ast.token_refs_valid(
                #[trigger] self.binder.ast.tokens@[i],
            ) by {
                if i != open_index {
                    assert(self.binder.ast.tokens@[i] == before.tokens@[i]);
                } else {
                    assert(before.token_refs_valid(before.tokens@[i]));
                }
            }
        }
        let ghost mid = *self;
        let close = OperatorToken::Close { delta, boundary, error };
        let index = self.binder.push_operator_token(close, close_range);
        proof {
            assert forall|i: int| 0 <= i < self.open_expressions@.len() implies open_expression_wf(
                #[trigger] self.open_expressions@[i],
                self.binder.ast.tokens@.len() as int,
            ) by {
                assert(open_expression_wf(mid.open_expressions@[i], mid.binder.ast.tokens@.len() as int));
            }
        }
        index
    }

    /// Inserts the open token of a group and pushes its close token: for
    /// groups that get tokens only when they turn out to be needed, and for
    /// a close token without an open token.
    fn insert_token_pair(
        &mut self,
        open_index: AstIndex,
        boundary: ExpressionBoundary,
        error: Option<ExpressionBoundaryError>,
        close_range: ByteRange,
    ) -> (index: AstIndex)
        requires
            old(self).binder.ast.tokens@.len() + 2 <= usize::MAX,
            old(self).wf(),
            open_index <= old(self).binder.ast.tokens@.len(),
            boundary != ExpressionBoundary::Root,
        ensures
            final(self).binder.ast.token_ranges@.len() >= 1 && final(self).binder.ast.token_ranges@.last() == close_range,
            forall|b: int| close_range.start <= close_range.end <= b && ranges_within(old(self).binder.ast.token_ranges@, b) ==> #[trigger] ranges_within(
                final(self).binder.ast.token_ranges@,
                b,
            ),
            final(self).binder.ast.tokens@.len() >= 1,
            fix(final(self).binder.ast.tokens@.last()) == Fixity::Close,
            same_shape(
                final(self).binder.ast.tokens@,
                old(self).binder.ast.tokens@.insert(
                    open_index as int,
                    Token::Expression(ExpressionToken::Open { delta: (old(self).binder.ast.tokens@.len() + 1 - open_index) as usize, boundary, error }),
                ).push(Token::Operator(OperatorToken::Close { delta: (old(self).binder.ast.tokens@.len() + 1 - open_index) as usize, boundary, error })),
            ),
            final(self).binder.ast.tokens@.len() == old(self).binder.ast.tokens@.len() + 2,
            final(self).wf(),
            final(self).open_expressions == old(self).open_expressions,
            ast_grows(&old(self).binder.ast, &final(self).binder.ast),
            final(self).binder.ast.source_open_error == old(self).binder.ast.source_open_error,
            final(self).binder.ast.char_data == old(self).binder.ast.char_data,
            final(self).binder.ast.identifiers == old(self).binder.ast.identifiers,
            final(self).binder.ast.literals == old(self).binder.ast.literals,
    {
        let len = self.binder.ast.tokens.len();
        let open_start = if open_index < len {
            self.binder.ast.token_ranges[open_index].start
        } else {
            close_range.start
        };
        let close_index = len + 1;
        let delta = close_index - open_index;
        let ghost before = *self;
        self.binder.insert_open_token(
            open_index,
            error,
            boundary,
            delta,
            ByteRange { start: open_start, end: open_start },
        );
        let ghost mid = *self;
        let close = OperatorToken::Close { delta, boundary, error };
        let index = self.binder.push_operator_token(close, close_range);
        proof {
            assert forall|i: int| 0 <= i < self.open_expressions@.len() implies open_expression_wf(
                #[trigger] self.open_expressions@[i],
                self.binder.ast.tokens@.len() as int,
            ) by {
                assert(open_expression_wf(before.open_expressions@[i], before.binder.ast.tokens@.len() as int));
            }
        }
        index
    }

    /// Opens a group; a group that is user syntax or has a scope gets its
    /// open token now.
    fn on_open_token(
        &mut self,
        boundary: ExpressionBoundary,
        error: Option<ExpressionBoundaryError>,
        open_range: ByteRange,
    )
        requires
            old(self).budget() + 3 <= usize::MAX,
            old(self).wf(),
            boundary != ExpressionBoundary::PrecedenceGroup,
            boundary != ExpressionBoundary::Root,
            boundary != ExpressionBoundary::AutoBlock,
            (boundary == ExpressionBoundary::Source) <==> !old(self).started(),
        ensures
            forall|b: int| open_range.start <= open_range.end <= b && ranges_within(old(self).binder.ast.token_ranges@, b) ==> #[trigger] ranges_within(
                final(self).binder.ast.token_ranges@,
                b,
            ),
            spec_is_required(boundary) ==> {
                &&& final(self).binder.ast.tokens@.len() == old(self).binder.ast.tokens@.len() + 1
                &&& final(self).binder.ast.tokens@.take(old(self).binder.ast.tokens@.len() as int) == old(self).binder.ast.tokens@
                &&& final(self).binder.ast.token_ranges@.last() == open_range
                &&& is_open_placeholder(final(self).binder.ast.tokens@.last(), boundary, error, final(self).binder.ast.blocks@)
            },
            final(self).budget() <= old(self).budget() + 3,
            final(self).wf(),
            final(self).started(),
            final(self).open_expressions@ == old(self).open_expressions@.push(
                OpenExpression { open_index: old(self).binder.ast.tokens@.len() as usize, boundary, infix: None },
            ),
            spec_is_required(boundary) ==> same_shape(
                final(self).binder.ast.tokens@,
                old(self).binder.ast.tokens@.push(Token::Expression(ExpressionToken::Open { delta: 0, boundary, error })),
            ),
            !spec_is_required(boundary) ==> final(self).binder.ast.tokens@ == old(self).binder.ast.tokens@,
            (old(self).tree_ok() && (!old(self).started() ==> old(self).binder.ast.tokens@.len() == 0) && (old(self).started()
                ==> old(self).last_has_right())) ==> final(self).tree_ok(),
            ast_grows(&old(self).binder.ast, &final(self).binder.ast),
            final(self).binder.ast.source_open_error == old(self).binder.ast.source_open_error,
            final(self).binder.ast.char_data == old(self).binder.ast.char_data,
            final(self).binder.ast.identifiers == old(self).binder.ast.identifiers,
            final(self).binder.ast.literals == old(self).binder.ast.literals,
    {
        let open_index = self.binder.ast.next_index();
        let ghost s = self.open_expressions@;
        let ghost t = self.binder.ast.tokens@;
        let expression = OpenExpression { open_index, boundary, infix: None };
        if boundary.is_required() {
            let token = boundary.placeholder_open_token(error);
            self.binder.push_expression_token(token, open_range);
        }
        self.open_expressions.push(expression);
        proof {
            lemma_block_count_push(s, expression);
            assert forall|i: int| 0 <= i < self.open_expressions@.len() implies open_expression_wf(
                #[trigger] self.open_expressions@[i],
                self.binder.ast.tokens@.len() as int,
            ) by {
                if i < s.len() {
                    assert(self.open_expressions@[i] == s[i]);
                    assert(open_expression_wf(old(self).open_expressions@[i], old(self).binder.ast.tokens@.len() as int));
                }
            }
            assert forall|i: int| 0 < i < self.open_expressions@.len() implies (#[trigger] self.open_expressions@[i]).boundary
                != ExpressionBoundary::Source by {
                if i < s.len() {
                    assert(self.open_expressions@[i] == s[i]);
                }
            }
            if old(self).tree_ok() && (!old(self).started() ==> t.len() == 0) && (old(self).started() ==> old(self).last_has_right()) {
                if spec_is_required(boundary) {
                    let x = Token::Expression(ExpressionToken::Open { delta: 0, boundary, error });
                    lemma_push_open(t, s, x, expression);
                    lemma_tree_inv_same_shape(t.push(x), self.binder.ast.tokens@, self.open_expressions@);
                } else {
                    assert forall|j: int| 0 <= j < s.len() implies #[trigger] entry_before(s[j], expression) by {
                        assert(entry_ok(t, s, j));
                    }
                    lemma_push_pending(t, s, expression);
                }
            }
        }
    }
}

} // verus!
