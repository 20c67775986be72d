//! The tokenizing stage of the parser: it makes the token stream alternate
//! between operands and operators, inserting "apply", "newline sequence"
//! and "missing expression" where two operands or two operators meet, and
//! opens and closes compound terms (runs of tokens without space between
//! them).
use crate::ast::Ast;
use crate::fixity::Fixity;
use crate::binder::{OpenScope, ranges_within, ast_consistent, ast_grows, bound_form, fields_named};
use crate::block::AstBlock;
use crate::grouper::{Grouper, closes_required_group, is_open_placeholder, opens_tokened_group};
use crate::identifiers::{APPLY, IdentifierIndex, NEWLINE_SEQUENCE, WELL_KNOWN_COUNT};
use crate::indices::{ByteIndex, ByteRange};
use crate::interner::interned;
use crate::grouping::{
    brackets, close_ok, closable, closable_kinds, kinds, kinds_shape, lemma_closable_from_kinds, lemma_complete,
    lemma_shape_close, lemma_shape_source, lemma_tree_inv_empty, pop_to, tree_inv,
};
use crate::navigation::{fix, has_right, tree_wf};
use crate::token::{ExpressionBoundary, ExpressionBoundaryError, ExpressionToken, OperatorToken, Token, spec_is_required};
use vstd::prelude::*;

verus! {

/// Builds a well-formed token stream from the sequencer's runs.
pub struct Tokenizer {
    pub grouper: Grouper,
    /// Whether a compound term is open (the last token had no space after
    /// it).
    pub in_term: bool,
    /// Whether the last token emitted takes an operand after it.
    pub prev_was_operator: bool,
    /// Whether nothing was emitted since the last line ending.
    pub at_line_start: bool,
}

/// The empty range at `at`.
pub open spec fn at_range(at: ByteIndex) -> ByteRange {
    ByteRange { start: at, end: at }
}

/// What the tokenizer hands the grouper for an expression token: after an
/// operand, the joining operator first, empty, where the token starts.
pub open spec fn expression_emission(prev_was_operator: bool, at_line_start: bool, token: ExpressionToken, range: ByteRange) -> Seq<(Token, ByteRange)> {
    let own = seq![(Token::Expression(token), range)];
    if prev_was_operator {
        own
    } else {
        seq![(joining_operator(at_line_start), at_range(range.start))] + own
    }
}

/// What the tokenizer hands the grouper for an operator token: after an
/// operator, an empty missing expression first, where the token starts.
pub open spec fn operator_emission(prev_was_operator: bool, token: OperatorToken, range: ByteRange) -> Seq<(Token, ByteRange)> {
    let own = seq![(Token::Operator(token), range)];
    if prev_was_operator {
        seq![(Token::Expression(ExpressionToken::MissingExpression), at_range(range.start))] + own
    } else {
        own
    }
}

/// The open token of a compound term.
pub open spec fn term_open() -> ExpressionToken {
    ExpressionToken::Open { boundary: ExpressionBoundary::CompoundTerm, delta: 0, error: None }
}

/// The close token of a compound term.
pub open spec fn term_close() -> OperatorToken {
    OperatorToken::Close { boundary: ExpressionBoundary::CompoundTerm, delta: 0, error: None }
}

/// What opening a compound term at `at` hands the grouper: nothing when one
/// is open.
pub open spec fn open_term_emission(in_term: bool, prev_was_operator: bool, at_line_start: bool, at: ByteIndex) -> Seq<(Token, ByteRange)> {
    if in_term {
        Seq::empty()
    } else {
        expression_emission(prev_was_operator, at_line_start, term_open(), at_range(at))
    }
}

/// What closing the compound term at `at` hands the grouper: nothing when
/// none is open.
pub open spec fn close_term_emission(in_term: bool, prev_was_operator: bool, at: ByteIndex) -> Seq<(Token, ByteRange)> {
    if in_term {
        operator_emission(prev_was_operator, term_close(), at_range(at))
    } else {
        Seq::empty()
    }
}

/// A term token the tokenizer accepts from the sequencer.
pub open spec fn is_term_input(t: ExpressionToken) -> bool {
    !(t is Open) && !(t is OpenBlock) && !(t is FieldReference)
}

/// An operator token the tokenizer accepts from the sequencer.
pub open spec fn is_operator_input(t: OperatorToken) -> bool {
    t is InfixOperator || t is InfixAssignment || t is PostfixOperator
}

/// The operator put between two operands that meet: a newline sequence
/// at the start of a line, "apply" elsewhere.
pub open spec fn joining_operator(at_line_start: bool) -> Token {
    Token::Operator(OperatorToken::InfixOperator(IdentifierIndex(if at_line_start { NEWLINE_SEQUENCE } else { APPLY })))
}

/// An open token of a group that gets its tokens only when it closes
/// (a compound term).
pub open spec fn opens_tokenless_group(t: ExpressionToken) -> bool {
    t matches ExpressionToken::Open { boundary, .. } && !spec_is_required(boundary)
}

/// A boundary that the sequencer opens or closes (a bracket).
pub open spec fn is_bracket(b: ExpressionBoundary) -> bool {
    b == ExpressionBoundary::Parentheses || b == ExpressionBoundary::CurlyBraces
}

/// The tokenizer stays well formed when only the AST's pools and source
/// data change, and grow.
pub proof fn lemma_wf_after_pool_change(old: &Tokenizer, new: &Tokenizer)
    requires
        old.wf(),
        new.spec_ast().wf(),
        ast_grows(&old.spec_ast(), &new.spec_ast()),
        new.spec_ast().tokens == old.spec_ast().tokens,
        new.spec_ast().token_ranges == old.spec_ast().token_ranges,
        new.spec_ast().fields == old.spec_ast().fields,
        new.spec_ast().blocks == old.spec_ast().blocks,
        new.grouper.open_expressions == old.grouper.open_expressions,
        new.grouper.binder.open_scopes == old.grouper.binder.open_scopes,
        new.grouper.binder.scope == old.grouper.binder.scope,
        new.in_term == old.in_term,
        new.prev_was_operator == old.prev_was_operator,
    ensures
        new.wf(),
        new.budget() == old.budget(),
        new.started() == old.started(),
{
    let o = old.spec_ast();
    let n = new.spec_ast();
    crate::binder::lemma_tokens_refs_grow(&o, &n);
    assert forall|f: int| 0 <= f < n.fields@.len() implies ((#[trigger] n.fields@[f]).name.0 as int) < interned(
        &n.identifiers,
    ).len() by {
        assert(o.fields@[f] == n.fields@[f]);
    }
    assert forall|i: int| 0 <= i < new.grouper.open_expressions@.len() implies crate::grouper::open_expression_wf(
        #[trigger] new.grouper.open_expressions@[i],
        n.tokens@.len() as int,
    ) by {
        assert(crate::grouper::open_expression_wf(old.grouper.open_expressions@[i], o.tokens@.len() as int));
    }
}

/// The state a token inside a compound term is emitted in: the tokenizer's
/// own when a term is open, else the one after the term's open token.
pub open spec fn in_term_prev(t: Tokenizer) -> bool {
    if t.in_term {
        t.prev_was_operator
    } else {
        true
    }
}

/// What a token inside a compound term hands the grouper: the term's open
/// token first when no term is open.
pub open spec fn term_token_emission(t: Tokenizer, token: ExpressionToken, range: ByteRange) -> Seq<(Token, ByteRange)> {
    open_term_emission(t.in_term, t.prev_was_operator, t.at_line_start, range.start) + expression_emission(
        in_term_prev(t),
        t.in_term && t.at_line_start,
        token,
        range,
    )
}

/// What an operator inside a compound term hands the grouper: the term's
/// open token first when no term is open.
pub open spec fn term_operator_emission(t: Tokenizer, token: OperatorToken, range: ByteRange) -> Seq<(Token, ByteRange)> {
    open_term_emission(t.in_term, t.prev_was_operator, t.at_line_start, range.start) + operator_emission(
        in_term_prev(t),
        token,
        range,
    )
}

/// What an operator between terms hands the grouper: the open term's close
/// token first.
pub open spec fn separator_emission(t: Tokenizer, token: OperatorToken, range: ByteRange) -> Seq<(Token, ByteRange)> {
    close_term_emission(t.in_term, t.prev_was_operator, range.start) + operator_emission(
        !t.in_term && t.prev_was_operator,
        token,
        range,
    )
}

/// What space, a comment or a line ending hands the grouper: the open
/// term's close token, if any.
pub open spec fn break_emission(t: Tokenizer, at: ByteIndex) -> Seq<(Token, ByteRange)> {
    close_term_emission(t.in_term, t.prev_was_operator, at)
}

impl Tokenizer {
    pub open spec fn wf(&self) -> bool {
        let t = self.grouper.binder.ast.tokens@;
        &&& self.grouper.wf()
        &&& interned(&self.grouper.binder.ast.identifiers).len() >= WELL_KNOWN_COUNT
        &&& !self.grouper.started() ==> self.prev_was_operator && !self.in_term && t.len() == 0
        &&& self.grouper.started() ==> t.len() >= 1 && has_right(t.last()) == self.prev_was_operator
    }

    /// The token list is a tree under construction, and the open groups
    /// are the source's, then alternately a compound term and a bracket
    /// group; a compound term is open exactly when the last open group is
    /// one.
    pub open spec fn tree_ok(&self) -> bool {
        let k = kinds(self.grouper.open_expressions@);
        &&& self.grouper.tree_ok()
        &&& self.grouper.started() ==> kinds_shape(k) && self.in_term == (k.len() % 2 == 0)
    }

    /// The open bracket groups, outermost first.
    pub open spec fn open_brackets(&self) -> Seq<ExpressionBoundary> {
        brackets(kinds(self.grouper.open_expressions@))
    }

    /// The source's open token was emitted and its close token not yet.
    pub open spec fn started(&self) -> bool {
        self.grouper.started()
    }

    pub open spec fn budget(&self) -> int {
        self.grouper.budget()
    }

    /// The AST being built.
    pub open spec fn spec_ast(&self) -> Ast {
        self.grouper.binder.ast
    }

    /// A tokenizer over a fresh AST.
    pub fn new(ast: Ast) -> (tokenizer: Tokenizer)
        requires
            ast.wf(),
            ast.tokens@.len() == 0,
            ast.blocks@.len() == 0,
            fields_named(&ast),
            interned(&ast.identifiers).len() >= WELL_KNOWN_COUNT,
        ensures
            tokenizer.tree_ok(),
            tokenizer.wf(),
            !tokenizer.started(),
            !tokenizer.in_term,
            tokenizer.prev_was_operator,
            tokenizer.at_line_start,
            tokenizer.grouper.received@ == Seq::<(Token, ByteRange)>::empty(),
            tokenizer.spec_ast().tokens@.len() == 0,
            tokenizer.spec_ast().token_ranges == ast.token_ranges,
            tokenizer.grouper.open_expressions@.len() == 0,
            forall|k: int| 0 <= k < tokenizer.grouper.binder.scope@.len() ==> tokenizer.grouper.binder.scope@[k] == k,
            tokenizer.grouper.binder.scope@.len() == ast.fields@.len(),
            tokenizer.grouper.binder.ast.fields == ast.fields,
            tokenizer.grouper.binder.ast.blocks@ == seq![
                AstBlock {
                    boundary: ExpressionBoundary::Root,
                    parent: 0,
                    scope_start: ast.fields@.len() as usize,
                    scope_count: 0,
                    delta: 0,
                },
            ],
            tokenizer.grouper.binder.open_scopes@ == seq![OpenScope { open_index: 0, index: 0, scope_start: ast.fields@.len() as usize }],
            tokenizer.grouper.binder.ast.literals == ast.literals,
            tokenizer.grouper.binder.ast.raw_literals == ast.raw_literals,
            tokenizer.budget() == 0,
            tokenizer.spec_ast().source_open_error == ast.source_open_error,
            tokenizer.spec_ast().char_data == ast.char_data,
            tokenizer.spec_ast().identifiers == ast.identifiers,
    {
        proof {
            lemma_tree_inv_empty();
        }
        let tokenizer = Tokenizer {
            grouper: Grouper::new(ast),
            in_term: false,
            prev_was_operator: true,
            at_line_start: true,
        };
        proof {
            assert(tokenizer.grouper.binder.ast.tokens@ =~= Seq::<Token>::empty());
            assert(tokenizer.grouper.open_expressions@ =~= Seq::<crate::grouper::OpenExpression>::empty());
        }
        tokenizer
    }

    pub fn ast(&self) -> (ast: &Ast)
        ensures
            *ast == self.spec_ast(),
    {
        &self.grouper.binder.ast
    }

    pub fn ast_mut(&mut self) -> (ast: &mut Ast)
        ensures
            *ast == old(self).spec_ast(),
            final(self).grouper.binder.ast == *final(ast),
            final(self).grouper.binder.open_scopes == old(self).grouper.binder.open_scopes,
            final(self).grouper.binder.scope == old(self).grouper.binder.scope,
            final(self).grouper.open_expressions == old(self).grouper.open_expressions,
            final(self).in_term == old(self).in_term,
            final(self).prev_was_operator == old(self).prev_was_operator,
            final(self).at_line_start == old(self).at_line_start,
            final(self).grouper.received == old(self).grouper.received,
    {
        &mut self.grouper.binder.ast
    }

    /// The boundary error of the source group: set when the source could
    /// not be read.
    fn source_error(&self) -> (error: Option<ExpressionBoundaryError>)
        ensures
            error == if self.spec_ast().source_open_error is Some {
                Some(ExpressionBoundaryError::OpenError)
            } else {
                None::<ExpressionBoundaryError>
            },
    {
        if self.grouper.binder.ast.source_open_error.is_some() {
            Some(ExpressionBoundaryError::OpenError)
        } else {
            None
        }
    }

    /// The start of the source: emits the source's open token.
    pub fn on_source_start(&mut self, start: ByteIndex)
        requires
            old(self).wf(),
            !old(self).started(),
            old(self).budget() + 12 <= usize::MAX,
        ensures
            final(self).grouper.received@ == old(self).grouper.received@ + seq![
                (
                    Token::Expression(
                        ExpressionToken::Open {
                            boundary: ExpressionBoundary::Source,
                            delta: 0,
                            error: if old(self).spec_ast().source_open_error is Some {
                                Some(ExpressionBoundaryError::OpenError)
                            } else {
                                None
                            },
                        },
                    ),
                    at_range(start),
                ),
            ],
            forall|b: int| start <= start <= b && ranges_within(old(self).spec_ast().token_ranges@, b) ==> #[trigger] ranges_within(
                final(self).spec_ast().token_ranges@,
                b,
            ),
            final(self).spec_ast().tokens@.len() == 1,
            final(self).spec_ast().token_ranges@ == seq![ByteRange { start, end: start }],
            is_open_placeholder(
                final(self).spec_ast().tokens@[0],
                ExpressionBoundary::Source,
                if old(self).spec_ast().source_open_error is Some {
                    Some(ExpressionBoundaryError::OpenError)
                } else {
                    None
                },
                final(self).spec_ast().blocks@,
            ),
            !final(self).in_term,
            final(self).prev_was_operator,
            final(self).spec_ast().tokens@.len() >= 1,
            fix(final(self).spec_ast().tokens@.last()) == Fixity::Open,
            old(self).tree_ok() ==> (final(self).tree_ok() && final(self).open_brackets() == Seq::<ExpressionBoundary>::empty()),
            final(self).wf(),
            final(self).started(),
            final(self).budget() <= old(self).budget() + 12,
            ast_grows(&old(self).spec_ast(), &final(self).spec_ast()),
            final(self).spec_ast().source_open_error == old(self).spec_ast().source_open_error,
            final(self).spec_ast().char_data == old(self).spec_ast().char_data,
            final(self).spec_ast().identifiers == old(self).spec_ast().identifiers,
            final(self).spec_ast().literals == old(self).spec_ast().literals,
    {
        let open_token = ExpressionBoundary::Source.placeholder_open_token(self.source_error());
        let ghost s0 = self.grouper.open_expressions@;
        self.emit_expression_token(open_token, ByteRange { start, end: start });
        proof {
            assert(s0 =~= Seq::<crate::grouper::OpenExpression>::empty());
            let k = kinds(self.grouper.open_expressions@);
            assert(k =~= seq![ExpressionBoundary::Source]);
            assert(brackets(k) =~= Seq::<ExpressionBoundary>::empty());
        }
    }

    /// The end of the source closes any open term and emits the source's
    /// close token; the AST is then complete.
    pub fn on_source_end(self, end: ByteIndex) -> (ast: Ast)
        requires
            self.wf(),
            self.started(),
            self.budget() + 12 <= usize::MAX,
        ensures
            ranges_within(self.spec_ast().token_ranges@, end as int) ==> ranges_within(ast.token_ranges@, end as int),
            ast.token_ranges@.len() >= 1 && ast.token_ranges@.last() == (ByteRange { start: end, end }),
            self.tree_ok() ==> tree_wf(ast.tokens@),
            ast.tokens@.len() >= 1,
            fix(ast.tokens@.last()) == Fixity::Close,
            ast_consistent(&ast),
            ast_grows(&self.spec_ast(), &ast),
            ast.source_open_error == self.spec_ast().source_open_error,
            ast.char_data == self.spec_ast().char_data,
            ast.identifiers == self.spec_ast().identifiers,
            ast.literals == self.spec_ast().literals,
            exists|closed: Tokenizer|
                #![trigger closed.grouper.received]
                closed.grouper.received@ == self.grouper.received@ + separator_emission(
                    self,
                    OperatorToken::Close { boundary: ExpressionBoundary::Source, delta: 0, error: None },
                    at_range(end),
                ) && ast == closed.grouper.binder.ast,
    {
        let mut tokenizer = self;
        let close_token = ExpressionBoundary::Source.placeholder_close_token(None);
        tokenizer.close_term(end);
        let ghost mid = tokenizer;
        proof {
            if mid.tree_ok() {
                lemma_shape_source(kinds(mid.grouper.open_expressions@));
                lemma_closable_from_kinds(mid.grouper.open_expressions@, ExpressionBoundary::Source);
            }
        }
        tokenizer.emit_operator_token(close_token, ByteRange { start: end, end });
        proof {
            if mid.tree_ok() {
                let t = tokenizer.grouper.binder.ast.tokens@;
                assert(tokenizer.grouper.open_expressions@ =~= Seq::<crate::grouper::OpenExpression>::empty());
                lemma_complete(t);
            }
        }
        let ghost closed = tokenizer;
        proof {
            assert(closed.grouper.received@ =~= self.grouper.received@ + separator_emission(
                self,
                OperatorToken::Close { boundary: ExpressionBoundary::Source, delta: 0, error: None },
                at_range(end),
            ));
        }
        tokenizer.grouper.on_source_end()
    }

    /// A token inside a compound term (no space before it); starts the term
    /// if none is open.
    pub fn on_term_token(&mut self, token: ExpressionToken, range: ByteRange)
        requires
            old(self).wf(),
            old(self).started(),
            old(self).budget() + 12 <= usize::MAX,
            is_term_input(token),
            old(self).spec_ast().token_refs_valid(Token::Expression(token)),
        ensures
            final(self).grouper.received@ == old(self).grouper.received@ + term_token_emission(*old(self), token, range),
            forall|b: int| range.start <= range.end <= b && ranges_within(old(self).spec_ast().token_ranges@, b) ==> #[trigger] ranges_within(
                final(self).spec_ast().token_ranges@,
                b,
            ),
            !old(self).prev_was_operator ==> final(self).spec_ast().tokens@.len() >= 2 && final(self).spec_ast().tokens@[final(self).spec_ast().tokens@.len() - 2] == joining_operator(old(self).at_line_start),
            final(self).prev_was_operator == has_right(Token::Expression(token)),
            !final(self).at_line_start,
            bound_form(token, final(self).spec_ast().tokens@.last(), final(self).spec_ast().fields@),
            final(self).spec_ast().token_ranges@.last() == range,
            final(self).in_term,
            old(self).tree_ok() ==> (final(self).tree_ok() && final(self).open_brackets() == old(self).open_brackets()),
            final(self).wf(),
            final(self).started(),
            final(self).budget() <= old(self).budget() + 12,
            ast_grows(&old(self).spec_ast(), &final(self).spec_ast()),
            final(self).spec_ast().source_open_error == old(self).spec_ast().source_open_error,
            final(self).spec_ast().char_data == old(self).spec_ast().char_data,
            final(self).spec_ast().identifiers == old(self).spec_ast().identifiers,
            final(self).spec_ast().literals == old(self).spec_ast().literals,
    {
        let ghost start = self.spec_ast();
        self.open_term(range.start);
        proof {
            crate::binder::lemma_token_refs_grow(&start, &self.spec_ast(), Token::Expression(token));
        }
        self.emit_expression_token(token, range);
        proof {
            assert(self.grouper.received@ =~= old(self).grouper.received@ + term_token_emission(*old(self), token, range));
        }
    }

    /// An operator inside a compound term; starts the term if none is open.
    pub fn on_term_operator_token(&mut self, token: OperatorToken, range: ByteRange)
        requires
            old(self).wf(),
            old(self).started(),
            old(self).budget() + 12 <= usize::MAX,
            is_operator_input(token),
            old(self).spec_ast().token_refs_valid(Token::Operator(token)),
        ensures
            final(self).grouper.received@ == old(self).grouper.received@ + term_operator_emission(*old(self), token, range),
            forall|b: int| range.start <= range.end <= b && ranges_within(old(self).spec_ast().token_ranges@, b) ==> #[trigger] ranges_within(
                final(self).spec_ast().token_ranges@,
                b,
            ),
            final(self).prev_was_operator == has_right(Token::Operator(token)),
            !final(self).at_line_start,
            final(self).spec_ast().tokens@.last() == Token::Operator(token),
            final(self).spec_ast().token_ranges@.last() == range,
            final(self).in_term,
            old(self).tree_ok() ==> (final(self).tree_ok() && final(self).open_brackets() == old(self).open_brackets()),
            final(self).wf(),
            final(self).started(),
            final(self).budget() <= old(self).budget() + 12,
            ast_grows(&old(self).spec_ast(), &final(self).spec_ast()),
            final(self).spec_ast().source_open_error == old(self).spec_ast().source_open_error,
            final(self).spec_ast().char_data == old(self).spec_ast().char_data,
            final(self).spec_ast().identifiers == old(self).spec_ast().identifiers,
            final(self).spec_ast().literals == old(self).spec_ast().literals,
    {
        let ghost start = self.spec_ast();
        self.open_term(range.start);
        proof {
            crate::binder::lemma_token_refs_grow(&start, &self.spec_ast(), Token::Operator(token));
        }
        self.emit_operator_token(token, range);
        proof {
            assert(self.grouper.received@ =~= old(self).grouper.received@ + term_operator_emission(*old(self), token, range));
        }
    }

    /// Space closes the open term.
    pub fn on_space(&mut self, range: ByteRange)
        requires
            old(self).wf(),
            old(self).started(),
            old(self).budget() + 12 <= usize::MAX,
        ensures
            final(self).grouper.received@ == old(self).grouper.received@ + break_emission(*old(self), range.start),
            forall|b: int| range.start <= range.end <= b && ranges_within(old(self).spec_ast().token_ranges@, b) ==> #[trigger] ranges_within(
                final(self).spec_ast().token_ranges@,
                b,
            ),
            !old(self).in_term ==> *final(self) == *old(self),
            !final(self).in_term,
            old(self).tree_ok() ==> (final(self).tree_ok() && final(self).open_brackets() == old(self).open_brackets()),
            final(self).wf(),
            final(self).started(),
            final(self).budget() <= old(self).budget() + 12,
            ast_grows(&old(self).spec_ast(), &final(self).spec_ast()),
            final(self).spec_ast().source_open_error == old(self).spec_ast().source_open_error,
            final(self).spec_ast().char_data == old(self).spec_ast().char_data,
            final(self).spec_ast().identifiers == old(self).spec_ast().identifiers,
            final(self).spec_ast().literals == old(self).spec_ast().literals,
    {
        self.close_term(range.start);
    }

    /// A comment closes the open term (there are no comments inside a
    /// term).
    pub fn on_comment(&mut self, range: ByteRange)
        requires
            old(self).wf(),
            old(self).started(),
            old(self).budget() + 12 <= usize::MAX,
        ensures
            final(self).grouper.received@ == old(self).grouper.received@ + break_emission(*old(self), range.start),
            forall|b: int| range.start <= range.end <= b && ranges_within(old(self).spec_ast().token_ranges@, b) ==> #[trigger] ranges_within(
                final(self).spec_ast().token_ranges@,
                b,
            ),
            !old(self).in_term ==> *final(self) == *old(self),
            !final(self).in_term,
            old(self).tree_ok() ==> (final(self).tree_ok() && final(self).open_brackets() == old(self).open_brackets()),
            final(self).wf(),
            final(self).started(),
            final(self).budget() <= old(self).budget() + 12,
            ast_grows(&old(self).spec_ast(), &final(self).spec_ast()),
            final(self).spec_ast().source_open_error == old(self).spec_ast().source_open_error,
            final(self).spec_ast().char_data == old(self).spec_ast().char_data,
            final(self).spec_ast().identifiers == old(self).spec_ast().identifiers,
            final(self).spec_ast().literals == old(self).spec_ast().literals,
    {
        self.close_term(range.start);
    }

    /// A line ending closes the open term; an operand that starts the next
    /// line is joined to the previous one by a newline sequence.
    pub fn on_line_ending(&mut self, range: ByteRange)
        requires
            old(self).wf(),
            old(self).started(),
            old(self).budget() + 12 <= usize::MAX,
        ensures
            final(self).grouper.received@ == old(self).grouper.received@ + break_emission(*old(self), range.start),
            forall|b: int| range.start <= range.end <= b && ranges_within(old(self).spec_ast().token_ranges@, b) ==> #[trigger] ranges_within(
                final(self).spec_ast().token_ranges@,
                b,
            ),
            !old(self).in_term ==> *final(self) == (Tokenizer { at_line_start: true, ..*old(self) }),
            !final(self).in_term,
            final(self).at_line_start,
            old(self).tree_ok() ==> (final(self).tree_ok() && final(self).open_brackets() == old(self).open_brackets()),
            final(self).wf(),
            final(self).started(),
            final(self).budget() <= old(self).budget() + 12,
            ast_grows(&old(self).spec_ast(), &final(self).spec_ast()),
            final(self).spec_ast().source_open_error == old(self).spec_ast().source_open_error,
            final(self).spec_ast().char_data == old(self).spec_ast().char_data,
            final(self).spec_ast().identifiers == old(self).spec_ast().identifiers,
            final(self).spec_ast().literals == old(self).spec_ast().literals,
    {
        self.close_term(range.start);
        self.at_line_start = true;
    }

    /// A non-blank line starts at `start` with `indent` bytes of
    /// indentation, the first `matching_indent` of which match the previous
    /// line's. Indentation does not change the token stream.
    pub fn on_line_start(&mut self, start: ByteIndex, indent: usize, matching_indent: usize)
        ensures
            *final(self) == *old(self),
    {
    }

    /// A line is more indented than the one before. Indentation does not
    /// change the token stream.
    pub fn on_indent(&mut self, indent: usize, indented_from: usize)
        ensures
            *final(self) == *old(self),
    {
    }

    /// A line is less indented than the one before. Indentation does not
    /// change the token stream.
    pub fn on_undent(&mut self, indent: usize, undented_from: usize)
        ensures
            *final(self) == *old(self),
    {
    }

    /// A line's indentation differs from the one before in its characters.
    /// Indentation does not change the token stream.
    pub fn on_indent_mismatch(&mut self, indent: usize, mismatch_at: usize)
        ensures
            *final(self) == *old(self),
    {
    }

    /// `(` or `{`: opens a term if none is open, then the group; inside the
    /// group a new term will start.
    pub fn on_open(&mut self, boundary: ExpressionBoundary, range: ByteRange)
        requires
            old(self).wf(),
            old(self).started(),
            old(self).budget() + 12 <= usize::MAX,
            is_bracket(boundary),
        ensures
            final(self).grouper.received@ == old(self).grouper.received@ + term_token_emission(
                *old(self),
                ExpressionToken::Open { boundary, delta: 0, error: None },
                range,
            ),
            forall|b: int| range.start <= range.end <= b && ranges_within(old(self).spec_ast().token_ranges@, b) ==> #[trigger] ranges_within(
                final(self).spec_ast().token_ranges@,
                b,
            ),
            final(self).prev_was_operator,
            !final(self).at_line_start,
            final(self).spec_ast().tokens@.len() >= 1,
            fix(final(self).spec_ast().tokens@.last()) == Fixity::Open,
            !final(self).in_term,
            old(self).tree_ok() ==> (final(self).tree_ok() && final(self).open_brackets() == old(self).open_brackets().push(boundary)),
            final(self).wf(),
            final(self).started(),
            final(self).budget() <= old(self).budget() + 12,
            ast_grows(&old(self).spec_ast(), &final(self).spec_ast()),
            final(self).spec_ast().source_open_error == old(self).spec_ast().source_open_error,
            final(self).spec_ast().char_data == old(self).spec_ast().char_data,
            final(self).spec_ast().identifiers == old(self).spec_ast().identifiers,
            final(self).spec_ast().literals == old(self).spec_ast().literals,
    {
        self.open_term(range.start);
        let ghost k = kinds(self.grouper.open_expressions@);
        self.emit_expression_token(boundary.placeholder_open_token(None), range);
        self.in_term = false;
        proof {
            if old(self).tree_ok() {
                let k2 = kinds(self.grouper.open_expressions@);
                assert(k2 == k.push(boundary));
                assert(brackets(k2) =~= brackets(k).push(boundary));
            }
        }
        proof {
            assert(self.grouper.received@ =~= old(self).grouper.received@ + term_token_emission(*old(self), ExpressionToken::Open { boundary, delta: 0, error: None }, range));
        }
    }

    /// `)` or `}`: closes the term inside the group, then the group; after
    /// it the outer term goes on.
    pub fn on_close(&mut self, boundary: ExpressionBoundary, range: ByteRange)
        requires
            old(self).wf(),
            old(self).started(),
            old(self).budget() + 12 <= usize::MAX,
            is_bracket(boundary),
        ensures
            final(self).grouper.received@ == old(self).grouper.received@ + separator_emission(
                *old(self),
                OperatorToken::Close { boundary, delta: 0, error: None },
                range,
            ),
            final(self).spec_ast().token_ranges@.len() >= 1 && final(self).spec_ast().token_ranges@.last() == range,
            forall|b: int| range.start <= range.end <= b && ranges_within(old(self).spec_ast().token_ranges@, b) ==> #[trigger] ranges_within(
                final(self).spec_ast().token_ranges@,
                b,
            ),
            !final(self).prev_was_operator,
            !final(self).at_line_start,
            final(self).spec_ast().tokens@.len() >= 1,
            fix(final(self).spec_ast().tokens@.last()) == Fixity::Close,
            final(self).in_term,
            (old(self).tree_ok() && close_ok(old(self).open_brackets(), boundary)) ==> (final(self).tree_ok()
                && final(self).open_brackets() == pop_to(old(self).open_brackets(), boundary)),
            final(self).wf(),
            final(self).started(),
            final(self).budget() <= old(self).budget() + 12,
            ast_grows(&old(self).spec_ast(), &final(self).spec_ast()),
            final(self).spec_ast().source_open_error == old(self).spec_ast().source_open_error,
            final(self).spec_ast().char_data == old(self).spec_ast().char_data,
            final(self).spec_ast().identifiers == old(self).spec_ast().identifiers,
            final(self).spec_ast().literals == old(self).spec_ast().literals,
    {
        let token = boundary.placeholder_close_token(None);
        self.close_term(range.start);
        let ghost k = kinds(self.grouper.open_expressions@);
        proof {
            if old(self).tree_ok() && close_ok(old(self).open_brackets(), boundary) {
                lemma_shape_close(k, boundary);
                lemma_closable_from_kinds(self.grouper.open_expressions@, boundary);
            }
        }
        self.emit_operator_token(token, range);
        self.in_term = true;
        proof {
            assert(self.grouper.received@ =~= old(self).grouper.received@ + separator_emission(*old(self), OperatorToken::Close { boundary, delta: 0, error: None }, range));
        }
    }

    /// `;`, `,`, `:` or an infix operator with space around it: closes the
    /// term before it; a new term starts after it.
    pub fn on_separator(&mut self, token: OperatorToken, range: ByteRange)
        requires
            old(self).wf(),
            old(self).started(),
            old(self).budget() + 12 <= usize::MAX,
            is_operator_input(token),
            old(self).spec_ast().token_refs_valid(Token::Operator(token)),
        ensures
            final(self).grouper.received@ == old(self).grouper.received@ + separator_emission(*old(self), token, range),
            forall|b: int| range.start <= range.end <= b && ranges_within(old(self).spec_ast().token_ranges@, b) ==> #[trigger] ranges_within(
                final(self).spec_ast().token_ranges@,
                b,
            ),
            final(self).prev_was_operator == has_right(Token::Operator(token)),
            !final(self).at_line_start,
            final(self).spec_ast().tokens@.last() == Token::Operator(token),
            final(self).spec_ast().token_ranges@.last() == range,
            !final(self).in_term,
            old(self).tree_ok() ==> (final(self).tree_ok() && final(self).open_brackets() == old(self).open_brackets()),
            final(self).wf(),
            final(self).started(),
            final(self).budget() <= old(self).budget() + 12,
            ast_grows(&old(self).spec_ast(), &final(self).spec_ast()),
            final(self).spec_ast().source_open_error == old(self).spec_ast().source_open_error,
            final(self).spec_ast().char_data == old(self).spec_ast().char_data,
            final(self).spec_ast().identifiers == old(self).spec_ast().identifiers,
            final(self).spec_ast().literals == old(self).spec_ast().literals,
    {
        let ghost start = self.spec_ast();
        self.close_term(range.start);
        proof {
            crate::binder::lemma_token_refs_grow(&start, &self.spec_ast(), Token::Operator(token));
        }
        self.emit_operator_token(token, range);
        proof {
            assert(self.grouper.received@ =~= old(self).grouper.received@ + separator_emission(*old(self), token, range));
        }
    }

    /// Opens a compound term at `index` unless one is open.
    fn open_term(&mut self, index: ByteIndex)
        requires
            old(self).wf(),
            old(self).started(),
            old(self).budget() + 12 <= usize::MAX,
        ensures
            forall|b: int| index <= index <= b && ranges_within(old(self).spec_ast().token_ranges@, b) ==> #[trigger] ranges_within(
                final(self).spec_ast().token_ranges@,
                b,
            ),
            old(self).in_term ==> *final(self) == *old(self),
            final(self).grouper.received@ == old(self).grouper.received@ + open_term_emission(
                old(self).in_term,
                old(self).prev_was_operator,
                old(self).at_line_start,
                index,
            ),
            !old(self).in_term ==> final(self).prev_was_operator && !final(self).at_line_start,
            !old(self).in_term && old(self).prev_was_operator ==> final(self).spec_ast().tokens@ == old(self).spec_ast().tokens@,
            !old(self).in_term && !old(self).prev_was_operator ==> final(self).spec_ast().tokens@.len() >= 1
                && final(self).spec_ast().tokens@.last() == joining_operator(old(self).at_line_start),
            old(self).tree_ok() ==> (final(self).tree_ok() && final(self).open_brackets() == old(self).open_brackets()),
            final(self).wf(),
            final(self).started(),
            final(self).in_term,
            final(self).budget() <= old(self).budget() + 6,
            ast_grows(&old(self).spec_ast(), &final(self).spec_ast()),
            final(self).spec_ast().source_open_error == old(self).spec_ast().source_open_error,
            final(self).spec_ast().char_data == old(self).spec_ast().char_data,
            final(self).spec_ast().identifiers == old(self).spec_ast().identifiers,
            final(self).spec_ast().literals == old(self).spec_ast().literals,
    {
        if !self.in_term {
            let ghost k = kinds(self.grouper.open_expressions@);
            let open_token = ExpressionBoundary::CompoundTerm.placeholder_open_token(None);
            self.emit_expression_token(open_token, ByteRange { start: index, end: index });
            self.in_term = true;
            proof {
                if old(self).tree_ok() {
                    let k2 = kinds(self.grouper.open_expressions@);
                    assert(k2 == k.push(ExpressionBoundary::CompoundTerm));
                    assert(brackets(k2) =~= brackets(k));
                }
            }
        }
    }

    /// Closes the open compound term, if any, at `index`.
    fn close_term(&mut self, index: ByteIndex)
        requires
            old(self).wf(),
            old(self).started(),
            old(self).budget() + 12 <= usize::MAX,
        ensures
            forall|b: int| index <= index <= b && ranges_within(old(self).spec_ast().token_ranges@, b) ==> #[trigger] ranges_within(
                final(self).spec_ast().token_ranges@,
                b,
            ),
            !old(self).in_term ==> *final(self) == *old(self),
            final(self).grouper.received@ == old(self).grouper.received@ + close_term_emission(old(self).in_term, old(self).prev_was_operator, index),
            old(self).in_term ==> !final(self).prev_was_operator && !final(self).at_line_start,
            old(self).tree_ok() ==> (final(self).tree_ok() && final(self).open_brackets() == old(self).open_brackets()),
            final(self).wf(),
            final(self).started(),
            !final(self).in_term,
            final(self).budget() <= old(self).budget() + 6,
            ast_grows(&old(self).spec_ast(), &final(self).spec_ast()),
            final(self).spec_ast().source_open_error == old(self).spec_ast().source_open_error,
            final(self).spec_ast().char_data == old(self).spec_ast().char_data,
            final(self).spec_ast().identifiers == old(self).spec_ast().identifiers,
            final(self).spec_ast().literals == old(self).spec_ast().literals,
    {
        if self.in_term {
            let ghost k = kinds(self.grouper.open_expressions@);
            proof {
                if old(self).tree_ok() {
                    assert(k.last() == ExpressionBoundary::CompoundTerm);
                    lemma_closable_from_kinds(self.grouper.open_expressions@, ExpressionBoundary::CompoundTerm);
                }
            }
            self.in_term = false;
            let close_token = ExpressionBoundary::CompoundTerm.placeholder_close_token(None);
            self.emit_operator_token(close_token, ByteRange { start: index, end: index });
            proof {
                if old(self).tree_ok() {
                    let k2 = kinds(self.grouper.open_expressions@);
                    assert(k2 == k.drop_last());
                    assert(brackets(k2) =~= brackets(k));
                }
            }
        }
    }

    /// Emits an expression token; after an operand, an "apply" (or at the
    /// start of a line, a "newline sequence") operator comes first.
    fn emit_expression_token(&mut self, token: ExpressionToken, range: ByteRange)
        requires
            token matches ExpressionToken::Open { boundary, .. } ==> boundary != ExpressionBoundary::AutoBlock,
            old(self).wf(),
            old(self).budget() + 6 <= usize::MAX,
            !(token is OpenBlock) && !(token is FieldReference),
            token matches ExpressionToken::Open { boundary, .. } ==> boundary != ExpressionBoundary::PrecedenceGroup
                && boundary != ExpressionBoundary::Root,
            old(self).spec_ast().token_refs_valid(Token::Expression(token)),
            (token matches ExpressionToken::Open { boundary, .. } && boundary == ExpressionBoundary::Source) <==> !old(self).started(),
        ensures
            forall|b: int| range.start <= range.end <= b && ranges_within(old(self).spec_ast().token_ranges@, b) ==> #[trigger] ranges_within(
                final(self).spec_ast().token_ranges@,
                b,
            ),
            old(self).prev_was_operator && opens_tokened_group(token) ==> {
                &&& final(self).spec_ast().tokens@.len() == old(self).spec_ast().tokens@.len() + 1
                &&& final(self).spec_ast().tokens@.take(old(self).spec_ast().tokens@.len() as int) == old(self).spec_ast().tokens@
                &&& final(self).spec_ast().token_ranges@.last() == range
                &&& is_open_placeholder(
                    final(self).spec_ast().tokens@.last(),
                    token->Open_boundary,
                    token->Open_error,
                    final(self).spec_ast().blocks@,
                )
            },
            kinds(final(self).grouper.open_expressions@) == match token {
                ExpressionToken::Open { boundary, .. } => kinds(old(self).grouper.open_expressions@).push(boundary),
                _ => kinds(old(self).grouper.open_expressions@),
            },
            old(self).grouper.tree_ok() ==> final(self).grouper.tree_ok(),
            !old(self).prev_was_operator && !(token is Open) ==> final(self).spec_ast().tokens@.len() >= 2
                && final(self).spec_ast().tokens@[final(self).spec_ast().tokens@.len() - 2] == joining_operator(old(self).at_line_start),
            !old(self).prev_was_operator && opens_tokenless_group(token)
                ==> final(self).spec_ast().tokens@.len() >= 1 && final(self).spec_ast().tokens@.last() == joining_operator(old(self).at_line_start),
            old(self).prev_was_operator && !(token is Open) ==> final(self).spec_ast().tokens@.len() == old(self).spec_ast().tokens@.len() + 1
                && final(self).spec_ast().tokens@.take(old(self).spec_ast().tokens@.len() as int) == old(self).spec_ast().tokens@,
            old(self).prev_was_operator && opens_tokenless_group(token)
                ==> final(self).spec_ast().tokens@ == old(self).spec_ast().tokens@,
            final(self).grouper.received@ == old(self).grouper.received@ + expression_emission(
                old(self).prev_was_operator,
                old(self).at_line_start,
                token,
                range,
            ),
            final(self).prev_was_operator == has_right(Token::Expression(token)),
            !final(self).at_line_start,
            !(token is Open) ==> bound_form(token, final(self).spec_ast().tokens@.last(), final(self).spec_ast().fields@)
                && final(self).spec_ast().token_ranges@.last() == range,
            token matches ExpressionToken::Open { boundary, .. } && spec_is_required(boundary) ==> final(self).spec_ast().tokens@.len() >= 1
                && fix(final(self).spec_ast().tokens@.last()) == Fixity::Open,
            final(self).wf(),
            final(self).started(),
            final(self).in_term == old(self).in_term,
            final(self).budget() <= old(self).budget() + 6,
            ast_grows(&old(self).spec_ast(), &final(self).spec_ast()),
            final(self).spec_ast().source_open_error == old(self).spec_ast().source_open_error,
            final(self).spec_ast().char_data == old(self).spec_ast().char_data,
            final(self).spec_ast().identifiers == old(self).spec_ast().identifiers,
            final(self).spec_ast().literals == old(self).spec_ast().literals,
    {
        let ghost start = self.spec_ast();
        if !self.prev_was_operator {
            let operator = if self.at_line_start {
                IdentifierIndex(NEWLINE_SEQUENCE)
            } else {
                IdentifierIndex(APPLY)
            };
            let at = range.start;
            self.grouper.on_operator_token(OperatorToken::InfixOperator(operator), ByteRange { start: at, end: at });
        }
        proof {
            crate::binder::lemma_token_refs_grow(&start, &self.spec_ast(), Token::Expression(token));
        }
        self.grouper.on_expression_token(token, range);
        proof {
            assert(self.grouper.received@ =~= old(self).grouper.received@ + expression_emission(
                old(self).prev_was_operator,
                old(self).at_line_start,
                token,
                range,
            ));
        }
        self.prev_was_operator = token.has_right_operand();
        self.at_line_start = false;
    }

    /// Emits an operator token; after an operator, a "missing expression"
    /// operand comes first.
    fn emit_operator_token(&mut self, token: OperatorToken, range: ByteRange)
        requires
            old(self).wf(),
            old(self).started(),
            old(self).budget() + 6 <= usize::MAX,
            crate::grouper::is_grouper_input_operator(token),
            old(self).spec_ast().token_refs_valid(Token::Operator(token)),
        ensures
            closes_required_group(token) ==> final(self).spec_ast().token_ranges@.len() >= 1
                && final(self).spec_ast().token_ranges@.last() == range,
            forall|b: int| range.start <= range.end <= b && ranges_within(old(self).spec_ast().token_ranges@, b) ==> #[trigger] ranges_within(
                final(self).spec_ast().token_ranges@,
                b,
            ),
            final(self).grouper.received@ == old(self).grouper.received@ + operator_emission(old(self).prev_was_operator, token, range),
            final(self).prev_was_operator == has_right(Token::Operator(token)),
            !final(self).at_line_start,
            final(self).grouper.binder.ast.tokens@.len() >= 1,
            has_right(final(self).grouper.binder.ast.tokens@.last()) == has_right(Token::Operator(token)),
            !(token is Close) ==> final(self).spec_ast().tokens@.last() == Token::Operator(token)
                && final(self).spec_ast().token_ranges@.last() == range,
            token matches OperatorToken::Close { boundary, .. } && spec_is_required(boundary) ==> fix(
                final(self).spec_ast().tokens@.last(),
            ) == Fixity::Close,
            !(token is Close) ==> kinds(final(self).grouper.open_expressions@) == kinds(old(self).grouper.open_expressions@),
            token matches OperatorToken::Close { boundary, .. } ==> (closable(old(self).grouper.open_expressions@, boundary) ==> kinds(
                final(self).grouper.open_expressions@,
            ) == pop_to(kinds(old(self).grouper.open_expressions@), boundary)),
            (old(self).grouper.tree_ok() && (token matches OperatorToken::Close { boundary, .. } ==> closable(
                old(self).grouper.open_expressions@,
                boundary,
            ))) ==> final(self).grouper.tree_ok(),
            final(self).wf() || (token matches OperatorToken::Close { boundary, .. } && boundary == ExpressionBoundary::Source),
            final(self).grouper.wf(),
            final(self).started() <==> !(token matches OperatorToken::Close { boundary, .. } && boundary
                == ExpressionBoundary::Source),
            final(self).in_term == old(self).in_term,
            final(self).budget() <= old(self).budget() + 6,
            ast_grows(&old(self).spec_ast(), &final(self).spec_ast()),
            final(self).spec_ast().source_open_error == old(self).spec_ast().source_open_error,
            final(self).spec_ast().char_data == old(self).spec_ast().char_data,
            final(self).spec_ast().identifiers == old(self).spec_ast().identifiers,
            final(self).spec_ast().literals == old(self).spec_ast().literals,
    {
        let ghost start = self.spec_ast();
        if self.prev_was_operator {
            let at = range.start;
            self.grouper.on_expression_token(ExpressionToken::MissingExpression, ByteRange { start: at, end: at });
        }
        assert(self.grouper.open_expressions == old(self).grouper.open_expressions);
        proof {
            crate::binder::lemma_token_refs_grow(&start, &self.spec_ast(), Token::Operator(token));
        }
        self.grouper.on_operator_token(token, range);
        proof {
            assert(self.grouper.received@ =~= old(self).grouper.received@ + operator_emission(
                old(self).prev_was_operator,
                token,
                range,
            ));
        }
        self.prev_was_operator = token.has_right_operand();
        self.at_line_start = false;
    }
}

} // verus!
