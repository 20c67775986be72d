//! The last stage of the parser: it binds identifiers to fields and groups
//! with a scope to blocks, and appends the tokens to the AST.
use crate::ast::Ast;
use crate::block::{AstBlock, Field};
use crate::identifiers::{COLON, DOT, IdentifierIndex};
use crate::indices::{AstDelta, AstIndex, BlockIndex, ByteRange, FieldIndex};
use crate::interner::interned;
use crate::token::{
    ExpressionBoundary, ExpressionBoundaryError, ExpressionToken, OperatorToken, Token, spec_is_scope,
};
use crate::grouping::same_shape;
use vstd::prelude::*;

verus! {

/// A block whose close token has not been seen yet.
#[derive(Debug, Copy, Clone)]
pub struct OpenScope {
    /// Where the block's open token stands.
    pub open_index: AstIndex,
    /// The block.
    pub index: BlockIndex,
    /// Where the block's own fields start in the binder's scope list.
    pub scope_start: usize,
}

/// Binds names and blocks while tokens are appended to the AST.
pub struct Binder {
    pub ast: Ast,
    /// The blocks that are open, outermost (the root block) first.
    pub open_scopes: Vec<OpenScope>,
    /// The fields visible at the current point, in declaration order.
    pub scope: Vec<FieldIndex>,
}

/// Every field's name is an identifier of the pool.
pub open spec fn fields_named(ast: &Ast) -> bool {
    forall|f: int|
        0 <= f < ast.fields@.len() ==> ((#[trigger] ast.fields@[f]).name.0 as int) < interned(&ast.identifiers).len()
}

/// Every block's fields start at or before the end of the field list.
pub open spec fn blocks_scoped(ast: &Ast) -> bool {
    forall|b: int| 0 <= b < ast.blocks@.len() ==> (#[trigger] ast.blocks@[b]).scope_start <= ast.fields@.len()
        && ast.blocks@[b].parent <= b
}

/// The blocks after `block` is inserted at position `k`: the blocks from
/// there on move up by one, and their parent distance grows by one.
pub open spec fn blocks_after_insert(blocks: Seq<AstBlock>, k: int, block: AstBlock) -> Seq<AstBlock> {
    Seq::new(
        blocks.len() + 1,
        |i: int|
            if i < k {
                blocks[i]
            } else if i == k {
                block
            } else {
                AstBlock { parent: (blocks[i - 1].parent + 1) as usize, ..blocks[i - 1] }
            },
    )
}

/// The AST's pools and lists only grew from `old` to `new`, no field was
/// renamed and no raw literal changed.
pub open spec fn ast_grows(old: &Ast, new: &Ast) -> bool {
    &&& interned(&old.identifiers).len() <= interned(&new.identifiers).len()
    &&& interned(&old.literals).len() <= interned(&new.literals).len()
    &&& old.raw_literals@.len() <= new.raw_literals@.len()
    &&& forall|k: int| 0 <= k < old.raw_literals@.len() ==> #[trigger] new.raw_literals@[k] == old.raw_literals@[k]
    &&& old.blocks@.len() <= new.blocks@.len()
    &&& old.fields@.len() <= new.fields@.len()
    &&& forall|f: int| 0 <= f < old.fields@.len() ==> (#[trigger] new.fields@[f]).name == old.fields@[f].name
}

/// A token whose pool indices are in range stays so while the pools grow.
pub proof fn lemma_token_refs_grow(old: &Ast, new: &Ast, t: Token)
    requires
        ast_grows(old, new),
        old.token_refs_valid(t),
    ensures
        new.token_refs_valid(t),
{
    if let Token::Expression(ExpressionToken::FieldReference(f)) = t {
        assert(new.fields@[f as int].name == old.fields@[f as int].name);
    }
}

/// Tokens valid in `old` are valid in `new`.
pub proof fn lemma_tokens_refs_grow(old: &Ast, new: &Ast)
    requires
        ast_grows(old, new),
        old.tokens_refs_valid(),
        new.tokens@ == old.tokens@,
    ensures
        new.tokens_refs_valid(),
{
    assert forall|i: int| 0 <= i < new.tokens@.len() implies new.token_refs_valid(#[trigger] new.tokens@[i]) by {
        lemma_token_refs_grow(old, new, old.tokens@[i]);
    }
}

/// An expression token the binder accepts: the binder itself makes field
/// references and block open tokens.
pub open spec fn is_binder_input_expression(t: ExpressionToken) -> bool {
    !(t is FieldReference) && !(t is OpenBlock)
}

/// `last` is how the binder records the expression token `t` (other than
/// the open token of a block): an identifier as a reference to a field of
/// that name (or as itself after `.`), any other token as itself.
pub open spec fn bound_form(t: ExpressionToken, last: Token, fields: Seq<Field>) -> bool {
    match t {
        ExpressionToken::RawIdentifier(name) => last == Token::Expression(t) || (last matches Token::Expression(
            ExpressionToken::FieldReference(f),
        ) && 0 <= f < fields.len() && fields[f as int].name == name),
        _ => last == Token::Expression(t),
    }
}

/// Searching the visible fields `scope[start..i]` from the innermost (the
/// last) outwards for a field named `name`.
pub open spec fn find_in_scope(
    fields: Seq<Field>,
    scope: Seq<FieldIndex>,
    start: int,
    i: int,
    name: IdentifierIndex,
) -> Option<FieldIndex>
    decreases i,
{
    if i <= start || i <= 0 || i > scope.len() {
        None
    } else if fields[scope[i - 1] as int].name == name {
        Some(scope[i - 1])
    } else {
        find_in_scope(fields, scope, start, i - 1, name)
    }
}

/// The last token is the prefix `:`: an identifier after it declares a
/// field.
pub open spec fn follows_colon(tokens: Seq<Token>) -> bool {
    &&& tokens.len() > 0
    &&& tokens.last() matches Token::Expression(ExpressionToken::PrefixOperator(op)) && op.0 == COLON
}

/// The last token is the infix `.`: an identifier after it names a field of
/// the value before the dot, not one in scope.
pub open spec fn follows_dot(tokens: Seq<Token>) -> bool {
    &&& tokens.len() > 0
    &&& tokens.last() matches Token::Operator(OperatorToken::InfixOperator(op)) && op.0 == DOT
}

/// The field that an identifier `name` refers to: the innermost field of
/// that name among `scope[start..]`, or a new field (the next index) when
/// none is there.
pub open spec fn bound_field(fields: Seq<Field>, scope: Seq<FieldIndex>, start: int, name: IdentifierIndex) -> FieldIndex {
    match find_in_scope(fields, scope, start, scope.len() as int, name) {
        Some(f) => f,
        None => fields.len() as FieldIndex,
    }
}

/// Lookup finds the innermost field of a name: it finds a field exactly
/// when one of that name is in `scope[start..i]`, and then the last such,
/// with no field of the name after it.
pub proof fn law_lookup_finds_innermost(
    fields: Seq<Field>,
    scope: Seq<FieldIndex>,
    start: int,
    i: int,
    name: IdentifierIndex,
)
    requires
        0 <= start,
        i <= scope.len(),
        forall|k: int| 0 <= k < scope.len() ==> (#[trigger] scope[k]) < fields.len(),
    ensures
        find_in_scope(fields, scope, start, i, name) is None <==> forall|k: int| start <= k < i ==> fields[#[trigger] scope[k] as int].name != name,
        find_in_scope(fields, scope, start, i, name) matches Some(f) ==> exists|k: int|
            start <= k < i && #[trigger] scope[k] == f && fields[f as int].name == name && forall|m: int|
                k < m < i ==> fields[#[trigger] scope[m] as int].name != name,
    decreases i,
{
    if i <= start || i <= 0 {
    } else {
        law_lookup_finds_innermost(fields, scope, start, i - 1, name);
        if fields[scope[i - 1] as int].name == name {
            assert(scope[i - 1] == scope[i - 1]);
        } else {
            if let Some(f) = find_in_scope(fields, scope, start, i - 1, name) {
                let k = choose|k: int|
                    start <= k < i - 1 && #[trigger] scope[k] == f && fields[f as int].name == name && forall|m: int|
                        k < m < i - 1 ==> fields[#[trigger] scope[m] as int].name != name;
                assert forall|m: int| k < m < i implies fields[#[trigger] scope[m] as int].name != name by {
                    if m < i - 1 {
                    }
                }
            }
        }
    }
}

/// What `:` after a field reference does to the fields (`block` is the
/// current block): a field of an enclosing block is replaced, in the
/// reference, by a new public field of the same name; a field of the
/// current block becomes public. Without a field reference before it,
/// nothing changes.
pub open spec fn colon_declares(old: Ast, block: BlockIndex, new: Ast) -> bool {
    let t = old.tokens@;
    let n = t.len() as int;
    match if n > 0 { Some(t.last()) } else { None } {
        Some(Token::Expression(ExpressionToken::FieldReference(f))) => if f < old.blocks@[block as int].scope_start {
            &&& new.fields@ == old.fields@.push(Field { name: old.fields@[f as int].name, is_public: true })
            &&& new.tokens@[n - 1] == Token::Expression(ExpressionToken::FieldReference(old.fields@.len() as usize))
        } else {
            &&& new.fields@ == old.fields@.update(f as int, Field { name: old.fields@[f as int].name, is_public: true })
            &&& new.tokens@[n - 1] == t.last()
        },
        _ => new.fields@ == old.fields@ && (n > 0 ==> new.tokens@[n - 1] == t.last()),
    }
}

/// The blocks after the innermost open block closes with distance `delta`:
/// it holds the fields declared since it started.
pub open spec fn closed_blocks(old: Seq<AstBlock>, index: BlockIndex, fields: nat, delta: AstDelta) -> Seq<AstBlock> {
    old.update(
        index as int,
        AstBlock { scope_count: (fields - old[index as int].scope_start) as usize, delta, ..old[index as int] },
    )
}

/// Every range starts at or before its end, which is at or before `bound`.
pub open spec fn ranges_within(ranges: Seq<ByteRange>, bound: int) -> bool {
    forall|k: int| 0 <= k < ranges.len() ==> (#[trigger] ranges[k]).start <= ranges[k].end && ranges[k].end <= bound
}

/// Appending a range within the bound keeps the ranges within it.
pub proof fn lemma_ranges_push(ranges: Seq<ByteRange>, r: ByteRange, bound: int)
    requires
        ranges_within(ranges, bound),
        r.start <= r.end <= bound,
    ensures
        ranges_within(ranges.push(r), bound),
{
    assert forall|k: int| 0 <= k < ranges.push(r).len() implies (#[trigger] ranges.push(r)[k]).start <= ranges.push(r)[k].end
        && ranges.push(r)[k].end <= bound by {
        if k < ranges.len() {
            assert(ranges.push(r)[k] == ranges[k]);
        }
    }
}

/// Inserting a range within the bound keeps the ranges within it.
pub proof fn lemma_ranges_insert(ranges: Seq<ByteRange>, i: int, r: ByteRange, bound: int)
    requires
        ranges_within(ranges, bound),
        0 <= i <= ranges.len(),
        r.start <= r.end <= bound,
    ensures
        ranges_within(ranges.insert(i, r), bound),
{
    let n = ranges.insert(i, r);
    assert forall|k: int| 0 <= k < n.len() implies (#[trigger] n[k]).start <= n[k].end && n[k].end <= bound by {
        if k < i {
            assert(n[k] == ranges[k]);
        } else if k > i {
            assert(n[k] == ranges[k - 1]);
        }
    }
}

/// An operator token the binder accepts: the binder itself makes block
/// close tokens.
pub open spec fn is_binder_input_operator(t: OperatorToken) -> bool {
    !(t is CloseBlock)
}

/// The AST part of the binder's state is consistent.
pub open spec fn ast_consistent(ast: &Ast) -> bool {
    &&& ast.wf()
    &&& ast.tokens_refs_valid()
    &&& fields_named(ast)
    &&& blocks_scoped(ast)
}

/// Whether a token opens a block.
pub open spec fn opens_block(t: ExpressionToken) -> bool {
    t matches ExpressionToken::Open { boundary, .. } && spec_is_scope(boundary)
}

/// Whether a token closes a block.
pub open spec fn closes_block(t: OperatorToken) -> bool {
    t matches OperatorToken::Close { boundary, .. } && spec_is_scope(boundary)
}

/// `t` is the open token of a block of the given kind.
pub open spec fn is_block_open_for(
    t: Token,
    delta: AstDelta,
    boundary: ExpressionBoundary,
    error: Option<ExpressionBoundaryError>,
    blocks: Seq<AstBlock>,
) -> bool {
    match t {
        Token::Expression(ExpressionToken::OpenBlock { delta: d, index, error: e }) => d == delta && e == error
            && index < blocks.len() && blocks[index as int].boundary == boundary,
        _ => false,
    }
}

/// `t` is the close token of a block.
pub open spec fn is_block_close_for(t: Token, delta: AstDelta, error: Option<ExpressionBoundaryError>) -> bool {
    match t {
        Token::Operator(OperatorToken::CloseBlock { delta: d, error: e, .. }) => d == delta && e == error,
        _ => false,
    }
}

impl Binder {
    pub open spec fn wf(&self) -> bool {
        &&& ast_consistent(&self.ast)
        &&& self.open_scopes@.len() >= 1
        &&& forall|i: int|
            0 <= i < self.open_scopes@.len() ==> (#[trigger] self.open_scopes@[i]).index < self.ast.blocks@.len()
        &&& forall|i: int| 0 <= i < self.scope@.len() ==> (#[trigger] self.scope@[i]) < self.ast.fields@.len()
    }

    /// A binder over a fresh AST: the AST's fields (the root's) are in
    /// scope and the root block is open.
    pub fn new(ast: Ast) -> (binder: Binder)
        requires
            ast.wf(),
            ast.tokens@.len() == 0,
            ast.blocks@.len() == 0,
            fields_named(&ast),
        ensures
            binder.wf(),
            binder.open_scopes@.len() == 1,
            binder.ast.tokens@.len() == 0,
            binder.ast.source_open_error == ast.source_open_error,
            binder.ast.char_data == ast.char_data,
            binder.ast.identifiers == ast.identifiers,
            binder.ast.fields == ast.fields,
            binder.ast.blocks@.len() == 1,
            binder.scope@.len() == ast.fields@.len(),
            forall|k: int| 0 <= k < binder.scope@.len() ==> binder.scope@[k] == k,
            binder.ast.blocks@ == seq![
                AstBlock {
                    boundary: ExpressionBoundary::Root,
                    parent: 0,
                    scope_start: ast.fields@.len() as usize,
                    scope_count: 0,
                    delta: 0,
                },
            ],
            binder.open_scopes@ == seq![OpenScope { open_index: 0, index: 0, scope_start: ast.fields@.len() as usize }],
            binder.ast.token_ranges == ast.token_ranges,
            binder.ast.literals == ast.literals,
            binder.ast.raw_literals == ast.raw_literals,
    {
        let mut scope: Vec<FieldIndex> = Vec::new();
        let mut i: usize = 0;
        while i < ast.fields.len()
            invariant
                i <= ast.fields@.len(),
                scope@.len() == i,
                forall|k: int| 0 <= k < i ==> scope@[k] == k,
            decreases ast.fields@.len() - i,
        {
            scope.push(i);
            i = i + 1;
        }
        let mut binder = Binder { ast, open_scopes: Vec::new(), scope };
        binder.push_open_scope_unchecked(ExpressionBoundary::Root, None);
        binder
    }

    /// The finished AST.
    pub fn on_source_end(self) -> (ast: Ast)
        ensures
            ast == self.ast,
    {
        self.ast
    }

    /// Appends an expression token: an identifier (unless it follows `.`)
    /// becomes a reference to a field, and an open token of a scope opens a
    /// block.
    pub fn push_expression_token(&mut self, token: ExpressionToken, range: ByteRange) -> (index: AstIndex)
        requires
            old(self).wf(),
            is_binder_input_expression(token),
            old(self).ast.token_refs_valid(Token::Expression(token)),
        ensures
            final(self).ast.token_ranges@ == old(self).ast.token_ranges@.push(range),
            final(self).wf(),
            index == old(self).ast.tokens@.len(),
            final(self).ast.tokens@.len() == old(self).ast.tokens@.len() + 1,
            final(self).ast.tokens@.take(index as int) == old(self).ast.tokens@,
            final(self).ast.token_ranges@.last() == range,
            final(self).ast.tokens@.last() is Expression,
            opens_block(token) <==> final(self).ast.tokens@.last() matches Token::Expression(ExpressionToken::OpenBlock { .. }),
            !opens_block(token) && !(token is RawIdentifier) ==> final(self).ast.tokens@.last() == Token::Expression(token),
            !opens_block(token) ==> bound_form(token, final(self).ast.tokens@.last(), final(self).ast.fields@),
            token is RawIdentifier && !follows_dot(old(self).ast.tokens@) ==> final(self).ast.tokens@.last()
                == Token::Expression(
                ExpressionToken::FieldReference(
                    bound_field(
                        old(self).ast.fields@,
                        old(self).scope@,
                        if follows_colon(old(self).ast.tokens@) {
                            old(self).open_scopes@.last().scope_start as int
                        } else {
                            0
                        },
                        token->RawIdentifier_0,
                    ),
                ),
            ),
            opens_block(token) ==> is_block_open_for(final(self).ast.tokens@.last(), token->Open_delta, token->Open_boundary,
                token->Open_error, final(self).ast.blocks@),
            final(self).open_scopes@.len() == old(self).open_scopes@.len() + if opens_block(token) { 1int } else { 0 },
            same_shape(final(self).ast.tokens@, old(self).ast.tokens@.push(Token::Expression(token))),
            ast_grows(&old(self).ast, &final(self).ast),
            final(self).ast.source_open_error == old(self).ast.source_open_error,
            final(self).ast.char_data == old(self).ast.char_data,
            final(self).ast.identifiers == old(self).ast.identifiers,
            final(self).ast.literals == old(self).ast.literals,
    {
        match token {
            ExpressionToken::RawIdentifier(name) => {
                let after_dot = match self.last_token() {
                    Some(Token::Operator(OperatorToken::InfixOperator(op))) => op.0 == DOT,
                    _ => false,
                };
                if after_dot {
                    self.push_plain(Token::Expression(token), range)
                } else {
                    self.push_field_reference(name, range)
                }
            },
            ExpressionToken::Open { delta, boundary, error } => {
                if boundary.is_block() {
                    let parent = self.open_block_index();
                    let index = self.push_open_scope(boundary, Some(parent));
                    let open = ExpressionToken::OpenBlock { delta, index, error };
                    self.push_plain(Token::Expression(open), range)
                } else {
                    self.push_plain(Token::Expression(token), range)
                }
            },
            _ => self.push_plain(Token::Expression(token), range),
        }
    }

    /// Appends an operator token: a close token of a scope closes the
    /// innermost block, and `:` makes the field before it a declaration.
    pub fn push_operator_token(&mut self, token: OperatorToken, range: ByteRange) -> (index: AstIndex)
        requires
            old(self).wf(),
            is_binder_input_operator(token),
            old(self).ast.token_refs_valid(Token::Operator(token)),
            closes_block(token) ==> old(self).open_scopes@.len() >= 2,
        ensures
            final(self).ast.token_ranges@ == old(self).ast.token_ranges@.push(range),
            token == OperatorToken::InfixOperator(IdentifierIndex(COLON)) ==> colon_declares(
                old(self).ast,
                old(self).open_scopes@.last().index,
                final(self).ast,
            ),
            closes_block(token) ==> final(self).ast.blocks@ == closed_blocks(
                old(self).ast.blocks@,
                old(self).open_scopes@.last().index,
                old(self).ast.fields@.len(),
                token->Close_delta,
            ) && final(self).open_scopes@ == old(self).open_scopes@.drop_last(),
            final(self).wf(),
            index == old(self).ast.tokens@.len(),
            final(self).ast.tokens@.len() == old(self).ast.tokens@.len() + 1,
            forall|i: int| 0 <= i < index && !(old(self).ast.tokens@[i] is Expression && old(self).ast.tokens@[i]->Expression_0 is FieldReference)
                ==> #[trigger] final(self).ast.tokens@[i] == old(self).ast.tokens@[i],
            forall|i: int| 0 <= i < index ==> (#[trigger] final(self).ast.tokens@[i] is Expression) == (old(self).ast.tokens@[i] is Expression),
            final(self).ast.token_ranges@.last() == range,
            final(self).ast.tokens@.last() is Operator,
            !closes_block(token) ==> final(self).ast.tokens@.last() == Token::Operator(token),
            closes_block(token) ==> is_block_close_for(final(self).ast.tokens@.last(), token->Close_delta, token->Close_error),
            final(self).open_scopes@.len() == old(self).open_scopes@.len() - if closes_block(token) { 1int } else { 0 },
            same_shape(final(self).ast.tokens@, old(self).ast.tokens@.push(Token::Operator(token))),
            ast_grows(&old(self).ast, &final(self).ast),
            final(self).ast.source_open_error == old(self).ast.source_open_error,
            final(self).ast.char_data == old(self).ast.char_data,
            final(self).ast.identifiers == old(self).ast.identifiers,
            final(self).ast.literals == old(self).ast.literals,
    {
        match token {
            OperatorToken::Close { delta, boundary, error } => {
                if boundary.is_block() {
                    let index = self.push_close_scope(delta);
                    let close = OperatorToken::CloseBlock { delta, index, error };
                    self.push_plain(Token::Operator(close), range)
                } else {
                    self.push_plain(Token::Operator(token), range)
                }
            },
            OperatorToken::InfixOperator(op) => {
                if op.0 == COLON {
                    self.push_declaration_with_default(token, range)
                } else {
                    self.push_plain(Token::Operator(token), range)
                }
            },
            _ => self.push_plain(Token::Operator(token), range),
        }
    }

    /// Inserts the open token of a group whose close token is about to be
    /// pushed; a group with a scope gets a block of its own.
    pub fn insert_open_token(
        &mut self,
        index: AstIndex,
        error: Option<ExpressionBoundaryError>,
        boundary: ExpressionBoundary,
        delta: AstDelta,
        range: ByteRange,
    )
        requires
            old(self).wf(),
            index <= old(self).ast.tokens@.len(),
        ensures
            spec_is_scope(boundary) ==> final(self).ast.blocks@ == blocks_after_insert(
                old(self).ast.blocks@,
                old(self).open_scopes@.last().index + 1,
                AstBlock {
                    boundary,
                    parent: 1,
                    scope_start: old(self).ast.blocks@[old(self).open_scopes@.last().index as int].scope_start,
                    scope_count: 0,
                    delta,
                },
            ),
            spec_is_scope(boundary) ==> final(self).open_scopes@ == old(self).open_scopes@.push(
                OpenScope {
                    open_index: index,
                    index: (old(self).open_scopes@.last().index + 1) as usize,
                    scope_start: old(self).scope@.len() as usize,
                },
            ),
            !spec_is_scope(boundary) ==> final(self).ast.blocks == old(self).ast.blocks && final(self).open_scopes == old(self).open_scopes,
            final(self).ast.fields == old(self).ast.fields,
            final(self).wf(),
            final(self).ast.tokens@.len() == old(self).ast.tokens@.len() + 1,
            !spec_is_scope(boundary) ==> final(self).ast.tokens@ == old(self).ast.tokens@.insert(
                index as int,
                Token::Expression(ExpressionToken::Open { delta, boundary, error }),
            ),
            spec_is_scope(boundary) ==> is_block_open_for(final(self).ast.tokens@[index as int], delta, boundary, error, final(self).ast.blocks@)
                && final(self).ast.tokens@ == old(self).ast.tokens@.insert(index as int, final(self).ast.tokens@[index as int]),
            final(self).ast.token_ranges@ == old(self).ast.token_ranges@.insert(index as int, range),
            final(self).open_scopes@.len() == old(self).open_scopes@.len() + if spec_is_scope(boundary) { 1int } else { 0 },
            same_shape(
                final(self).ast.tokens@,
                old(self).ast.tokens@.insert(index as int, Token::Expression(ExpressionToken::Open { delta, boundary, error })),
            ),
            ast_grows(&old(self).ast, &final(self).ast),
            final(self).ast.source_open_error == old(self).ast.source_open_error,
            final(self).ast.char_data == old(self).ast.char_data,
            final(self).ast.identifiers == old(self).ast.identifiers,
            final(self).ast.literals == old(self).ast.literals,
    {
        if boundary.is_block() {
            self.insert_open_scope(index, boundary, error, delta, range)
        } else {
            let ghost before = self.ast;
            self.ast.insert_token(index, Token::Expression(ExpressionToken::Open { delta, boundary, error }), range);
            proof {
                assert forall|i: int| 0 <= i < self.ast.tokens@.len() implies self.ast.token_refs_valid(#[trigger] self.ast.tokens@[i]) by {
                    if i < index {
                        assert(self.ast.tokens@[i] == before.tokens@[i]);
                    } else if i > index {
                        assert(self.ast.tokens@[i] == before.tokens@[i - 1]);
                    }
                }
            }
        }
    }

    /// The last token pushed, if any.
    fn last_token(&self) -> (t: Option<Token>)
        ensures
            t is Some <==> self.ast.tokens@.len() > 0,
            t matches Some(t) ==> t == self.ast.tokens@.last(),
    {
        let len = self.ast.tokens.len();
        if len > 0 {
            Some(self.ast.tokens[len - 1])
        } else {
            None
        }
    }

    /// Appends a token as it is.
    fn push_plain(&mut self, token: Token, range: ByteRange) -> (index: AstIndex)
        requires
            old(self).wf(),
            old(self).ast.token_refs_valid(token),
        ensures
            final(self).wf(),
            index == old(self).ast.tokens@.len(),
            final(self).ast.tokens@ == old(self).ast.tokens@.push(token),
            final(self).ast.token_ranges@ == old(self).ast.token_ranges@.push(range),
            final(self).ast.blocks == old(self).ast.blocks,
            final(self).ast.fields == old(self).ast.fields,
            final(self).ast.raw_literals == old(self).ast.raw_literals,
            final(self).ast.source_open_error == old(self).ast.source_open_error,
            final(self).ast.char_data == old(self).ast.char_data,
            final(self).ast.identifiers == old(self).ast.identifiers,
            final(self).ast.literals == old(self).ast.literals,
            final(self).open_scopes == old(self).open_scopes,
            final(self).scope == old(self).scope,
    {
        let index = self.ast.push_token(token, range);
        assert(self.ast.tokens@.last() == token);
        index
    }

    /// The innermost open block.
    fn open_block_index(&self) -> (index: BlockIndex)
        requires
            self.wf(),
        ensures
            index == self.open_scopes@.last().index,
            index < self.ast.blocks@.len(),
    {
        self.open_scopes[self.open_scopes.len() - 1].index
    }

    /// Creates a block and opens it.
    fn push_open_scope(&mut self, boundary: ExpressionBoundary, parent: Option<BlockIndex>) -> (index: BlockIndex)
        requires
            old(self).wf(),
            parent matches Some(p) ==> p < old(self).ast.blocks@.len(),
        ensures
            final(self).wf(),
            index == old(self).ast.blocks@.len(),
            final(self).ast.blocks@.len() == old(self).ast.blocks@.len() + 1,
            final(self).ast.blocks@.last().boundary == boundary,
            final(self).ast.blocks@ == old(self).ast.blocks@.push(
                AstBlock {
                    boundary,
                    parent: match parent {
                        Some(p) => (index - p) as usize,
                        None => 0usize,
                    },
                    scope_start: old(self).ast.fields@.len() as usize,
                    scope_count: 0,
                    delta: 0,
                },
            ),
            final(self).open_scopes@.len() == old(self).open_scopes@.len() + 1,
            final(self).open_scopes@ == old(self).open_scopes@.push(
                OpenScope { open_index: old(self).ast.tokens@.len() as usize, index, scope_start: old(self).scope@.len() as usize },
            ),
            final(self).ast.tokens == old(self).ast.tokens,
            final(self).ast.token_ranges == old(self).ast.token_ranges,
            final(self).ast.fields == old(self).ast.fields,
            final(self).ast.raw_literals == old(self).ast.raw_literals,
            final(self).ast.source_open_error == old(self).ast.source_open_error,
            final(self).ast.char_data == old(self).ast.char_data,
            final(self).ast.identifiers == old(self).ast.identifiers,
            final(self).ast.literals == old(self).ast.literals,
            final(self).scope == old(self).scope,
    {
        self.push_open_scope_unchecked(boundary, parent)
    }

    /// Creates a block and opens it (also when no block is open yet).
    fn push_open_scope_unchecked(&mut self, boundary: ExpressionBoundary, parent: Option<BlockIndex>) -> (index: BlockIndex)
        requires
            ast_consistent(&old(self).ast),
            forall|i: int|
                0 <= i < old(self).open_scopes@.len() ==> (#[trigger] old(self).open_scopes@[i]).index < old(self).ast.blocks@.len(),
            forall|i: int| 0 <= i < old(self).scope@.len() ==> (#[trigger] old(self).scope@[i]) < old(self).ast.fields@.len(),
            parent matches Some(p) ==> p < old(self).ast.blocks@.len(),
        ensures
            final(self).wf(),
            index == old(self).ast.blocks@.len(),
            final(self).ast.blocks@.len() == old(self).ast.blocks@.len() + 1,
            final(self).ast.blocks@.last().boundary == boundary,
            final(self).ast.blocks@ == old(self).ast.blocks@.push(
                AstBlock {
                    boundary,
                    parent: match parent {
                        Some(p) => (index - p) as usize,
                        None => 0usize,
                    },
                    scope_start: old(self).ast.fields@.len() as usize,
                    scope_count: 0,
                    delta: 0,
                },
            ),
            final(self).open_scopes@.len() == old(self).open_scopes@.len() + 1,
            final(self).open_scopes@ == old(self).open_scopes@.push(
                OpenScope { open_index: old(self).ast.tokens@.len() as usize, index, scope_start: old(self).scope@.len() as usize },
            ),
            final(self).ast.tokens == old(self).ast.tokens,
            final(self).ast.token_ranges == old(self).ast.token_ranges,
            final(self).ast.fields == old(self).ast.fields,
            final(self).ast.raw_literals == old(self).ast.raw_literals,
            final(self).ast.source_open_error == old(self).ast.source_open_error,
            final(self).ast.char_data == old(self).ast.char_data,
            final(self).ast.identifiers == old(self).ast.identifiers,
            final(self).ast.literals == old(self).ast.literals,
            final(self).scope == old(self).scope,
    {
        let index = self.ast.blocks.len();
        let parent_delta = match parent {
            Some(p) => index - p,
            None => 0,
        };
        let block = AstBlock {
            boundary,
            parent: parent_delta,
            scope_start: self.ast.fields.len(),
            scope_count: 0,
            delta: 0,
        };
        self.ast.blocks.push(block);
        let open_index = self.ast.next_index();
        let scope_start = self.scope.len();
        self.open_scopes.push(OpenScope { open_index, index, scope_start });
        proof {
            assert forall|i: int| 0 <= i < self.ast.tokens@.len() implies self.ast.token_refs_valid(#[trigger] self.ast.tokens@[i]) by {
                lemma_token_refs_grow(&old(self).ast, &self.ast, self.ast.tokens@[i]);
            }
            assert forall|b: int| 0 <= b < self.ast.blocks@.len() implies (#[trigger] self.ast.blocks@[b]).scope_start <= self.ast.fields@.len() by {
                if b < index {
                    assert(self.ast.blocks@[b] == old(self).ast.blocks@[b]);
                }
            }
            assert forall|i: int| 0 <= i < self.open_scopes@.len() implies (#[trigger] self.open_scopes@[i]).index < self.ast.blocks@.len() by {
                if i < old(self).open_scopes@.len() {
                    assert(self.open_scopes@[i] == old(self).open_scopes@[i]);
                }
            }
        }
        index
    }

    /// Closes the innermost block: records its extent and the fields in its
    /// scope, and takes its fields out of scope.
    fn push_close_scope(&mut self, delta: AstDelta) -> (index: BlockIndex)
        requires
            old(self).wf(),
            old(self).open_scopes@.len() >= 2,
        ensures
            final(self).wf(),
            index < final(self).ast.blocks@.len(),
            index == old(self).open_scopes@.last().index,
            final(self).ast.blocks@ == closed_blocks(old(self).ast.blocks@, index, old(self).ast.fields@.len(), delta),
            final(self).open_scopes@ == old(self).open_scopes@.drop_last(),
            old(self).open_scopes@.last().scope_start <= old(self).scope@.len() ==> final(self).scope@ == old(self).scope@.take(
                old(self).open_scopes@.last().scope_start as int,
            ),
            old(self).open_scopes@.last().scope_start > old(self).scope@.len() ==> final(self).scope@ == old(self).scope@,
            final(self).ast.blocks@.len() == old(self).ast.blocks@.len(),
            forall|b: int| 0 <= b < old(self).ast.blocks@.len() ==> (#[trigger] final(self).ast.blocks@[b]).boundary == old(self).ast.blocks@[b].boundary,
            final(self).open_scopes@.len() == old(self).open_scopes@.len() - 1,
            final(self).ast.tokens == old(self).ast.tokens,
            final(self).ast.token_ranges == old(self).ast.token_ranges,
            final(self).ast.fields == old(self).ast.fields,
            final(self).ast.raw_literals == old(self).ast.raw_literals,
            final(self).ast.source_open_error == old(self).ast.source_open_error,
            final(self).ast.char_data == old(self).ast.char_data,
            final(self).ast.identifiers == old(self).ast.identifiers,
            final(self).ast.literals == old(self).ast.literals,
    {
        let open_scope = self.open_scopes.pop().unwrap();
        let index = open_scope.index;
        let block = self.ast.blocks[index];
        let scope_count = self.ast.fields.len() - block.scope_start;
        self.ast.blocks.set(index, AstBlock { scope_count, delta, ..block });
        self.scope.truncate(open_scope.scope_start);
        proof {
            assert forall|i: int| 0 <= i < self.ast.tokens@.len() implies self.ast.token_refs_valid(#[trigger] self.ast.tokens@[i]) by {
                lemma_token_refs_grow(&old(self).ast, &self.ast, self.ast.tokens@[i]);
            }
            assert forall|b: int| 0 <= b < self.ast.blocks@.len() implies (#[trigger] self.ast.blocks@[b]).scope_start <= self.ast.fields@.len() by {
                assert(old(self).ast.blocks@[b].scope_start <= self.ast.fields@.len());
            }
            assert forall|i: int| 0 <= i < self.open_scopes@.len() implies (#[trigger] self.open_scopes@[i]).index < self.ast.blocks@.len() by {
                assert(self.open_scopes@[i] == old(self).open_scopes@[i]);
            }
            assert forall|i: int| 0 <= i < self.scope@.len() implies (#[trigger] self.scope@[i]) < self.ast.fields@.len() by {
                assert(self.scope@[i] == old(self).scope@[i]);
            }
        }
        index
    }

    /// Inserts the open token of a block whose close token is about to be
    /// pushed (a `}` without `{`), with a block of its own inside the
    /// innermost open block.
    fn insert_open_scope(
        &mut self,
        open_index: AstIndex,
        boundary: ExpressionBoundary,
        error: Option<ExpressionBoundaryError>,
        delta: AstDelta,
        range: ByteRange,
    )
        requires
            old(self).wf(),
            open_index <= old(self).ast.tokens@.len(),
        ensures
            final(self).ast.blocks@ == blocks_after_insert(
                old(self).ast.blocks@,
                old(self).open_scopes@.last().index + 1,
                AstBlock {
                    boundary,
                    parent: 1,
                    scope_start: old(self).ast.blocks@[old(self).open_scopes@.last().index as int].scope_start,
                    scope_count: 0,
                    delta,
                },
            ),
            final(self).open_scopes@ == old(self).open_scopes@.push(
                OpenScope {
                    open_index,
                    index: (old(self).open_scopes@.last().index + 1) as usize,
                    scope_start: old(self).scope@.len() as usize,
                },
            ),
            final(self).scope == old(self).scope,
            final(self).ast.fields == old(self).ast.fields,
            final(self).wf(),
            final(self).ast.tokens@.len() == old(self).ast.tokens@.len() + 1,
            is_block_open_for(final(self).ast.tokens@[open_index as int], delta, boundary, error, final(self).ast.blocks@),
            final(self).ast.tokens@ == old(self).ast.tokens@.insert(open_index as int, final(self).ast.tokens@[open_index as int]),
            final(self).ast.token_ranges@ == old(self).ast.token_ranges@.insert(open_index as int, range),
            final(self).open_scopes@.len() == old(self).open_scopes@.len() + 1,
            ast_grows(&old(self).ast, &final(self).ast),
            final(self).ast.source_open_error == old(self).ast.source_open_error,
            final(self).ast.char_data == old(self).ast.char_data,
            final(self).ast.identifiers == old(self).ast.identifiers,
            final(self).ast.literals == old(self).ast.literals,
    {
        let parent = self.open_block_index();
        let parent_scope_start = self.ast.blocks[parent].scope_start;
        let _count = self.ast.blocks.len();
        let index = parent + 1;
        let block = AstBlock {
            boundary,
            parent: 1,
            scope_start: parent_scope_start,
            scope_count: 0,
            delta,
        };
        let ghost old_blocks = self.ast.blocks@;
        self.ast.blocks.insert(index, block);
        // The blocks after the new one are inside it: their parent distance
        // grows by one.
        let mut i = index;
        while i < self.ast.blocks.len() - 1
            invariant
                index <= i < self.ast.blocks@.len(),
                self.ast.blocks@.len() == old_blocks.len() + 1,
                index == old(self).open_scopes@.last().index + 1,
                old_blocks == old(self).ast.blocks@,
                blocks_scoped(&old(self).ast),
                forall|j: int| 0 <= j <= i ==> #[trigger] self.ast.blocks@[j] == blocks_after_insert(old_blocks, index as int, block)[j],
                forall|j: int| i < j < self.ast.blocks@.len() ==> #[trigger] self.ast.blocks@[j] == old_blocks[j - 1],
                self.ast.fields == old(self).ast.fields,
                self.ast.tokens == old(self).ast.tokens,
                self.ast.token_ranges == old(self).ast.token_ranges,
                self.ast.identifiers == old(self).ast.identifiers,
                self.ast.literals == old(self).ast.literals,
                self.ast.raw_literals == old(self).ast.raw_literals,
                self.ast.char_data == old(self).ast.char_data,
                self.ast.source_open_error == old(self).ast.source_open_error,
                self.open_scopes == old(self).open_scopes,
                self.scope == old(self).scope,
            decreases self.ast.blocks@.len() - i,
        {
            let next = i + 1;
            let b = self.ast.blocks[next];
            proof {
                assert(old_blocks[next - 1].parent <= next - 1);
            }
            self.ast.blocks.set(next, AstBlock { parent: b.parent + 1, ..b });
            i = next;
        }
        proof {
            assert(self.ast.blocks@ =~= blocks_after_insert(old_blocks, index as int, block));
        }
        let scope_start = self.scope.len();
        self.open_scopes.push(OpenScope { open_index, index, scope_start });
        let ghost before = self.ast;
        let token = Token::Expression(ExpressionToken::OpenBlock { delta, index, error });
        self.ast.insert_token(open_index, token, range);
        proof {
            assert(self.ast.tokens@[open_index as int] == token);
            assert forall|i: int| 0 <= i < self.ast.tokens@.len() implies self.ast.token_refs_valid(#[trigger] self.ast.tokens@[i]) by {
                if i < open_index {
                    assert(self.ast.tokens@[i] == old(self).ast.tokens@[i]);
                    lemma_token_refs_grow(&old(self).ast, &self.ast, self.ast.tokens@[i]);
                } else if i > open_index {
                    assert(self.ast.tokens@[i] == old(self).ast.tokens@[i - 1]);
                    lemma_token_refs_grow(&old(self).ast, &self.ast, self.ast.tokens@[i]);
                }
            }
            assert forall|b: int| 0 <= b < self.ast.blocks@.len() implies (#[trigger] self.ast.blocks@[b]).scope_start <= self.ast.fields@.len() by {
                if b < index {
                    assert(self.ast.blocks@[b] == old(self).ast.blocks@[b]);
                }
            }
            assert forall|i: int| 0 <= i < self.open_scopes@.len() implies (#[trigger] self.open_scopes@[i]).index < self.ast.blocks@.len() by {
                if i < old(self).open_scopes@.len() {
                    assert(self.open_scopes@[i] == old(self).open_scopes@[i]);
                }
            }
        }
    }

    /// Appends a reference to the field `name` designates: the innermost
    /// visible one, or for a declaration (`:name`) the innermost one of the
    /// current block; a new field where there is none. A declared field
    /// becomes public.
    fn push_field_reference(&mut self, name: IdentifierIndex, range: ByteRange) -> (index: AstIndex)
        requires
            old(self).wf(),
            (name.0 as int) < interned(&old(self).ast.identifiers).len(),
        ensures
            final(self).ast.token_ranges@ == old(self).ast.token_ranges@.push(range),
            final(self).wf(),
            index == old(self).ast.tokens@.len(),
            final(self).ast.tokens@.len() == old(self).ast.tokens@.len() + 1,
            final(self).ast.tokens@.take(index as int) == old(self).ast.tokens@,
            final(self).ast.token_ranges@.last() == range,
            final(self).ast.tokens@.last() matches Token::Expression(ExpressionToken::FieldReference(f))
                && final(self).ast.fields@[f as int].name == name,
            final(self).ast.tokens@.last() == Token::Expression(
                ExpressionToken::FieldReference(
                    bound_field(
                        old(self).ast.fields@,
                        old(self).scope@,
                        if follows_colon(old(self).ast.tokens@) {
                            old(self).open_scopes@.last().scope_start as int
                        } else {
                            0
                        },
                        name,
                    ),
                ),
            ),
            final(self).open_scopes@.len() == old(self).open_scopes@.len(),
            ast_grows(&old(self).ast, &final(self).ast),
            final(self).ast.blocks == old(self).ast.blocks,
            final(self).ast.source_open_error == old(self).ast.source_open_error,
            final(self).ast.char_data == old(self).ast.char_data,
            final(self).ast.identifiers == old(self).ast.identifiers,
            final(self).ast.literals == old(self).ast.literals,
    {
        let is_declaration = match self.last_token() {
            Some(Token::Expression(ExpressionToken::PrefixOperator(op))) => op.0 == COLON,
            _ => false,
        };
        let field = match self.find_field(name, is_declaration) {
            Some(field) => field,
            None => self.create_field(name, is_declaration),
        };
        if is_declaration {
            self.make_public(field);
        }
        let ghost before = self.ast;
        let index = self.push_plain(Token::Expression(ExpressionToken::FieldReference(field)), range);
        index
    }

    /// The innermost field in scope named `name`: among all visible fields,
    /// or among those of the current block only.
    fn find_field(&self, name: IdentifierIndex, is_declaration: bool) -> (field: Option<FieldIndex>)
        requires
            self.wf(),
        ensures
            field matches Some(f) ==> f < self.ast.fields@.len() && self.ast.fields@[f as int].name == name,
            field == find_in_scope(
                self.ast.fields@,
                self.scope@,
                if is_declaration {
                    self.open_scopes@.last().scope_start as int
                } else {
                    0
                },
                self.scope@.len() as int,
                name,
            ),
    {
        let start = if is_declaration {
            self.open_scopes[self.open_scopes.len() - 1].scope_start
        } else {
            0
        };
        let mut i = self.scope.len();
        while i > start
            invariant
                i <= self.scope@.len(),
                self.wf(),
                start == if is_declaration {
                    self.open_scopes@.last().scope_start as int
                } else {
                    0
                },
                find_in_scope(self.ast.fields@, self.scope@, start as int, i as int, name) == find_in_scope(
                    self.ast.fields@,
                    self.scope@,
                    start as int,
                    self.scope@.len() as int,
                    name,
                ),
            decreases i,
        {
            i = i - 1;
            let field = self.scope[i];
            if self.ast.fields[field].name == name {
                return Some(field);
            }
        }
        None
    }

    /// Declares a new field in the current block.
    fn create_field(&mut self, name: IdentifierIndex, is_public: bool) -> (field: FieldIndex)
        requires
            old(self).wf(),
            (name.0 as int) < interned(&old(self).ast.identifiers).len(),
        ensures
            final(self).wf(),
            field == old(self).ast.fields@.len(),
            final(self).ast.fields@ == old(self).ast.fields@.push(Field { name, is_public }),
            final(self).open_scopes == old(self).open_scopes,
            final(self).ast.tokens == old(self).ast.tokens,
            final(self).ast.token_ranges == old(self).ast.token_ranges,
            final(self).ast.blocks == old(self).ast.blocks,
            final(self).ast.raw_literals == old(self).ast.raw_literals,
            final(self).ast.source_open_error == old(self).ast.source_open_error,
            final(self).ast.char_data == old(self).ast.char_data,
            final(self).ast.identifiers == old(self).ast.identifiers,
            final(self).ast.literals == old(self).ast.literals,
    {
        let field = self.ast.fields.len();
        self.ast.fields.push(Field { name, is_public });
        self.scope.push(field);
        proof {
            assert(ast_grows(&old(self).ast, &self.ast)) by {
                assert forall|f: int| 0 <= f < old(self).ast.fields@.len() implies (#[trigger] self.ast.fields@[f]).name == old(self).ast.fields@[f].name by {
                    assert(self.ast.fields@[f] == old(self).ast.fields@[f]);
                }
            }
            assert forall|i: int| 0 <= i < self.ast.tokens@.len() implies self.ast.token_refs_valid(#[trigger] self.ast.tokens@[i]) by {
                lemma_token_refs_grow(&old(self).ast, &self.ast, self.ast.tokens@[i]);
            }
            assert forall|f: int| 0 <= f < self.ast.fields@.len() implies ((#[trigger] self.ast.fields@[f]).name.0 as int) < interned(&self.ast.identifiers).len() by {
                if f < field {
                    assert(self.ast.fields@[f] == old(self).ast.fields@[f]);
                }
            }
            assert forall|i: int| 0 <= i < self.scope@.len() implies (#[trigger] self.scope@[i]) < self.ast.fields@.len() by {
                if i < old(self).scope@.len() {
                    assert(self.scope@[i] == old(self).scope@[i]);
                }
            }
            assert forall|b: int| 0 <= b < self.ast.blocks@.len() implies (#[trigger] self.ast.blocks@[b]).scope_start <= self.ast.fields@.len() by {
                assert(old(self).ast.blocks@[b].scope_start <= old(self).ast.fields@.len());
            }
        }
        field
    }

    /// Makes a field public.
    fn make_public(&mut self, field: FieldIndex)
        requires
            old(self).wf(),
            field < old(self).ast.fields@.len(),
        ensures
            final(self).wf(),
            final(self).ast.fields@ == old(self).ast.fields@.update(
                field as int,
                Field { name: old(self).ast.fields@[field as int].name, is_public: true },
            ),
            final(self).scope == old(self).scope,
            final(self).ast.fields@.len() == old(self).ast.fields@.len(),
            ast_grows(&old(self).ast, &final(self).ast),
            final(self).open_scopes == old(self).open_scopes,
            final(self).ast.tokens == old(self).ast.tokens,
            final(self).ast.token_ranges == old(self).ast.token_ranges,
            final(self).ast.blocks == old(self).ast.blocks,
            final(self).ast.raw_literals == old(self).ast.raw_literals,
            final(self).ast.source_open_error == old(self).ast.source_open_error,
            final(self).ast.char_data == old(self).ast.char_data,
            final(self).ast.identifiers == old(self).ast.identifiers,
            final(self).ast.literals == old(self).ast.literals,
    {
        let name = self.ast.fields[field].name;
        self.ast.fields.set(field, Field { name, is_public: true });
        proof {
            assert(ast_grows(&old(self).ast, &self.ast)) by {
                assert forall|f: int| 0 <= f < old(self).ast.fields@.len() implies (#[trigger] self.ast.fields@[f]).name == old(self).ast.fields@[f].name by {
                    if f != field {
                        assert(self.ast.fields@[f] == old(self).ast.fields@[f]);
                    }
                }
            }
            assert forall|i: int| 0 <= i < self.ast.tokens@.len() implies self.ast.token_refs_valid(#[trigger] self.ast.tokens@[i]) by {
                lemma_token_refs_grow(&old(self).ast, &self.ast, self.ast.tokens@[i]);
            }
            assert forall|f: int| 0 <= f < self.ast.fields@.len() implies ((#[trigger] self.ast.fields@[f]).name.0 as int) < interned(&self.ast.identifiers).len() by {
                assert(self.ast.fields@[f].name == old(self).ast.fields@[f].name);
            }
        }
    }

    /// Appends `:` after a field reference, which makes the field a
    /// declaration: a field of an enclosing block is replaced by a new field
    /// of the current block, and a field of the current block becomes public.
    fn push_declaration_with_default(&mut self, token: OperatorToken, range: ByteRange) -> (index: AstIndex)
        requires
            old(self).wf(),
            old(self).ast.token_refs_valid(Token::Operator(token)),
            !closes_block(token),
            is_binder_input_operator(token),
        ensures
            final(self).ast.token_ranges@ == old(self).ast.token_ranges@.push(range),
            colon_declares(old(self).ast, old(self).open_scopes@.last().index, final(self).ast),
            final(self).ast.blocks == old(self).ast.blocks,
            final(self).open_scopes == old(self).open_scopes,
            same_shape(final(self).ast.tokens@, old(self).ast.tokens@.push(Token::Operator(token))),
            final(self).wf(),
            index == old(self).ast.tokens@.len(),
            final(self).ast.tokens@.len() == old(self).ast.tokens@.len() + 1,
            forall|i: int| 0 <= i < index && !(old(self).ast.tokens@[i] is Expression && old(self).ast.tokens@[i]->Expression_0 is FieldReference)
                ==> #[trigger] final(self).ast.tokens@[i] == old(self).ast.tokens@[i],
            forall|i: int| 0 <= i < index ==> (#[trigger] final(self).ast.tokens@[i] is Expression) == (old(self).ast.tokens@[i] is Expression),
            final(self).ast.token_ranges@.last() == range,
            final(self).ast.tokens@.last() == Token::Operator(token),
            final(self).open_scopes@.len() == old(self).open_scopes@.len(),
            ast_grows(&old(self).ast, &final(self).ast),
            final(self).ast.source_open_error == old(self).ast.source_open_error,
            final(self).ast.char_data == old(self).ast.char_data,
            final(self).ast.identifiers == old(self).ast.identifiers,
            final(self).ast.literals == old(self).ast.literals,
    {
        let len = self.ast.tokens.len();
        if len > 0 {
            if let Token::Expression(ExpressionToken::FieldReference(field)) = self.ast.tokens[len - 1] {
                let block = self.open_block_index();
                if field < self.ast.blocks[block].scope_start {
                    let name = self.ast.fields[field].name;
                    let ghost before = self.ast;
                    let new_field = self.create_field(name, true);
                    self.ast.tokens.set(len - 1, Token::Expression(ExpressionToken::FieldReference(new_field)));
                    proof {
                        assert forall|i: int| 0 <= i < self.ast.tokens@.len() implies self.ast.token_refs_valid(#[trigger] self.ast.tokens@[i]) by {
                            if i != len - 1 {
                                assert(self.ast.tokens@[i] == before.tokens@[i]);
                            }
                        }
                    }
                } else {
                    self.make_public(field);
                }
            }
        }
        let ghost mid = self.ast;
        let index = self.push_plain(Token::Operator(token), range);
        proof {
            assert forall|i: int| 0 <= i < index && !(old(self).ast.tokens@[i] is Expression && old(self).ast.tokens@[i]->Expression_0 is FieldReference)
                implies #[trigger] self.ast.tokens@[i] == old(self).ast.tokens@[i] by {
                assert(self.ast.tokens@[i] == mid.tokens@[i]);
            }
            assert forall|i: int| 0 <= i < index implies (#[trigger] self.ast.tokens@[i] is Expression) == (old(self).ast.tokens@[i] is Expression) by {
                assert(self.ast.tokens@[i] == mid.tokens@[i]);
            }
            let want = old(self).ast.tokens@.push(Token::Operator(token));
            assert forall|i: int| 0 <= i < self.ast.tokens@.len() implies #[trigger] crate::navigation::fix(self.ast.tokens@[i])
                == crate::navigation::fix(want[i]) && crate::token::spec_delta(self.ast.tokens@[i]) == crate::token::spec_delta(want[i]) by {
                if i < index {
                    assert(self.ast.tokens@[i] == mid.tokens@[i]);
                }
            }
        }
        index
    }
}

} // verus!
