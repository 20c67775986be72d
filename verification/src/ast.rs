use crate::block::{AstBlock, Field};
use crate::char_data::CharData;
use crate::error_code::ErrorCode;
use crate::identifiers::{IdentifierIndex, well_known_names};
use crate::indices::{AstIndex, ByteRange, FieldIndex, LiteralIndex, RawLiteralIndex};
use crate::interner::{Interner, all_distinct, intern, interned, interner_new, interner_resolve};
use crate::token::{ExpressionToken, OperatorToken, Token};
use vstd::prelude::*;

verus! {

/// The parsed form of a source: its tokens (in source order, each with the
/// byte range it came from), the pools its tokens refer to, its blocks and
/// fields, and the character data needed to reconstruct the source.
pub struct Ast {
    /// The error met opening or reading the source, if any.
    pub source_open_error: Option<ErrorCode>,
    pub char_data: CharData,
    pub identifiers: Interner,
    pub literals: Interner,
    pub raw_literals: Vec<Vec<u8>>,
    pub tokens: Vec<Token>,
    pub token_ranges: Vec<ByteRange>,
    pub blocks: Vec<AstBlock>,
    pub fields: Vec<Field>,
}

/// An operand position relative to an operator.
#[derive(Debug, Copy, Clone, PartialEq, Eq, Structural)]
pub enum OperandPosition {
    Left,
    Right,
    PrefixOperand,
    PostfixOperand,
}

impl OperandPosition {
    /// How the position reads in messages.
    pub fn name(self) -> (s: &'static str)
        ensures
            s@ == if self == OperandPosition::Left || self == OperandPosition::PostfixOperand {
                "left side"@
            } else {
                "right side"@
            },
    {
        match self {
            OperandPosition::Left | OperandPosition::PostfixOperand => "left side",
            OperandPosition::Right | OperandPosition::PrefixOperand => "right side",
        }
    }
}

impl Ast {
    /// The pools and lists of the AST agree with each other: one range per
    /// token, no string twice in a pool, well-formed character data.
    pub open spec fn wf(&self) -> bool {
        &&& self.tokens@.len() == self.token_ranges@.len()
        &&& all_distinct(interned(&self.identifiers))
        &&& all_distinct(interned(&self.literals))
        &&& self.char_data.wf()
    }

    /// An empty AST for a source: no tokens or blocks yet, the well-known
    /// identifiers in its identifier pool and the root fields declared.
    pub fn new(source_open_error: Option<ErrorCode>, root_fields: Vec<Field>) -> (ast: Ast)
        ensures
            ast.wf(),
            ast.source_open_error == source_open_error,
            ast.tokens@.len() == 0,
            ast.blocks@.len() == 0,
            ast.fields@ == root_fields@,
            interned(&ast.identifiers) == well_known_names(),
            interned(&ast.literals).len() == 0,
            ast.raw_literals@.len() == 0,
            ast.char_data.size == 0,
            ast.char_data.line_starts@ == seq![0usize],
            ast.char_data.whitespace_ranges@.len() == 0,
            ast.char_data.comments@.len() == 0,
    {
        proof {
            crate::identifiers::lemma_well_known_names_distinct();
        }
        Ast {
            source_open_error,
            char_data: CharData::new(),
            identifiers: crate::identifiers::identifiers(),
            literals: interner_new(),
            raw_literals: Vec::new(),
            tokens: Vec::new(),
            token_ranges: Vec::new(),
            blocks: Vec::new(),
            fields: root_fields,
        }
    }

    /// Appends a token with its byte range; returns its index.
    pub fn push_token(&mut self, token: Token, range: ByteRange) -> (index: AstIndex)
        requires
            old(self).tokens@.len() == old(self).token_ranges@.len(),
        ensures
            final(self).tokens@ == old(self).tokens@.push(token),
            final(self).token_ranges@ == old(self).token_ranges@.push(range),
            index == old(self).tokens@.len(),
            final(self).source_open_error == old(self).source_open_error,
            final(self).char_data == old(self).char_data,
            final(self).identifiers == old(self).identifiers,
            final(self).literals == old(self).literals,
            final(self).raw_literals == old(self).raw_literals,
            final(self).blocks == old(self).blocks,
            final(self).fields == old(self).fields,
    {
        self.tokens.push(token);
        self.token_ranges.push(range);
        self.tokens.len() - 1
    }

    /// Inserts a token with its byte range at `index`.
    pub fn insert_token(&mut self, index: AstIndex, token: Token, range: ByteRange)
        requires
            old(self).tokens@.len() == old(self).token_ranges@.len(),
            index <= old(self).tokens@.len(),
        ensures
            final(self).tokens@ == old(self).tokens@.insert(index as int, token),
            final(self).token_ranges@ == old(self).token_ranges@.insert(index as int, range),
            final(self).source_open_error == old(self).source_open_error,
            final(self).char_data == old(self).char_data,
            final(self).identifiers == old(self).identifiers,
            final(self).literals == old(self).literals,
            final(self).raw_literals == old(self).raw_literals,
            final(self).blocks == old(self).blocks,
            final(self).fields == old(self).fields,
    {
        self.tokens.insert(index, token);
        self.token_ranges.insert(index, range);
    }

    /// The index the next pushed token will get.
    pub fn next_index(&self) -> (index: AstIndex)
        ensures
            index == self.tokens@.len(),
    {
        self.tokens.len()
    }

    pub fn token(&self, index: AstIndex) -> (t: Token)
        requires
            index < self.tokens@.len(),
        ensures
            t == self.tokens@[index as int],
    {
        self.tokens[index]
    }

    pub fn token_range(&self, index: AstIndex) -> (r: ByteRange)
        requires
            index < self.token_ranges@.len(),
        ensures
            r == self.token_ranges@[index as int],
    {
        self.token_ranges[index]
    }

    /// The token at `index`, which must be an expression token.
    pub fn expression_token(&self, index: AstIndex) -> (t: ExpressionToken)
        requires
            index < self.tokens@.len(),
            self.tokens@[index as int] is Expression,
        ensures
            Token::Expression(t) == self.tokens@[index as int],
    {
        match self.tokens[index] {
            Token::Expression(t) => t,
            Token::Operator(_) => {
                proof {
                    assert(false);
                }
                ExpressionToken::MissingExpression
            },
        }
    }

    /// The token at `index`, which must be an operator token.
    pub fn operator_token(&self, index: AstIndex) -> (t: OperatorToken)
        requires
            index < self.tokens@.len(),
            self.tokens@[index as int] is Operator,
        ensures
            Token::Operator(t) == self.tokens@[index as int],
    {
        match self.tokens[index] {
            Token::Operator(t) => t,
            Token::Expression(_) => {
                proof {
                    assert(false);
                }
                OperatorToken::Apply
            },
        }
    }

    /// The text of an identifier.
    pub fn identifier_string(&self, index: IdentifierIndex) -> (s: &str)
        requires
            (index.0 as int) < interned(&self.identifiers).len(),
        ensures
            s@ == interned(&self.identifiers)[index.0 as int],
    {
        interner_resolve(&self.identifiers, index.0 as usize).unwrap()
    }

    /// The text of a literal.
    pub fn literal_string(&self, index: LiteralIndex) -> (s: &str)
        requires
            index < interned(&self.literals).len(),
        ensures
            s@ == interned(&self.literals)[index as int],
    {
        interner_resolve(&self.literals, index).unwrap()
    }

    /// The text of a whitespace run.
    pub fn whitespace_string(&self, index: usize) -> (s: &str)
        requires
            index < interned(&self.char_data.whitespace_characters).len(),
        ensures
            s@ == interned(&self.char_data.whitespace_characters)[index as int],
    {
        interner_resolve(&self.char_data.whitespace_characters, index).unwrap()
    }

    /// The name of a field.
    pub fn field_name(&self, index: FieldIndex) -> (s: &str)
        requires
            index < self.fields@.len(),
            (self.fields@[index as int].name.0 as int) < interned(&self.identifiers).len(),
        ensures
            s@ == interned(&self.identifiers)[self.fields@[index as int].name.0 as int],
    {
        self.identifier_string(self.fields[index].name)
    }

    /// Adds an identifier to the identifier pool (if new) and returns it.
    pub fn intern_identifier(&mut self, string: &str) -> (identifier: IdentifierIndex)
        requires
            old(self).wf(),
            interned(&old(self).identifiers).len() < u32::MAX,
        ensures
            final(self).wf(),
            interned(&final(self).identifiers)[identifier.0 as int] == string@,
            (identifier.0 as int) < interned(&final(self).identifiers).len(),
            interned(&final(self).identifiers).len() <= interned(&old(self).identifiers).len() + 1,
            interned(&old(self).identifiers).is_prefix_of(interned(&final(self).identifiers)),
            final(self).tokens == old(self).tokens,
            final(self).token_ranges == old(self).token_ranges,
            final(self).source_open_error == old(self).source_open_error,
            final(self).char_data == old(self).char_data,
            final(self).literals == old(self).literals,
            final(self).raw_literals == old(self).raw_literals,
            final(self).blocks == old(self).blocks,
            final(self).fields == old(self).fields,
    {
        let symbol = intern(&mut self.identifiers, string);
        IdentifierIndex(symbol as u32)
    }

    /// Adds a literal to the literal pool (if new) and returns its index.
    pub fn intern_literal(&mut self, string: &str) -> (literal: LiteralIndex)
        requires
            old(self).wf(),
        ensures
            final(self).wf(),
            interned(&final(self).literals)[literal as int] == string@,
            literal < interned(&final(self).literals).len(),
            interned(&old(self).literals).is_prefix_of(interned(&final(self).literals)),
            final(self).tokens == old(self).tokens,
            final(self).token_ranges == old(self).token_ranges,
            final(self).source_open_error == old(self).source_open_error,
            final(self).char_data == old(self).char_data,
            final(self).identifiers == old(self).identifiers,
            final(self).raw_literals == old(self).raw_literals,
            final(self).blocks == old(self).blocks,
            final(self).fields == old(self).fields,
    {
        intern(&mut self.literals, string)
    }

    /// Stores bytes that are not valid UTF-8; returns their index.
    pub fn push_raw_literal(&mut self, bytes: Vec<u8>) -> (index: RawLiteralIndex)
        ensures
            final(self).raw_literals@ == old(self).raw_literals@.push(bytes),
            index == old(self).raw_literals@.len(),
            final(self).tokens == old(self).tokens,
            final(self).token_ranges == old(self).token_ranges,
            final(self).source_open_error == old(self).source_open_error,
            final(self).char_data == old(self).char_data,
            final(self).identifiers == old(self).identifiers,
            final(self).literals == old(self).literals,
            final(self).blocks == old(self).blocks,
            final(self).fields == old(self).fields,
    {
        self.raw_literals.push(bytes);
        self.raw_literals.len() - 1
    }
}

} // verus!
