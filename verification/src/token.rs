use crate::error_code::ErrorCode;
use crate::fixity::{
    ExpressionFixity, Fixity, OperatorFixity, expression_fixity_spec, operator_fixity_spec,
    spec_has_left_operand, spec_has_right_operand, spec_num_operands, spec_takes_right_child,
};
use crate::identifiers::{CLOSE_CURLY, CLOSE_PAREN, IdentifierIndex, OPEN_CURLY, OPEN_PAREN, well_known_name};
use crate::indices::{AstDelta, BlockIndex, FieldIndex, LiteralIndex, RawLiteralIndex};
use crate::precedence::{Precedence, identifier_precedence};
use vstd::prelude::*;

verus! {

/// A token of the AST: either an expression token (standing where an
/// operand is expected) or an operator token (standing after an operand).
#[derive(Debug, Copy, Clone, PartialEq, Eq, Structural)]
pub enum Token {
    Expression(ExpressionToken),
    Operator(OperatorToken),
}

#[derive(Debug, Copy, Clone, PartialEq, Eq, Structural)]
pub enum ExpressionToken {
    IntegerLiteral(LiteralIndex),
    FieldReference(FieldIndex),
    RawIdentifier(IdentifierIndex),
    ErrorTerm(ErrorCode, LiteralIndex),
    RawErrorTerm(ErrorCode, RawLiteralIndex),
    MissingExpression,
    PrefixOperator(IdentifierIndex),
    Open { delta: AstDelta, boundary: ExpressionBoundary, error: Option<ExpressionBoundaryError> },
    OpenBlock { delta: AstDelta, index: BlockIndex, error: Option<ExpressionBoundaryError> },
}

#[derive(Debug, Copy, Clone, PartialEq, Eq, Structural)]
pub enum OperatorToken {
    InfixOperator(IdentifierIndex),
    InfixAssignment(IdentifierIndex),
    NewlineSequence,
    Apply,
    PostfixOperator(IdentifierIndex),
    Close { delta: AstDelta, boundary: ExpressionBoundary, error: Option<ExpressionBoundaryError> },
    CloseBlock { delta: AstDelta, index: BlockIndex, error: Option<ExpressionBoundaryError> },
}

/// What went wrong with a group's boundaries (a group without error holds
/// `None` in its `error` field).
#[derive(Debug, Copy, Clone, PartialEq, Eq, Structural)]
pub enum ExpressionBoundaryError {
    CloseWithoutOpen,
    OpenWithoutClose,
    /// The source could not be opened or read.
    OpenError,
}

/// The kind of a group, from innermost (`PrecedenceGroup`) to outermost
/// (`Root`).
#[derive(Debug, Copy, Clone, PartialEq, Eq, Structural)]
pub enum ExpressionBoundary {
    PrecedenceGroup,
    CompoundTerm,
    Parentheses,
    AutoBlock,
    CurlyBraces,
    Source,
    Root,
}

pub open spec fn spec_expression_fixity(t: ExpressionToken) -> ExpressionFixity {
    match t {
        ExpressionToken::PrefixOperator(_) => ExpressionFixity::Prefix,
        ExpressionToken::Open { .. } | ExpressionToken::OpenBlock { .. } => ExpressionFixity::Open,
        _ => ExpressionFixity::Term,
    }
}

pub open spec fn spec_operator_fixity(t: OperatorToken) -> OperatorFixity {
    match t {
        OperatorToken::PostfixOperator(_) => OperatorFixity::Postfix,
        OperatorToken::Close { .. } | OperatorToken::CloseBlock { .. } => OperatorFixity::Close,
        _ => OperatorFixity::Infix,
    }
}

/// The fixity of a token.
pub open spec fn spec_fixity(t: Token) -> Fixity {
    match t {
        Token::Expression(e) => expression_fixity_spec(spec_expression_fixity(e)),
        Token::Operator(o) => operator_fixity_spec(spec_operator_fixity(o)),
    }
}

/// Infix operators whose precedence is defined: the ones the parser
/// produces.
pub open spec fn has_precedence(t: OperatorToken) -> bool {
    t is InfixOperator || t is InfixAssignment
}

/// The precedence of an infix operator.
pub open spec fn operator_precedence(t: OperatorToken) -> Precedence {
    match t {
        OperatorToken::InfixOperator(op) => identifier_precedence(op),
        _ => Precedence::Assign,
    }
}

/// Whether `left` adopts the expression starting with token `right` into
/// its right operand: by precedence between two infix operators, by fixity
/// otherwise.
pub open spec fn spec_operator_takes_right_child(left: OperatorToken, right: Token) -> bool {
    if spec_operator_fixity(left) == OperatorFixity::Infix && (right matches Token::Operator(r) && spec_operator_fixity(r) == OperatorFixity::Infix) {
        crate::precedence::spec_takes_right_child(operator_precedence(left), operator_precedence(right->Operator_0))
    } else {
        spec_takes_right_child(operator_fixity_spec(spec_operator_fixity(left)), spec_fixity(right))
    }
}

/// Whether a token is an open or close token (and so has a delta).
pub open spec fn is_group_token(t: Token) -> bool {
    match t {
        Token::Expression(ExpressionToken::Open { .. }) | Token::Expression(ExpressionToken::OpenBlock { .. })
        | Token::Operator(OperatorToken::Close { .. }) | Token::Operator(OperatorToken::CloseBlock { .. }) => true,
        _ => false,
    }
}

/// The delta of an open or close token.
pub open spec fn spec_delta(t: Token) -> AstDelta {
    match t {
        Token::Expression(ExpressionToken::Open { delta, .. }) => delta,
        Token::Expression(ExpressionToken::OpenBlock { delta, .. }) => delta,
        Token::Operator(OperatorToken::Close { delta, .. }) => delta,
        Token::Operator(OperatorToken::CloseBlock { delta, .. }) => delta,
        _ => 0,
    }
}

impl ExpressionToken {
    pub fn fixity(self) -> (f: ExpressionFixity)
        ensures
            f == spec_expression_fixity(self),
    {
        match self {
            ExpressionToken::IntegerLiteral(_) | ExpressionToken::RawIdentifier(_)
            | ExpressionToken::FieldReference(_) | ExpressionToken::ErrorTerm(..)
            | ExpressionToken::RawErrorTerm(..) | ExpressionToken::MissingExpression => ExpressionFixity::Term,
            ExpressionToken::PrefixOperator(_) => ExpressionFixity::Prefix,
            ExpressionToken::Open { .. } | ExpressionToken::OpenBlock { .. } => ExpressionFixity::Open,
        }
    }

    pub fn num_operands(self) -> (n: u8)
        ensures
            n == spec_num_operands(spec_fixity(Token::Expression(self))),
    {
        self.fixity().num_operands()
    }

    pub fn has_right_operand(self) -> (b: bool)
        ensures
            b == spec_has_right_operand(spec_fixity(Token::Expression(self))),
    {
        self.fixity().has_right_operand()
    }

    pub fn takes_right_child(self, right: Token) -> (b: bool)
        ensures
            b == spec_takes_right_child(spec_fixity(Token::Expression(self)), spec_fixity(right)),
    {
        self.fixity().takes_right_child(right.fixity())
    }

    /// The distance to the matching close token (open tokens only).
    pub fn delta(self) -> (d: AstDelta)
        requires
            is_group_token(Token::Expression(self)),
        ensures
            d == spec_delta(Token::Expression(self)),
    {
        match self {
            ExpressionToken::Open { delta, .. } | ExpressionToken::OpenBlock { delta, .. } => delta,
            _ => 0,
        }
    }
}

impl OperatorToken {
    pub fn fixity(self) -> (f: OperatorFixity)
        ensures
            f == spec_operator_fixity(self),
    {
        match self {
            OperatorToken::InfixOperator(_) | OperatorToken::InfixAssignment(_) | OperatorToken::Apply
            | OperatorToken::NewlineSequence => OperatorFixity::Infix,
            OperatorToken::PostfixOperator(_) => OperatorFixity::Postfix,
            OperatorToken::Close { .. } | OperatorToken::CloseBlock { .. } => OperatorFixity::Close,
        }
    }

    pub fn num_operands(self) -> (n: u8)
        ensures
            n == spec_num_operands(spec_fixity(Token::Operator(self))),
    {
        self.fixity().num_operands()
    }

    pub fn has_left_operand(self) -> (b: bool)
        ensures
            b == spec_has_left_operand(spec_fixity(Token::Operator(self))),
    {
        self.fixity().has_left_operand()
    }

    pub fn has_right_operand(self) -> (b: bool)
        ensures
            b == spec_has_right_operand(spec_fixity(Token::Operator(self))),
    {
        self.fixity().has_right_operand()
    }

    /// Whether this operator adopts the expression starting with `right`
    /// into its right operand. Two infix operators decide by precedence.
    pub fn takes_right_child(self, right: Token) -> (b: bool)
        requires
            spec_operator_fixity(self) == OperatorFixity::Infix && (right matches Token::Operator(r)
                && spec_operator_fixity(r) == OperatorFixity::Infix) ==> has_precedence(self)
                && has_precedence(right->Operator_0),
        ensures
            b == spec_operator_takes_right_child(self, right),
    {
        match (self.fixity(), right) {
            (OperatorFixity::Infix, Token::Operator(r)) => {
                if r.fixity() == OperatorFixity::Infix {
                    Precedence::from_operator(self).takes_right_child(Precedence::from_operator(r))
                } else {
                    self.fixity().takes_right_child(right.fixity())
                }
            },
            (left, _) => left.takes_right_child(right.fixity()),
        }
    }

    /// The distance back to the matching open token (close tokens only).
    pub fn delta(self) -> (d: AstDelta)
        requires
            is_group_token(Token::Operator(self)),
        ensures
            d == spec_delta(Token::Operator(self)),
    {
        match self {
            OperatorToken::Close { delta, .. } | OperatorToken::CloseBlock { delta, .. } => delta,
            _ => 0,
        }
    }
}

impl Precedence {
    /// The precedence of an infix operator token.
    pub fn from_operator(from: OperatorToken) -> (p: Precedence)
        requires
            has_precedence(from),
        ensures
            p == operator_precedence(from),
    {
        match from {
            OperatorToken::InfixOperator(operator) => Precedence::from(operator),
            _ => Precedence::Assign,
        }
    }
}

impl Token {
    pub fn fixity(self) -> (f: Fixity)
        ensures
            f == spec_fixity(self),
    {
        match self {
            Token::Expression(token) => Fixity::from(token.fixity()),
            Token::Operator(token) => Fixity::from(token.fixity()),
        }
    }

    pub fn num_operands(self) -> (n: u8)
        ensures
            n == spec_num_operands(spec_fixity(self)),
    {
        self.fixity().num_operands()
    }

    pub fn has_left_operand(self) -> (b: bool)
        ensures
            b == spec_has_left_operand(spec_fixity(self)),
    {
        self.fixity().has_left_operand()
    }

    pub fn has_right_operand(self) -> (b: bool)
        ensures
            b == spec_has_right_operand(spec_fixity(self)),
    {
        self.fixity().has_right_operand()
    }

    pub fn takes_right_child(self, right: Token) -> (b: bool)
        requires
            self matches Token::Operator(l) ==> (spec_operator_fixity(l) == OperatorFixity::Infix && (
            right matches Token::Operator(r) && spec_operator_fixity(r) == OperatorFixity::Infix)
                ==> has_precedence(l) && has_precedence(right->Operator_0)),
        ensures
            b == match self {
                Token::Operator(l) => spec_operator_takes_right_child(l, right),
                Token::Expression(_) => spec_takes_right_child(spec_fixity(self), spec_fixity(right)),
            },
    {
        match self {
            Token::Operator(token) => token.takes_right_child(right),
            Token::Expression(token) => token.takes_right_child(right),
        }
    }

    /// The delta of an open or close token.
    pub fn delta(self) -> (d: AstDelta)
        requires
            is_group_token(self),
        ensures
            d == spec_delta(self),
    {
        match self {
            Token::Expression(token) => token.delta(),
            Token::Operator(token) => token.delta(),
        }
    }
}

impl From<ExpressionToken> for Token {
    fn from(from: ExpressionToken) -> (t: Token) {
        Token::Expression(from)
    }
}

impl vstd::std_specs::convert::FromSpecImpl<ExpressionToken> for Token {
    open spec fn obeys_from_spec() -> bool {
        true
    }

    open spec fn from_spec(v: ExpressionToken) -> Token {
        Token::Expression(v)
    }
}

impl From<OperatorToken> for Token {
    fn from(from: OperatorToken) -> (t: Token) {
        Token::Operator(from)
    }
}

impl vstd::std_specs::convert::FromSpecImpl<OperatorToken> for Token {
    open spec fn obeys_from_spec() -> bool {
        true
    }

    open spec fn from_spec(v: OperatorToken) -> Token {
        Token::Operator(v)
    }
}

/// Position of a boundary kind, innermost first.
pub open spec fn boundary_rank(b: ExpressionBoundary) -> int {
    match b {
        ExpressionBoundary::PrecedenceGroup => 0,
        ExpressionBoundary::CompoundTerm => 1,
        ExpressionBoundary::Parentheses => 2,
        ExpressionBoundary::AutoBlock => 3,
        ExpressionBoundary::CurlyBraces => 4,
        ExpressionBoundary::Source => 5,
        ExpressionBoundary::Root => 6,
    }
}

pub open spec fn spec_is_scope(b: ExpressionBoundary) -> bool {
    b == ExpressionBoundary::CurlyBraces || b == ExpressionBoundary::Source || b == ExpressionBoundary::Root
        || b == ExpressionBoundary::AutoBlock
}

pub open spec fn spec_is_required(b: ExpressionBoundary) -> bool {
    !(b == ExpressionBoundary::PrecedenceGroup || b == ExpressionBoundary::CompoundTerm)
}

pub open spec fn spec_is_closed_automatically(b: ExpressionBoundary) -> bool {
    b == ExpressionBoundary::PrecedenceGroup || b == ExpressionBoundary::CompoundTerm || b
        == ExpressionBoundary::AutoBlock
}

impl ExpressionBoundary {
    /// The position of this boundary kind, innermost first; a close token
    /// of a higher rank than the innermost open group closes that group.
    pub fn rank(self) -> (r: u8)
        ensures
            r == boundary_rank(self),
    {
        match self {
            ExpressionBoundary::PrecedenceGroup => 0,
            ExpressionBoundary::CompoundTerm => 1,
            ExpressionBoundary::Parentheses => 2,
            ExpressionBoundary::AutoBlock => 3,
            ExpressionBoundary::CurlyBraces => 4,
            ExpressionBoundary::Source => 5,
            ExpressionBoundary::Root => 6,
        }
    }

    /// Whether this boundary represents a scope (a block with fields).
    pub fn is_scope(self) -> (b: bool)
        ensures
            b == spec_is_scope(self),
    {
        match self {
            ExpressionBoundary::CurlyBraces | ExpressionBoundary::Source | ExpressionBoundary::Root
            | ExpressionBoundary::AutoBlock => true,
            ExpressionBoundary::Parentheses | ExpressionBoundary::PrecedenceGroup
            | ExpressionBoundary::CompoundTerm => false,
        }
    }

    /// Whether groups of this kind become blocks in the AST.
    pub fn is_block(self) -> (b: bool)
        ensures
            b == spec_is_scope(self),
    {
        self.is_scope()
    }

    /// Whether this boundary must be in the expression tree (because it is
    /// actual user syntax, or opens a scope).
    pub fn is_required(self) -> (b: bool)
        ensures
            b == spec_is_required(self),
    {
        match self {
            ExpressionBoundary::Root | ExpressionBoundary::AutoBlock | ExpressionBoundary::Source
            | ExpressionBoundary::CurlyBraces | ExpressionBoundary::Parentheses => true,
            ExpressionBoundary::PrecedenceGroup | ExpressionBoundary::CompoundTerm => false,
        }
    }

    /// Whether the group is closed by the grouper itself rather than by a
    /// close token.
    pub fn is_closed_automatically(self) -> (b: bool)
        ensures
            b == spec_is_closed_automatically(self),
    {
        match self {
            ExpressionBoundary::PrecedenceGroup | ExpressionBoundary::CompoundTerm
            | ExpressionBoundary::AutoBlock => true,
            ExpressionBoundary::Root | ExpressionBoundary::Source | ExpressionBoundary::CurlyBraces
            | ExpressionBoundary::Parentheses => false,
        }
    }

    /// An open token of this kind whose delta is not known yet.
    pub fn placeholder_open_token(self, error: Option<ExpressionBoundaryError>) -> (t: ExpressionToken)
        ensures
            t == (ExpressionToken::Open { boundary: self, delta: 0, error }),
    {
        ExpressionToken::Open { boundary: self, delta: 0, error }
    }

    /// A close token of this kind whose delta is not known yet.
    pub fn placeholder_close_token(self, error: Option<ExpressionBoundaryError>) -> (t: OperatorToken)
        ensures
            t == (OperatorToken::Close { boundary: self, delta: 0, error }),
    {
        OperatorToken::Close { boundary: self, delta: 0, error }
    }

    /// The source text of an open token of this kind.
    pub fn open_string(self) -> (s: &'static str)
        ensures
            self == ExpressionBoundary::CurlyBraces ==> s@ == well_known_name(OPEN_CURLY as int),
            self == ExpressionBoundary::Parentheses ==> s@ == well_known_name(OPEN_PAREN as int),
            !(self == ExpressionBoundary::CurlyBraces || self == ExpressionBoundary::Parentheses)
                ==> s@ == well_known_name(crate::identifiers::EMPTY_STRING as int),
    {
        match self {
            ExpressionBoundary::CurlyBraces => IdentifierIndex(OPEN_CURLY).well_known_str(),
            ExpressionBoundary::Parentheses => IdentifierIndex(OPEN_PAREN).well_known_str(),
            _ => "",
        }
    }

    /// The source text of a close token of this kind.
    pub fn close_string(self) -> (s: &'static str)
        ensures
            self == ExpressionBoundary::CurlyBraces ==> s@ == well_known_name(CLOSE_CURLY as int),
            self == ExpressionBoundary::Parentheses ==> s@ == well_known_name(CLOSE_PAREN as int),
            !(self == ExpressionBoundary::CurlyBraces || self == ExpressionBoundary::Parentheses)
                ==> s@ == well_known_name(crate::identifiers::EMPTY_STRING as int),
    {
        match self {
            ExpressionBoundary::CurlyBraces => IdentifierIndex(CLOSE_CURLY).well_known_str(),
            ExpressionBoundary::Parentheses => IdentifierIndex(CLOSE_PAREN).well_known_str(),
            _ => "",
        }
    }
}

} // verus!
