//! The debug text of tokens: each token spelled out with its variant and
//! its fields, identifiers by their text where they are well known.
use crate::decimal::{decimal_string, spec_decimal};
use crate::error_code::error_code_name;
use crate::identifiers::{IdentifierIndex, WELL_KNOWN_COUNT, well_known_name};
use crate::token::{ExpressionBoundary, ExpressionBoundaryError, ExpressionToken, OperatorToken, Token};
use vstd::prelude::*;
use vstd::string::StringExecFns;

verus! {

/// An identifier as debug text shows it: its text if it is well known,
/// else its pool index.
pub open spec fn spec_identifier_debug(i: IdentifierIndex) -> Seq<char> {
    if (i.0 as int) < WELL_KNOWN_COUNT {
        well_known_name(i.0 as int)
    } else {
        spec_decimal(i.0 as nat)
    }
}

/// The name of a kind of group.
pub open spec fn boundary_name(b: ExpressionBoundary) -> Seq<char> {
    match b {
        ExpressionBoundary::PrecedenceGroup => "PrecedenceGroup"@,
        ExpressionBoundary::CompoundTerm => "CompoundTerm"@,
        ExpressionBoundary::Parentheses => "Parentheses"@,
        ExpressionBoundary::AutoBlock => "AutoBlock"@,
        ExpressionBoundary::CurlyBraces => "CurlyBraces"@,
        ExpressionBoundary::Source => "Source"@,
        ExpressionBoundary::Root => "Root"@,
    }
}

/// The name of a group's error, `None` where it has none.
pub open spec fn boundary_error_name(e: Option<ExpressionBoundaryError>) -> Seq<char> {
    match e {
        None => "None"@,
        Some(ExpressionBoundaryError::CloseWithoutOpen) => "CloseWithoutOpen"@,
        Some(ExpressionBoundaryError::OpenWithoutClose) => "OpenWithoutClose"@,
        Some(ExpressionBoundaryError::OpenError) => "OpenError"@,
    }
}

/// `name(field)`.
pub open spec fn wrap(name: Seq<char>, field: Seq<char>) -> Seq<char> {
    name + "("@ + field + ")"@
}

/// `name { delta: d, second: s, error: e }`.
pub open spec fn group_text(name: Seq<char>, delta: nat, second_name: Seq<char>, second: Seq<char>, error: Option<ExpressionBoundaryError>) -> Seq<char> {
    name + " { delta: "@ + spec_decimal(delta) + ", "@ + second_name + ": "@ + second + ", error: "@ + boundary_error_name(error)
        + " }"@
}

/// The debug text of an expression token.
pub open spec fn spec_expression_token_debug(t: ExpressionToken) -> Seq<char> {
    match t {
        ExpressionToken::IntegerLiteral(l) => wrap("IntegerLiteral"@, spec_decimal(l as nat)),
        ExpressionToken::FieldReference(f) => wrap("FieldReference"@, spec_decimal(f as nat)),
        ExpressionToken::RawIdentifier(i) => wrap("RawIdentifier"@, spec_identifier_debug(i)),
        ExpressionToken::ErrorTerm(code, l) => wrap("ErrorTerm"@, error_code_name(code) + ", "@ + spec_decimal(l as nat)),
        ExpressionToken::RawErrorTerm(code, r) => wrap("RawErrorTerm"@, error_code_name(code) + ", "@ + spec_decimal(r as nat)),
        ExpressionToken::MissingExpression => "MissingExpression"@,
        ExpressionToken::PrefixOperator(i) => wrap("PrefixOperator"@, spec_identifier_debug(i)),
        ExpressionToken::Open { delta, boundary, error } => group_text("Open"@, delta as nat, "boundary"@, boundary_name(boundary), error),
        ExpressionToken::OpenBlock { delta, index, error } => group_text("OpenBlock"@, delta as nat, "index"@, spec_decimal(index as nat), error),
    }
}

/// The debug text of an operator token.
pub open spec fn spec_operator_token_debug(t: OperatorToken) -> Seq<char> {
    match t {
        OperatorToken::InfixOperator(i) => wrap("InfixOperator"@, spec_identifier_debug(i)),
        OperatorToken::InfixAssignment(i) => wrap("InfixAssignment"@, spec_identifier_debug(i)),
        OperatorToken::NewlineSequence => "NewlineSequence"@,
        OperatorToken::Apply => "Apply"@,
        OperatorToken::PostfixOperator(i) => wrap("PostfixOperator"@, spec_identifier_debug(i)),
        OperatorToken::Close { delta, boundary, error } => group_text("Close"@, delta as nat, "boundary"@, boundary_name(boundary), error),
        OperatorToken::CloseBlock { delta, index, error } => group_text("CloseBlock"@, delta as nat, "index"@, spec_decimal(index as nat), error),
    }
}

/// The debug text of a token.
pub open spec fn spec_token_debug(t: Token) -> Seq<char> {
    match t {
        Token::Expression(e) => wrap("Expression"@, spec_expression_token_debug(e)),
        Token::Operator(o) => wrap("Operator"@, spec_operator_token_debug(o)),
    }
}

fn wrap_string(name: &str, field: String) -> (s: String)
    ensures
        s@ == wrap(name@, field@),
{
    let mut s = name.to_owned();
    s.append("(");
    s.append(field.as_str());
    s.append(")");
    s
}

fn boundary_name_str(b: ExpressionBoundary) -> (s: &'static str)
    ensures
        s@ == boundary_name(b),
{
    match b {
        ExpressionBoundary::PrecedenceGroup => "PrecedenceGroup",
        ExpressionBoundary::CompoundTerm => "CompoundTerm",
        ExpressionBoundary::Parentheses => "Parentheses",
        ExpressionBoundary::AutoBlock => "AutoBlock",
        ExpressionBoundary::CurlyBraces => "CurlyBraces",
        ExpressionBoundary::Source => "Source",
        ExpressionBoundary::Root => "Root",
    }
}

fn boundary_error_str(e: Option<ExpressionBoundaryError>) -> (s: &'static str)
    ensures
        s@ == boundary_error_name(e),
{
    match e {
        None => "None",
        Some(ExpressionBoundaryError::CloseWithoutOpen) => "CloseWithoutOpen",
        Some(ExpressionBoundaryError::OpenWithoutClose) => "OpenWithoutClose",
        Some(ExpressionBoundaryError::OpenError) => "OpenError",
    }
}

fn group_string(name: &str, delta: usize, second_name: &str, second: String, error: Option<ExpressionBoundaryError>) -> (s: String)
    ensures
        s@ == group_text(name@, delta as nat, second_name@, second@, error),
{
    let mut s = name.to_owned();
    s.append(" { delta: ");
    let d = decimal_string(delta);
    s.append(d.as_str());
    s.append(", ");
    s.append(second_name);
    s.append(": ");
    s.append(second.as_str());
    s.append(", error: ");
    s.append(boundary_error_str(error));
    s.append(" }");
    s
}

fn code_and_index(code: crate::error_code::ErrorCode, index: usize) -> (s: String)
    ensures
        s@ == error_code_name(code) + ", "@ + spec_decimal(index as nat),
{
    let mut s = code.name().to_owned();
    s.append(", ");
    let d = decimal_string(index);
    s.append(d.as_str());
    s
}

impl IdentifierIndex {
    /// The identifier as debug text shows it.
    pub fn debug_string(self) -> (s: String)
        ensures
            s@ == spec_identifier_debug(self),
    {
        self.to_string()
    }
}

impl ExpressionToken {
    /// The token spelled out with its variant and fields.
    pub fn debug_string(self) -> (s: String)
        ensures
            s@ == spec_expression_token_debug(self),
    {
        match self {
            ExpressionToken::IntegerLiteral(l) => wrap_string("IntegerLiteral", decimal_string(l)),
            ExpressionToken::FieldReference(f) => wrap_string("FieldReference", decimal_string(f)),
            ExpressionToken::RawIdentifier(i) => wrap_string("RawIdentifier", i.debug_string()),
            ExpressionToken::ErrorTerm(code, l) => wrap_string("ErrorTerm", code_and_index(code, l)),
            ExpressionToken::RawErrorTerm(code, r) => wrap_string("RawErrorTerm", code_and_index(code, r)),
            ExpressionToken::MissingExpression => "MissingExpression".to_owned(),
            ExpressionToken::PrefixOperator(i) => wrap_string("PrefixOperator", i.debug_string()),
            ExpressionToken::Open { delta, boundary, error } => group_string(
                "Open",
                delta,
                "boundary",
                boundary_name_str(boundary).to_owned(),
                error,
            ),
            ExpressionToken::OpenBlock { delta, index, error } => group_string("OpenBlock", delta, "index", decimal_string(index), error),
        }
    }
}

impl OperatorToken {
    /// The token spelled out with its variant and fields.
    pub fn debug_string(self) -> (s: String)
        ensures
            s@ == spec_operator_token_debug(self),
    {
        match self {
            OperatorToken::InfixOperator(i) => wrap_string("InfixOperator", i.debug_string()),
            OperatorToken::InfixAssignment(i) => wrap_string("InfixAssignment", i.debug_string()),
            OperatorToken::NewlineSequence => "NewlineSequence".to_owned(),
            OperatorToken::Apply => "Apply".to_owned(),
            OperatorToken::PostfixOperator(i) => wrap_string("PostfixOperator", i.debug_string()),
            OperatorToken::Close { delta, boundary, error } => group_string(
                "Close",
                delta,
                "boundary",
                boundary_name_str(boundary).to_owned(),
                error,
            ),
            OperatorToken::CloseBlock { delta, index, error } => group_string("CloseBlock", delta, "index", decimal_string(index), error),
        }
    }
}

impl Token {
    /// The token spelled out with its variant and fields.
    pub fn debug_string(self) -> (s: String)
        ensures
            s@ == spec_token_debug(self),
    {
        match self {
            Token::Expression(e) => wrap_string("Expression", e.debug_string()),
            Token::Operator(o) => wrap_string("Operator", o.debug_string()),
        }
    }
}

} // verus!
