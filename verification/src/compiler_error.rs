//! Errors the compiler reports, with their codes, the place in the source
//! they point at and a message meant for the person who wrote the source.
use crate::ast::{Ast, OperandPosition};
use crate::binder::ast_consistent;
use crate::decimal::{decimal_string, spec_decimal};
use crate::error_code::{ErrorCode, SourceLoadError};
use crate::expression_tree::{AstExpressionTree, spec_boundary, spec_operand_position};
use crate::fixity::Fixity;
use crate::identifiers::IdentifierIndex;
use crate::indices::{AstIndex, ByteRange, FieldIndex, LiteralIndex, RawLiteralIndex};
use crate::interner::interned;
use crate::navigation::{
    close_operator_index, fix, is_whole_tree, open_operator_index, parent_root, spec_close_operator_index,
    spec_first_index, spec_last_index, spec_left_operand_root, spec_open_operator_index, spec_parent_root, tree_wf,
};
use crate::source_reconstruction::{lossy_text, spec_reconstruction_pieces};
use crate::token::ExpressionBoundary;
use crate::token_text::{spec_close_string, spec_open_string};
use vstd::prelude::*;

verus! {

/// An error met while loading, parsing or evaluating a source. Values that
/// an error names (an operand, a block, an object) are held as the text
/// they display as.
#[derive(Debug, Clone)]
pub enum CompilerError {
    /// The source could not be loaded: why, the source's name and what the
    /// system said.
    SourceLoadError(SourceLoadError, String, String),
    InvalidUtf8(RawLiteralIndex),
    UnsupportedCharacters(LiteralIndex),
    IdentifierStartsWithNumber(LiteralIndex),
    MissingOperand,
    AssignmentTargetMustBeIdentifier,
    RightSideOfDotMustBeIdentifier,
    OpenWithoutClose,
    CloseWithoutOpen,
    UnsupportedOperator(String, Fixity, IdentifierIndex),
    DivideByZero,
    NoSuchField(FieldIndex),
    FieldNotSet(FieldIndex),
    CircularDependency,
    IfWithoutCondition,
    IfWithoutBlock,
    IfBlockMustBeBlock,
    ElseBlockMustBeBlock,
    ElseWithoutBlock,
    ElseWithoutIf,
    IfFollowedByNonElse,
    WhileWithoutCondition,
    WhileWithoutBlock,
    WhileConditionMustBeBlock,
    WhileBlockMustBeBlock,
    ForeachWithoutInput,
    ForeachWithoutBlock,
    ForeachBlockMustBeBlock,
    TryWithoutBlock,
    TryBlockMustBeBlock,
    TryWithoutCatchOrFinally,
    CatchWithoutBlock,
    CatchBlockMustBeBlock,
    CatchWithoutResult,
    CatchWithoutFinally,
    FinallyWithoutBlock,
    FinallyBlockMustBeBlock,
    FinallyWithoutResult,
    ThrowWithoutException,
    BadOperandType(String, String),
    PrivateField(String, IdentifierIndex),
    NoSuchPublicField(String, IdentifierIndex),
    NoSuchPublicFieldOnValue(String, IdentifierIndex),
    NoSuchPublicFieldOnRoot(IdentifierIndex),
    ImmutableFieldOnRoot(FieldIndex),
    ImmutableFieldOnValue(String, IdentifierIndex),
    BreakOutsideLoop,
    ContinueOutsideLoop,
}

/// Where an error points: nowhere in particular, the source as a whole, an
/// expression (by its root token), or a range of bytes.
#[derive(Debug, Copy, Clone, PartialEq, Eq, Structural)]
pub enum ErrorLocation {
    Generic,
    SourceOnly,
    SourceExpression(AstIndex),
    SourceRange(ByteRange),
}

/// How a fixity reads in messages.
pub open spec fn fixity_name(f: Fixity) -> Seq<char> {
    match f {
        Fixity::Term => "term"@,
        Fixity::Prefix => "unary"@,
        Fixity::Infix => "binary"@,
        Fixity::Open => "open"@,
        Fixity::Close => "close"@,
        Fixity::Postfix => "postfix"@,
    }
}

/// How an operand position reads in messages.
pub open spec fn position_name(p: OperandPosition) -> Seq<char> {
    if p == OperandPosition::Left || p == OperandPosition::PostfixOperand {
        "left side"@
    } else {
        "right side"@
    }
}

/// The kind of the group an expression (rooted at its open or close token)
/// is.
pub open spec fn group_boundary(ast: &Ast, root: int) -> ExpressionBoundary {
    spec_boundary(ast, ast.tokens@[spec_open_operator_index(ast.tokens@, root)]->Expression_0)
}

/// The source bytes the expression rooted at `root` covers.
pub open spec fn expression_range(ast: &Ast, root: int) -> ByteRange {
    ByteRange {
        start: ast.token_ranges@[spec_first_index(ast.tokens@, root)].start,
        end: ast.token_ranges@[spec_last_index(ast.tokens@, root)].end,
    }
}

/// The AST reconstructs the source text of the expression rooted at `root`.
pub open spec fn expression_text_ok(ast: &Ast, root: int) -> bool {
    spec_reconstruction_pieces(ast, expression_range(ast, root)) is Some
}

/// The source text of the expression rooted at `root`, as reconstructed.
pub open spec fn expression_text(ast: &Ast, root: int) -> Seq<char> {
    lossy_text(spec_reconstruction_pieces(ast, expression_range(ast, root)).unwrap())
}

/// The bytes shown of a run of invalid bytes: the first twelve at most.
pub open spec fn first_bytes(bytes: Seq<u8>) -> Seq<u8> {
    if bytes.len() < 12 {
        bytes
    } else {
        bytes.take(12)
    }
}

/// A hexadecimal digit, upper case.
pub open spec fn hex_digit_text(d: u8) -> Seq<char> {
    if d == 0 { "0"@ } else if d == 1 { "1"@ } else if d == 2 { "2"@ } else if d == 3 { "3"@ }
    else if d == 4 { "4"@ } else if d == 5 { "5"@ } else if d == 6 { "6"@ } else if d == 7 { "7"@ }
    else if d == 8 { "8"@ } else if d == 9 { "9"@ } else if d == 10 { "A"@ } else if d == 11 { "B"@ }
    else if d == 12 { "C"@ } else if d == 13 { "D"@ } else if d == 14 { "E"@ } else { "F"@ }
}

/// A byte in hexadecimal, two characters wide (a space before a single
/// digit).
pub open spec fn hex_byte(b: u8) -> Seq<char> {
    if b < 16 {
        " "@ + hex_digit_text(b)
    } else {
        hex_digit_text(b / 16) + hex_digit_text(b % 16)
    }
}

/// Bytes in hexadecimal, one after the other.
pub open spec fn hex_bytes(bytes: Seq<u8>) -> Seq<char>
    decreases bytes.len(),
{
    if bytes.len() == 0 {
        Seq::empty()
    } else {
        hex_bytes(bytes.drop_last()) + hex_byte(bytes.last())
    }
}

fn hex_digit_str(d: u8) -> (s: &'static str)
    requires
        d < 16,
    ensures
        s@ == hex_digit_text(d),
{
    match d {
        0 => "0",
        1 => "1",
        2 => "2",
        3 => "3",
        4 => "4",
        5 => "5",
        6 => "6",
        7 => "7",
        8 => "8",
        9 => "9",
        10 => "A",
        11 => "B",
        12 => "C",
        13 => "D",
        14 => "E",
        _ => "F",
    }
}

/// The first twelve bytes (at most) of `bytes` in hexadecimal.
fn hex_text(bytes: &Vec<u8>) -> (s: String)
    ensures
        s@ == hex_bytes(first_bytes(bytes@)),
{
    let count = if bytes.len() < 12 {
        bytes.len()
    } else {
        12
    };
    let mut s = String::new();
    let mut i: usize = 0;
    while i < count
        invariant
            i <= count <= bytes@.len(),
            count == first_bytes(bytes@).len(),
            first_bytes(bytes@) == bytes@.take(count as int),
            s@ == hex_bytes(bytes@.take(i as int)),
        decreases count - i,
    {
        let b = bytes[i];
        if b < 16 {
            s.append(" ");
            s.append(hex_digit_str(b));
        } else {
            s.append(hex_digit_str(b / 16));
            s.append(hex_digit_str(b % 16));
        }
        proof {
            assert(bytes@.take(i + 1).drop_last() =~= bytes@.take(i as int));
        }
        i = i + 1;
    }
    proof {
        assert(bytes@.take(count as int) =~= first_bytes(bytes@));
    }
    s
}

/// The code of an error.
pub open spec fn spec_error_code(e: CompilerError) -> ErrorCode {
    match e {
        CompilerError::SourceLoadError(l, ..) => match l {
            SourceLoadError::SourceNotFound => ErrorCode::SourceNotFound,
            SourceLoadError::IoOpenError => ErrorCode::IoOpenError,
            SourceLoadError::IoReadError => ErrorCode::IoReadError,
            SourceLoadError::CurrentDirectoryError => ErrorCode::CurrentDirectoryError,
            SourceLoadError::SourceTooLarge(_) => ErrorCode::SourceTooLarge,
        },
        CompilerError::InvalidUtf8(..) => ErrorCode::InvalidUtf8,
        CompilerError::UnsupportedCharacters(..) => ErrorCode::UnsupportedCharacters,
        CompilerError::IdentifierStartsWithNumber(..) => ErrorCode::IdentifierStartsWithNumber,
        CompilerError::MissingOperand => ErrorCode::MissingOperand,
        CompilerError::AssignmentTargetMustBeIdentifier => ErrorCode::AssignmentTargetMustBeIdentifier,
        CompilerError::RightSideOfDotMustBeIdentifier => ErrorCode::RightSideOfDotMustBeIdentifier,
        CompilerError::OpenWithoutClose => ErrorCode::OpenWithoutClose,
        CompilerError::CloseWithoutOpen => ErrorCode::CloseWithoutOpen,
        CompilerError::UnsupportedOperator(..) => ErrorCode::UnsupportedOperator,
        CompilerError::DivideByZero => ErrorCode::DivideByZero,
        CompilerError::NoSuchField(..) => ErrorCode::NoSuchField,
        CompilerError::FieldNotSet(..) => ErrorCode::FieldNotSet,
        CompilerError::CircularDependency => ErrorCode::CircularDependency,
        CompilerError::IfWithoutCondition => ErrorCode::IfWithoutCondition,
        CompilerError::IfWithoutBlock => ErrorCode::IfWithoutBlock,
        CompilerError::IfBlockMustBeBlock => ErrorCode::IfBlockMustBeBlock,
        CompilerError::ElseBlockMustBeBlock => ErrorCode::ElseBlockMustBeBlock,
        CompilerError::ElseWithoutBlock => ErrorCode::ElseWithoutBlock,
        CompilerError::ElseWithoutIf => ErrorCode::ElseWithoutIf,
        CompilerError::IfFollowedByNonElse => ErrorCode::IfFollowedByNonElse,
        CompilerError::WhileWithoutCondition => ErrorCode::WhileWithoutCondition,
        CompilerError::WhileWithoutBlock => ErrorCode::WhileWithoutBlock,
        CompilerError::WhileConditionMustBeBlock => ErrorCode::WhileConditionMustBeBlock,
        CompilerError::WhileBlockMustBeBlock => ErrorCode::WhileBlockMustBeBlock,
        CompilerError::ForeachWithoutInput => ErrorCode::ForeachWithoutInput,
        CompilerError::ForeachWithoutBlock => ErrorCode::ForeachWithoutBlock,
        CompilerError::ForeachBlockMustBeBlock => ErrorCode::ForeachBlockMustBeBlock,
        CompilerError::TryWithoutBlock => ErrorCode::TryWithoutBlock,
        CompilerError::TryBlockMustBeBlock => ErrorCode::TryBlockMustBeBlock,
        CompilerError::TryWithoutCatchOrFinally => ErrorCode::TryWithoutCatchOrFinally,
        CompilerError::CatchWithoutBlock => ErrorCode::CatchWithoutBlock,
        CompilerError::CatchBlockMustBeBlock => ErrorCode::CatchBlockMustBeBlock,
        CompilerError::CatchWithoutResult => ErrorCode::CatchWithoutResult,
        CompilerError::CatchWithoutFinally => ErrorCode::CatchWithoutFinally,
        CompilerError::FinallyWithoutBlock => ErrorCode::FinallyWithoutBlock,
        CompilerError::FinallyBlockMustBeBlock => ErrorCode::FinallyBlockMustBeBlock,
        CompilerError::FinallyWithoutResult => ErrorCode::FinallyWithoutResult,
        CompilerError::ThrowWithoutException => ErrorCode::ThrowWithoutException,
        CompilerError::BadOperandType(..) => ErrorCode::BadOperandType,
        CompilerError::PrivateField(..) => ErrorCode::PrivateField,
        CompilerError::NoSuchPublicField(..) => ErrorCode::NoSuchPublicField,
        CompilerError::NoSuchPublicFieldOnValue(..) => ErrorCode::NoSuchPublicField,
        CompilerError::NoSuchPublicFieldOnRoot(..) => ErrorCode::NoSuchPublicField,
        CompilerError::ImmutableFieldOnRoot(..) => ErrorCode::ImmutableField,
        CompilerError::ImmutableFieldOnValue(..) => ErrorCode::ImmutableField,
        CompilerError::BreakOutsideLoop => ErrorCode::BreakOutsideLoop,
        CompilerError::ContinueOutsideLoop => ErrorCode::ContinueOutsideLoop,
    }
}

/// Where an error reported at the expression rooted at `root` points: a
/// load error at the source (or nowhere, when the current directory was
/// the trouble), a missing operand at its operator, an unsupported
/// operator at itself, an unmatched group at its open or close token, and
/// any other error at the expression.
pub open spec fn spec_error_location(e: CompilerError, ast: &Ast, root: int) -> ErrorLocation {
    match e {
        CompilerError::SourceLoadError(l, ..) => match l {
            SourceLoadError::CurrentDirectoryError => ErrorLocation::Generic,
            _ => ErrorLocation::SourceOnly,
        },
        CompilerError::InvalidUtf8(..) => ErrorLocation::SourceExpression(root as usize),
        CompilerError::UnsupportedCharacters(..) => ErrorLocation::SourceExpression(root as usize),
        CompilerError::IdentifierStartsWithNumber(..) => ErrorLocation::SourceExpression(root as usize),
        CompilerError::MissingOperand => ErrorLocation::SourceRange(ast.token_ranges@[spec_parent_root(ast.tokens@, root)]),
        CompilerError::AssignmentTargetMustBeIdentifier => ErrorLocation::SourceExpression(root as usize),
        CompilerError::RightSideOfDotMustBeIdentifier => ErrorLocation::SourceExpression(root as usize),
        CompilerError::OpenWithoutClose => ErrorLocation::SourceRange(ast.token_ranges@[spec_open_operator_index(ast.tokens@, root)]),
        CompilerError::CloseWithoutOpen => ErrorLocation::SourceRange(ast.token_ranges@[spec_close_operator_index(ast.tokens@, root)]),
        CompilerError::UnsupportedOperator(..) => ErrorLocation::SourceRange(ast.token_ranges@[root]),
        CompilerError::DivideByZero => ErrorLocation::SourceExpression(root as usize),
        CompilerError::NoSuchField(..) => ErrorLocation::SourceExpression(root as usize),
        CompilerError::FieldNotSet(..) => ErrorLocation::SourceExpression(root as usize),
        CompilerError::CircularDependency => ErrorLocation::SourceExpression(root as usize),
        CompilerError::IfWithoutCondition => ErrorLocation::SourceExpression(root as usize),
        CompilerError::IfWithoutBlock => ErrorLocation::SourceExpression(root as usize),
        CompilerError::IfBlockMustBeBlock => ErrorLocation::SourceExpression(root as usize),
        CompilerError::ElseBlockMustBeBlock => ErrorLocation::SourceExpression(root as usize),
        CompilerError::ElseWithoutBlock => ErrorLocation::SourceExpression(root as usize),
        CompilerError::ElseWithoutIf => ErrorLocation::SourceExpression(root as usize),
        CompilerError::IfFollowedByNonElse => ErrorLocation::SourceExpression(root as usize),
        CompilerError::WhileWithoutCondition => ErrorLocation::SourceExpression(root as usize),
        CompilerError::WhileWithoutBlock => ErrorLocation::SourceExpression(root as usize),
        CompilerError::WhileConditionMustBeBlock => ErrorLocation::SourceExpression(root as usize),
        CompilerError::WhileBlockMustBeBlock => ErrorLocation::SourceExpression(root as usize),
        CompilerError::ForeachWithoutInput => ErrorLocation::SourceExpression(root as usize),
        CompilerError::ForeachWithoutBlock => ErrorLocation::SourceExpression(root as usize),
        CompilerError::ForeachBlockMustBeBlock => ErrorLocation::SourceExpression(root as usize),
        CompilerError::TryWithoutBlock => ErrorLocation::SourceExpression(root as usize),
        CompilerError::TryBlockMustBeBlock => ErrorLocation::SourceExpression(root as usize),
        CompilerError::TryWithoutCatchOrFinally => ErrorLocation::SourceExpression(root as usize),
        CompilerError::CatchWithoutBlock => ErrorLocation::SourceExpression(root as usize),
        CompilerError::CatchBlockMustBeBlock => ErrorLocation::SourceExpression(root as usize),
        CompilerError::CatchWithoutResult => ErrorLocation::SourceExpression(root as usize),
        CompilerError::CatchWithoutFinally => ErrorLocation::SourceExpression(root as usize),
        CompilerError::FinallyWithoutBlock => ErrorLocation::SourceExpression(root as usize),
        CompilerError::FinallyBlockMustBeBlock => ErrorLocation::SourceExpression(root as usize),
        CompilerError::FinallyWithoutResult => ErrorLocation::SourceExpression(root as usize),
        CompilerError::ThrowWithoutException => ErrorLocation::SourceExpression(root as usize),
        CompilerError::BadOperandType(..) => ErrorLocation::SourceExpression(root as usize),
        CompilerError::PrivateField(..) => ErrorLocation::SourceExpression(root as usize),
        CompilerError::NoSuchPublicField(..) => ErrorLocation::SourceExpression(root as usize),
        CompilerError::NoSuchPublicFieldOnValue(..) => ErrorLocation::SourceExpression(root as usize),
        CompilerError::NoSuchPublicFieldOnRoot(..) => ErrorLocation::SourceExpression(root as usize),
        CompilerError::ImmutableFieldOnRoot(..) => ErrorLocation::SourceExpression(root as usize),
        CompilerError::ImmutableFieldOnValue(..) => ErrorLocation::SourceExpression(root as usize),
        CompilerError::BreakOutsideLoop => ErrorLocation::SourceExpression(root as usize),
        CompilerError::ContinueOutsideLoop => ErrorLocation::SourceExpression(root as usize),
    }
}

/// What the message of error `e` reported at the expression rooted at
/// `root` needs of the AST: the pool entries it names, and the expressions
/// whose text it quotes.
pub open spec fn message_ok(e: CompilerError, ast: &Ast, root: int) -> bool {
    match e {
        CompilerError::SourceLoadError(..) => true,
        CompilerError::InvalidUtf8(r) => r < ast.raw_literals@.len(),
        CompilerError::UnsupportedCharacters(l) => l < interned(&ast.literals).len(),
        CompilerError::IdentifierStartsWithNumber(l) => l < interned(&ast.literals).len(),
        CompilerError::MissingOperand => !is_whole_tree(ast.tokens@, root),
        CompilerError::AssignmentTargetMustBeIdentifier => !is_whole_tree(ast.tokens@, root) && expression_text_ok(ast, root),
        CompilerError::RightSideOfDotMustBeIdentifier => !is_whole_tree(ast.tokens@, root) && spec_parent_root(ast.tokens@, root) >= 1 && expression_text_ok(ast, spec_left_operand_root(ast.tokens@, spec_parent_root(ast.tokens@, root))) && expression_text_ok(ast, root),
        CompilerError::OpenWithoutClose => fix(ast.tokens@[spec_open_operator_index(ast.tokens@, root)]) == Fixity::Open,
        CompilerError::CloseWithoutOpen => fix(ast.tokens@[spec_open_operator_index(ast.tokens@, root)]) == Fixity::Open && fix(ast.tokens@[spec_close_operator_index(ast.tokens@, root)]) == Fixity::Close,
        CompilerError::UnsupportedOperator(value, fixity, name) => (name.0 as int) < interned(&ast.identifiers).len(),
        CompilerError::DivideByZero => true,
        CompilerError::NoSuchField(f) => f < ast.fields@.len(),
        CompilerError::FieldNotSet(f) => f < ast.fields@.len(),
        CompilerError::CircularDependency => expression_text_ok(ast, root),
        CompilerError::IfWithoutCondition => true,
        CompilerError::IfWithoutBlock => !is_whole_tree(ast.tokens@, root) && expression_text_ok(ast, spec_parent_root(ast.tokens@, root)),
        CompilerError::IfBlockMustBeBlock => expression_text_ok(ast, root),
        CompilerError::ElseBlockMustBeBlock => expression_text_ok(ast, root),
        CompilerError::ElseWithoutBlock => true,
        CompilerError::ElseWithoutIf => true,
        CompilerError::IfFollowedByNonElse => true,
        CompilerError::WhileWithoutCondition => true,
        CompilerError::WhileWithoutBlock => true,
        CompilerError::WhileConditionMustBeBlock => expression_text_ok(ast, root),
        CompilerError::WhileBlockMustBeBlock => expression_text_ok(ast, root),
        CompilerError::ForeachWithoutInput => true,
        CompilerError::ForeachWithoutBlock => true,
        CompilerError::ForeachBlockMustBeBlock => expression_text_ok(ast, root),
        CompilerError::TryWithoutBlock => true,
        CompilerError::TryBlockMustBeBlock => expression_text_ok(ast, root),
        CompilerError::TryWithoutCatchOrFinally => true,
        CompilerError::CatchWithoutBlock => true,
        CompilerError::CatchBlockMustBeBlock => expression_text_ok(ast, root),
        CompilerError::CatchWithoutResult => true,
        CompilerError::CatchWithoutFinally => true,
        CompilerError::FinallyWithoutBlock => true,
        CompilerError::FinallyBlockMustBeBlock => expression_text_ok(ast, root),
        CompilerError::FinallyWithoutResult => true,
        CompilerError::ThrowWithoutException => true,
        CompilerError::BadOperandType(value, expected) => expression_text_ok(ast, root) && !is_whole_tree(ast.tokens@, root),
        CompilerError::PrivateField(value, name) => (name.0 as int) < interned(&ast.identifiers).len(),
        CompilerError::NoSuchPublicField(value, name) => (name.0 as int) < interned(&ast.identifiers).len(),
        CompilerError::NoSuchPublicFieldOnValue(value, name) => (name.0 as int) < interned(&ast.identifiers).len(),
        CompilerError::NoSuchPublicFieldOnRoot(name) => (name.0 as int) < interned(&ast.identifiers).len(),
        CompilerError::ImmutableFieldOnRoot(f) => f < ast.fields@.len(),
        CompilerError::ImmutableFieldOnValue(value, name) => (name.0 as int) < interned(&ast.identifiers).len(),
        CompilerError::BreakOutsideLoop => true,
        CompilerError::ContinueOutsideLoop => true,
    }
}

/// The message of a load error of the source `name`, with what the system
/// said (`detail`).
pub open spec fn load_error_message(l: SourceLoadError, name: Seq<char>, detail: Seq<char>) -> Seq<char> {
    match l {
        SourceLoadError::SourceNotFound => "Source not found "@ + name + ": "@ + detail,
        SourceLoadError::IoOpenError => "I/O error opening "@ + name + ": "@ + detail,
        SourceLoadError::IoReadError => "I/O error reading "@ + name + ": "@ + detail,
        SourceLoadError::CurrentDirectoryError => "I/O error getting current directory while opening "@ + name + ": "@ + detail,
        SourceLoadError::SourceTooLarge(size) => "SourceSpec file "@ + name + " too large ("@ + spec_decimal(size as nat)
            + " bytes): source files greater than 4GB are unsupported."@,
    }
}

/// The message of error `e` reported at the expression rooted at `root`.
pub open spec fn spec_error_message(e: CompilerError, ast: &Ast, root: int) -> Seq<char> {
    match e {
        CompilerError::SourceLoadError(l, name, detail) => load_error_message(l, name@, detail@),
        CompilerError::InvalidUtf8(r) => "Invalid UTF-8 bytes! Perhaps this isn't a Berg UTF-8 source file? Invalid bytes: '"@ + hex_bytes(first_bytes(ast.raw_literals@[r as int]@)) + "'"@,
        CompilerError::UnsupportedCharacters(l) => "Unsupported Unicode characters! Perhaps this isn't a Berg source file? Unsupported characters: '"@ + interned(&ast.literals)[l as int] + "'"@,
        CompilerError::IdentifierStartsWithNumber(l) => "Field names must start with letters or '_', but '"@ + interned(&ast.literals)[l as int] + "' starts with a number! You may have mistyped the field name, or missed an operator?"@,
        CompilerError::MissingOperand => "Operator "@ + ast.spec_token_text(ast.tokens@[spec_parent_root(ast.tokens@, root)]) + " has no value on "@ + position_name(spec_operand_position(ast.tokens@, root)) + " to operate on!"@,
        CompilerError::AssignmentTargetMustBeIdentifier => "The assignment operator '"@ + ast.spec_token_text(ast.tokens@[spec_parent_root(ast.tokens@, root)]) + "' must have a field declaration or name on "@ + position_name(spec_operand_position(ast.tokens@, root)) + " (like \":foo "@ + ast.spec_token_text(ast.tokens@[spec_parent_root(ast.tokens@, root)]) + " ...\" or \"foo "@ + ast.spec_token_text(ast.tokens@[spec_parent_root(ast.tokens@, root)]) + " ...\": "@ + position_name(spec_operand_position(ast.tokens@, root)) + " is currently "@ + expression_text(ast, root) + "."@,
        CompilerError::RightSideOfDotMustBeIdentifier => "The field access operator '.' must have an identifier on the right side (like \""@ + expression_text(ast, spec_left_operand_root(ast.tokens@, spec_parent_root(ast.tokens@, root))) + ".FieldName\"): currently it is '"@ + expression_text(ast, root) + "'."@,
        CompilerError::OpenWithoutClose => "Open '"@ + ast.spec_token_text(ast.tokens@[spec_open_operator_index(ast.tokens@, root)]) + "' found without a matching close '"@ + spec_close_string(group_boundary(ast, root)) + "'."@,
        CompilerError::CloseWithoutOpen => "Close '"@ + ast.spec_token_text(ast.tokens@[spec_close_operator_index(ast.tokens@, root)]) + "' found without a matching open '"@ + spec_open_string(group_boundary(ast, root)) + "'."@,
        CompilerError::UnsupportedOperator(value, fixity, name) => "Unsupported "@ + fixity_name(fixity) + " operator "@ + interned(&ast.identifiers)[name.0 as int] + " on value "@ + value@,
        CompilerError::DivideByZero => "Division by zero is illegal. Perhaps you meant a different number on the right hand side of the '/'?"@,
        CompilerError::NoSuchField(f) => "No such field: '"@ + interned(&ast.identifiers)[ast.fields@[f as int].name.0 as int] + "'"@,
        CompilerError::FieldNotSet(f) => "Field '"@ + interned(&ast.identifiers)[ast.fields@[f as int].name.0 as int] + "' was declared, but never set to a value!"@,
        CompilerError::CircularDependency => "Circular dependency at '"@ + expression_text(ast, root) + "'!"@,
        CompilerError::IfWithoutCondition => "if statement missing a condition! Did you mean to add a condition, such as 'if x == 1'?"@,
        CompilerError::IfWithoutBlock => "if statement missing a block! if needs two arguments, a condition and then a block, such as '"@ + expression_text(ast, spec_parent_root(ast.tokens@, root)) + " { do something here; }'?"@,
        CompilerError::IfBlockMustBeBlock => "if block must be a block! Did you mean to add brackets here, like '{ "@ + expression_text(ast, root) + " }'?"@,
        CompilerError::ElseBlockMustBeBlock => "else block must be a block! Did you mean to add brackets here, like '{ "@ + expression_text(ast, root) + " }'?"@,
        CompilerError::ElseWithoutBlock => "else statement missing a block! else requires a block to run, such as '... else { do something here; }'?"@,
        CompilerError::ElseWithoutIf => "else statement without if! else can only happen after an if statement, like if 1 == 1 { } else { }"@,
        CompilerError::IfFollowedByNonElse => "Extra statement after if! if statements can only be followed by 'else' or 'else if'. Perhaps you meant to put the code in a block, or to insert a semicolon to terminate the if?"@,
        CompilerError::WhileWithoutCondition => "while statement missing a condition! Did you mean to add a condition, such as 'while x < 10'?"@,
        CompilerError::WhileWithoutBlock => "while statement missing a block! while requires a block to run, such as 'while x < 10 { x++ }'?"@,
        CompilerError::WhileConditionMustBeBlock => "while condition must be a block to ensure it can be called multiple times! Did you mean to add brackets here, like '{ "@ + expression_text(ast, root) + " }'?"@,
        CompilerError::WhileBlockMustBeBlock => "while block must be a block! Did you mean to add brackets here, like '{ "@ + expression_text(ast, root) + " }'?"@,
        CompilerError::ForeachWithoutInput => "foreach is missing input and block! It should look like: foreach Collection { :value }"@,
        CompilerError::ForeachWithoutBlock => "foreach statement missing a block! while requires a block to run, such as 'while x < 10 { x++ }'?"@,
        CompilerError::ForeachBlockMustBeBlock => "foreach block must be a block! Did you mean to add brackets here, like '{ "@ + expression_text(ast, root) + " }'?"@,
        CompilerError::TryWithoutBlock => "try statement missing a block! try requires a block to run, such as 'try { x++ }'."@,
        CompilerError::TryBlockMustBeBlock => "try block must be a block! Did you mean to add brackets here, like '{ "@ + expression_text(ast, root) + " }'?"@,
        CompilerError::TryWithoutCatchOrFinally => "try must be followed by catch or finally!"@,
        CompilerError::CatchWithoutBlock => "catch statement missing a block! catch requires a block to run, such as 'try { 1/0 } catch { :error.CompilerErrorCode }'."@,
        CompilerError::CatchBlockMustBeBlock => "catch block must be a block! Did you mean to add brackets here, like '{ "@ + expression_text(ast, root) + " }'?"@,
        CompilerError::CatchWithoutResult => "catch statement must follow an expression! For example, '{ 1/0 } catch { :error.CompilerErrorCode }'?"@,
        CompilerError::CatchWithoutFinally => "catch must be followed by finally (or nothing)!"@,
        CompilerError::FinallyWithoutBlock => "finally statement missing a block! while requires a block to run, such as 'while x < 10 { x++ }'?"@,
        CompilerError::FinallyBlockMustBeBlock => "finally block must be a block! Did you mean to add brackets here, like '{ "@ + expression_text(ast, root) + " }'?"@,
        CompilerError::FinallyWithoutResult => "finally statement must follow an expression! For example, '{ 1/0 } finally { ... }'?"@,
        CompilerError::ThrowWithoutException => "throw must be passed a value to throw! For example, 'throw 1'"@,
        CompilerError::BadOperandType(value, expected) => "The value of '"@ + expression_text(ast, root) + "' is "@ + value@ + ", but "@ + position_name(spec_operand_position(ast.tokens@, root)) + " '"@ + ast.spec_token_text(ast.tokens@[root]) + "' must be an "@ + expected@ + "!"@,
        CompilerError::PrivateField(value, name) => "Field '"@ + interned(&ast.identifiers)[name.0 as int] + "' on '"@ + value@ + "' is private and cannot be accessed with '.'! Perhaps you meant to declare the field with ':"@ + interned(&ast.identifiers)[name.0 as int] + "' instead of '"@ + interned(&ast.identifiers)[name.0 as int] + "'?"@,
        CompilerError::NoSuchPublicField(value, name) => "No field '"@ + interned(&ast.identifiers)[name.0 as int] + "' exists on '"@ + value@ + "'! Perhaps it's a misspelling?"@,
        CompilerError::NoSuchPublicFieldOnValue(value, name) => "No field '"@ + interned(&ast.identifiers)[name.0 as int] + "' exists on '"@ + value@ + "'! Perhaps it's a misspelling?"@,
        CompilerError::NoSuchPublicFieldOnRoot(name) => "No field '"@ + interned(&ast.identifiers)[name.0 as int] + "' exists on the root! By the way, how in the world did you manage to do '.' on the root? That's supposed to be impossible ..."@,
        CompilerError::ImmutableFieldOnRoot(f) => "'"@ + interned(&ast.identifiers)[ast.fields@[f as int].name.0 as int] + "' cannot be modified!"@,
        CompilerError::ImmutableFieldOnValue(value, name) => "'"@ + interned(&ast.identifiers)[name.0 as int] + "' on '"@ + value@ + "' cannot be modified!"@,
        CompilerError::BreakOutsideLoop => "break found outside loop! break must be called from within a while loop."@,
        CompilerError::ContinueOutsideLoop => "continue found outside loop! break must be called from within a while loop."@,
    }
}

impl CompilerError {
    /// The error's code.
    pub fn code(&self) -> (c: ErrorCode)
        ensures
            c == spec_error_code(*self),
    {
        match self {
            CompilerError::SourceLoadError(l, ..) => l.code(),
            CompilerError::InvalidUtf8(..) => ErrorCode::InvalidUtf8,
            CompilerError::UnsupportedCharacters(..) => ErrorCode::UnsupportedCharacters,
            CompilerError::IdentifierStartsWithNumber(..) => ErrorCode::IdentifierStartsWithNumber,
            CompilerError::MissingOperand => ErrorCode::MissingOperand,
            CompilerError::AssignmentTargetMustBeIdentifier => ErrorCode::AssignmentTargetMustBeIdentifier,
            CompilerError::RightSideOfDotMustBeIdentifier => ErrorCode::RightSideOfDotMustBeIdentifier,
            CompilerError::OpenWithoutClose => ErrorCode::OpenWithoutClose,
            CompilerError::CloseWithoutOpen => ErrorCode::CloseWithoutOpen,
            CompilerError::UnsupportedOperator(..) => ErrorCode::UnsupportedOperator,
            CompilerError::DivideByZero => ErrorCode::DivideByZero,
            CompilerError::NoSuchField(..) => ErrorCode::NoSuchField,
            CompilerError::FieldNotSet(..) => ErrorCode::FieldNotSet,
            CompilerError::CircularDependency => ErrorCode::CircularDependency,
            CompilerError::IfWithoutCondition => ErrorCode::IfWithoutCondition,
            CompilerError::IfWithoutBlock => ErrorCode::IfWithoutBlock,
            CompilerError::IfBlockMustBeBlock => ErrorCode::IfBlockMustBeBlock,
            CompilerError::ElseBlockMustBeBlock => ErrorCode::ElseBlockMustBeBlock,
            CompilerError::ElseWithoutBlock => ErrorCode::ElseWithoutBlock,
            CompilerError::ElseWithoutIf => ErrorCode::ElseWithoutIf,
            CompilerError::IfFollowedByNonElse => ErrorCode::IfFollowedByNonElse,
            CompilerError::WhileWithoutCondition => ErrorCode::WhileWithoutCondition,
            CompilerError::WhileWithoutBlock => ErrorCode::WhileWithoutBlock,
            CompilerError::WhileConditionMustBeBlock => ErrorCode::WhileConditionMustBeBlock,
            CompilerError::WhileBlockMustBeBlock => ErrorCode::WhileBlockMustBeBlock,
            CompilerError::ForeachWithoutInput => ErrorCode::ForeachWithoutInput,
            CompilerError::ForeachWithoutBlock => ErrorCode::ForeachWithoutBlock,
            CompilerError::ForeachBlockMustBeBlock => ErrorCode::ForeachBlockMustBeBlock,
            CompilerError::TryWithoutBlock => ErrorCode::TryWithoutBlock,
            CompilerError::TryBlockMustBeBlock => ErrorCode::TryBlockMustBeBlock,
            CompilerError::TryWithoutCatchOrFinally => ErrorCode::TryWithoutCatchOrFinally,
            CompilerError::CatchWithoutBlock => ErrorCode::CatchWithoutBlock,
            CompilerError::CatchBlockMustBeBlock => ErrorCode::CatchBlockMustBeBlock,
            CompilerError::CatchWithoutResult => ErrorCode::CatchWithoutResult,
            CompilerError::CatchWithoutFinally => ErrorCode::CatchWithoutFinally,
            CompilerError::FinallyWithoutBlock => ErrorCode::FinallyWithoutBlock,
            CompilerError::FinallyBlockMustBeBlock => ErrorCode::FinallyBlockMustBeBlock,
            CompilerError::FinallyWithoutResult => ErrorCode::FinallyWithoutResult,
            CompilerError::ThrowWithoutException => ErrorCode::ThrowWithoutException,
            CompilerError::BadOperandType(..) => ErrorCode::BadOperandType,
            CompilerError::PrivateField(..) => ErrorCode::PrivateField,
            CompilerError::NoSuchPublicField(..) => ErrorCode::NoSuchPublicField,
            CompilerError::NoSuchPublicFieldOnValue(..) => ErrorCode::NoSuchPublicField,
            CompilerError::NoSuchPublicFieldOnRoot(..) => ErrorCode::NoSuchPublicField,
            CompilerError::ImmutableFieldOnRoot(..) => ErrorCode::ImmutableField,
            CompilerError::ImmutableFieldOnValue(..) => ErrorCode::ImmutableField,
            CompilerError::BreakOutsideLoop => ErrorCode::BreakOutsideLoop,
            CompilerError::ContinueOutsideLoop => ErrorCode::ContinueOutsideLoop,
        }
    }

    /// Where the error, reported at the expression rooted at `root`, points.
    pub fn location(&self, ast: &Ast, root: AstIndex) -> (l: ErrorLocation)
        requires
            tree_wf(ast.tokens@),
            root < ast.tokens@.len(),
            ast.tokens@.len() == ast.token_ranges@.len(),
            self is MissingOperand ==> !is_whole_tree(ast.tokens@, root as int),
        ensures
            l == spec_error_location(*self, ast, root as int),
    {
        proof {
            if self is MissingOperand {
                crate::navigation::lemma_parent_root(ast.tokens@, root as int);
            }
            assert(crate::navigation::open_matched(ast.tokens@, root as int));
            assert(crate::navigation::close_matched(ast.tokens@, root as int));
        }
        match self {
            CompilerError::SourceLoadError(l, ..) => match l {
                SourceLoadError::CurrentDirectoryError => ErrorLocation::Generic,
                _ => ErrorLocation::SourceOnly,
            },
            CompilerError::InvalidUtf8(..) => ErrorLocation::SourceExpression(root),
            CompilerError::UnsupportedCharacters(..) => ErrorLocation::SourceExpression(root),
            CompilerError::IdentifierStartsWithNumber(..) => ErrorLocation::SourceExpression(root),
            CompilerError::MissingOperand => ErrorLocation::SourceRange(ast.token_ranges[parent_root(ast, root)]),
            CompilerError::AssignmentTargetMustBeIdentifier => ErrorLocation::SourceExpression(root),
            CompilerError::RightSideOfDotMustBeIdentifier => ErrorLocation::SourceExpression(root),
            CompilerError::OpenWithoutClose => ErrorLocation::SourceRange(ast.token_ranges[open_operator_index(ast, root)]),
            CompilerError::CloseWithoutOpen => ErrorLocation::SourceRange(ast.token_ranges[close_operator_index(ast, root)]),
            CompilerError::UnsupportedOperator(..) => ErrorLocation::SourceRange(ast.token_ranges[root]),
            CompilerError::DivideByZero => ErrorLocation::SourceExpression(root),
            CompilerError::NoSuchField(..) => ErrorLocation::SourceExpression(root),
            CompilerError::FieldNotSet(..) => ErrorLocation::SourceExpression(root),
            CompilerError::CircularDependency => ErrorLocation::SourceExpression(root),
            CompilerError::IfWithoutCondition => ErrorLocation::SourceExpression(root),
            CompilerError::IfWithoutBlock => ErrorLocation::SourceExpression(root),
            CompilerError::IfBlockMustBeBlock => ErrorLocation::SourceExpression(root),
            CompilerError::ElseBlockMustBeBlock => ErrorLocation::SourceExpression(root),
            CompilerError::ElseWithoutBlock => ErrorLocation::SourceExpression(root),
            CompilerError::ElseWithoutIf => ErrorLocation::SourceExpression(root),
            CompilerError::IfFollowedByNonElse => ErrorLocation::SourceExpression(root),
            CompilerError::WhileWithoutCondition => ErrorLocation::SourceExpression(root),
            CompilerError::WhileWithoutBlock => ErrorLocation::SourceExpression(root),
            CompilerError::WhileConditionMustBeBlock => ErrorLocation::SourceExpression(root),
            CompilerError::WhileBlockMustBeBlock => ErrorLocation::SourceExpression(root),
            CompilerError::ForeachWithoutInput => ErrorLocation::SourceExpression(root),
            CompilerError::ForeachWithoutBlock => ErrorLocation::SourceExpression(root),
            CompilerError::ForeachBlockMustBeBlock => ErrorLocation::SourceExpression(root),
            CompilerError::TryWithoutBlock => ErrorLocation::SourceExpression(root),
            CompilerError::TryBlockMustBeBlock => ErrorLocation::SourceExpression(root),
            CompilerError::TryWithoutCatchOrFinally => ErrorLocation::SourceExpression(root),
            CompilerError::CatchWithoutBlock => ErrorLocation::SourceExpression(root),
            CompilerError::CatchBlockMustBeBlock => ErrorLocation::SourceExpression(root),
            CompilerError::CatchWithoutResult => ErrorLocation::SourceExpression(root),
            CompilerError::CatchWithoutFinally => ErrorLocation::SourceExpression(root),
            CompilerError::FinallyWithoutBlock => ErrorLocation::SourceExpression(root),
            CompilerError::FinallyBlockMustBeBlock => ErrorLocation::SourceExpression(root),
            CompilerError::FinallyWithoutResult => ErrorLocation::SourceExpression(root),
            CompilerError::ThrowWithoutException => ErrorLocation::SourceExpression(root),
            CompilerError::BadOperandType(..) => ErrorLocation::SourceExpression(root),
            CompilerError::PrivateField(..) => ErrorLocation::SourceExpression(root),
            CompilerError::NoSuchPublicField(..) => ErrorLocation::SourceExpression(root),
            CompilerError::NoSuchPublicFieldOnValue(..) => ErrorLocation::SourceExpression(root),
            CompilerError::NoSuchPublicFieldOnRoot(..) => ErrorLocation::SourceExpression(root),
            CompilerError::ImmutableFieldOnRoot(..) => ErrorLocation::SourceExpression(root),
            CompilerError::ImmutableFieldOnValue(..) => ErrorLocation::SourceExpression(root),
            CompilerError::BreakOutsideLoop => ErrorLocation::SourceExpression(root),
            CompilerError::ContinueOutsideLoop => ErrorLocation::SourceExpression(root),
        }
    }

    /// The message of the error, reported at the expression rooted at
    /// `root`.
    pub fn message(&self, ast: &Ast, root: AstIndex) -> (s: String)
        requires
            ast_consistent(ast),
            tree_wf(ast.tokens@),
            root < ast.tokens@.len(),
            message_ok(*self, ast, root as int),
        ensures
            s@ == spec_error_message(*self, ast, root as int),
    {
        let tree = AstExpressionTree::new(ast, root);
        proof {
            assert(crate::navigation::open_matched(ast.tokens@, root as int));
            assert(crate::navigation::close_matched(ast.tokens@, root as int));
            if !is_whole_tree(ast.tokens@, root as int) {
                crate::navigation::lemma_parent_root(ast.tokens@, root as int);
                let p = spec_parent_root(ast.tokens@, root as int);
                assert(ast.token_refs_valid(ast.tokens@[p]));
            }
            assert(ast.token_refs_valid(ast.tokens@[root as int]));
            let o = spec_open_operator_index(ast.tokens@, root as int);
            let c = spec_close_operator_index(ast.tokens@, root as int);
            if 0 <= o < ast.tokens@.len() {
                assert(ast.token_refs_valid(ast.tokens@[o]));
            }
            if 0 <= c < ast.tokens@.len() {
                assert(ast.token_refs_valid(ast.tokens@[c]));
            }
        }
        match self {
            CompilerError::SourceLoadError(l, name, detail) => load_error_string(*l, name.as_str(), detail.as_str()),
            CompilerError::InvalidUtf8(r) => {
                let mut s = String::new();
                s.append("Invalid UTF-8 bytes! Perhaps this isn't a Berg UTF-8 source file? Invalid bytes: '");
                let text = hex_text(&ast.raw_literals[*r]); s.append(text.as_str());
                s.append("'");
                s
            },
            CompilerError::UnsupportedCharacters(l) => {
                let mut s = String::new();
                s.append("Unsupported Unicode characters! Perhaps this isn't a Berg source file? Unsupported characters: '");
                s.append(ast.literal_string(*l));
                s.append("'");
                s
            },
            CompilerError::IdentifierStartsWithNumber(l) => {
                let mut s = String::new();
                s.append("Field names must start with letters or '_', but '");
                s.append(ast.literal_string(*l));
                s.append("' starts with a number! You may have mistyped the field name, or missed an operator?");
                s
            },
            CompilerError::MissingOperand => {
                let mut s = String::new();
                s.append("Operator ");
                let text = tree.parent_expression().token_string(); s.append(text.as_str());
                s.append(" has no value on ");
                s.append(tree.operand_position().name());
                s.append(" to operate on!");
                s
            },
            CompilerError::AssignmentTargetMustBeIdentifier => {
                let mut s = String::new();
                s.append("The assignment operator '");
                let text = tree.parent_expression().token_string(); s.append(text.as_str());
                s.append("' must have a field declaration or name on ");
                s.append(tree.operand_position().name());
                s.append(" (like \":foo ");
                let text = tree.parent_expression().token_string(); s.append(text.as_str());
                s.append(" ...\" or \"foo ");
                let text = tree.parent_expression().token_string(); s.append(text.as_str());
                s.append(" ...\": ");
                s.append(tree.operand_position().name());
                s.append(" is currently ");
                let text = tree.to_string(); s.append(text.as_str());
                s.append(".");
                s
            },
            CompilerError::RightSideOfDotMustBeIdentifier => {
                let mut s = String::new();
                s.append("The field access operator '.' must have an identifier on the right side (like \"");
                let text = tree.parent_expression().left_expression().to_string(); s.append(text.as_str());
                s.append(".FieldName\"): currently it is '");
                let text = tree.to_string(); s.append(text.as_str());
                s.append("'.");
                s
            },
            CompilerError::OpenWithoutClose => {
                let mut s = String::new();
                s.append("Open '");
                let text = tree.open_token().to_string(ast); s.append(text.as_str());
                s.append("' found without a matching close '");
                s.append(tree.boundary().close_string());
                s.append("'.");
                s
            },
            CompilerError::CloseWithoutOpen => {
                let mut s = String::new();
                s.append("Close '");
                let text = tree.close_token().to_string(ast); s.append(text.as_str());
                s.append("' found without a matching open '");
                s.append(tree.boundary().open_string());
                s.append("'.");
                s
            },
            CompilerError::UnsupportedOperator(value, fixity, name) => {
                let mut s = String::new();
                s.append("Unsupported ");
                s.append((*fixity).name());
                s.append(" operator ");
                s.append(ast.identifier_string(*name));
                s.append(" on value ");
                s.append(value.as_str());
                s
            },
            CompilerError::DivideByZero => {
                let mut s = String::new();
                s.append("Division by zero is illegal. Perhaps you meant a different number on the right hand side of the '/'?");
                s
            },
            CompilerError::NoSuchField(f) => {
                let mut s = String::new();
                s.append("No such field: '");
                s.append(ast.field_name(*f));
                s.append("'");
                s
            },
            CompilerError::FieldNotSet(f) => {
                let mut s = String::new();
                s.append("Field '");
                s.append(ast.field_name(*f));
                s.append("' was declared, but never set to a value!");
                s
            },
            CompilerError::CircularDependency => {
                let mut s = String::new();
                s.append("Circular dependency at '");
                let text = tree.to_string(); s.append(text.as_str());
                s.append("'!");
                s
            },
            CompilerError::IfWithoutCondition => {
                let mut s = String::new();
                s.append("if statement missing a condition! Did you mean to add a condition, such as 'if x == 1'?");
                s
            },
            CompilerError::IfWithoutBlock => {
                let mut s = String::new();
                s.append("if statement missing a block! if needs two arguments, a condition and then a block, such as '");
                let text = tree.parent_expression().to_string(); s.append(text.as_str());
                s.append(" { do something here; }'?");
                s
            },
            CompilerError::IfBlockMustBeBlock => {
                let mut s = String::new();
                s.append("if block must be a block! Did you mean to add brackets here, like '{ ");
                let text = tree.to_string(); s.append(text.as_str());
                s.append(" }'?");
                s
            },
            CompilerError::ElseBlockMustBeBlock => {
                let mut s = String::new();
                s.append("else block must be a block! Did you mean to add brackets here, like '{ ");
                let text = tree.to_string(); s.append(text.as_str());
                s.append(" }'?");
                s
            },
            CompilerError::ElseWithoutBlock => {
                let mut s = String::new();
                s.append("else statement missing a block! else requires a block to run, such as '... else { do something here; }'?");
                s
            },
            CompilerError::ElseWithoutIf => {
                let mut s = String::new();
                s.append("else statement without if! else can only happen after an if statement, like if 1 == 1 { } else { }");
                s
            },
            CompilerError::IfFollowedByNonElse => {
                let mut s = String::new();
                s.append("Extra statement after if! if statements can only be followed by 'else' or 'else if'. Perhaps you meant to put the code in a block, or to insert a semicolon to terminate the if?");
                s
            },
            CompilerError::WhileWithoutCondition => {
                let mut s = String::new();
                s.append("while statement missing a condition! Did you mean to add a condition, such as 'while x < 10'?");
                s
            },
            CompilerError::WhileWithoutBlock => {
                let mut s = String::new();
                s.append("while statement missing a block! while requires a block to run, such as 'while x < 10 { x++ }'?");
                s
            },
            CompilerError::WhileConditionMustBeBlock => {
                let mut s = String::new();
                s.append("while condition must be a block to ensure it can be called multiple times! Did you mean to add brackets here, like '{ ");
                let text = tree.to_string(); s.append(text.as_str());
                s.append(" }'?");
                s
            },
            CompilerError::WhileBlockMustBeBlock => {
                let mut s = String::new();
                s.append("while block must be a block! Did you mean to add brackets here, like '{ ");
                let text = tree.to_string(); s.append(text.as_str());
                s.append(" }'?");
                s
            },
            CompilerError::ForeachWithoutInput => {
                let mut s = String::new();
                s.append("foreach is missing input and block! It should look like: foreach Collection { :value }");
                s
            },
            CompilerError::ForeachWithoutBlock => {
                let mut s = String::new();
                s.append("foreach statement missing a block! while requires a block to run, such as 'while x < 10 { x++ }'?");
                s
            },
            CompilerError::ForeachBlockMustBeBlock => {
                let mut s = String::new();
                s.append("foreach block must be a block! Did you mean to add brackets here, like '{ ");
                let text = tree.to_string(); s.append(text.as_str());
                s.append(" }'?");
                s
            },
            CompilerError::TryWithoutBlock => {
                let mut s = String::new();
                s.append("try statement missing a block! try requires a block to run, such as 'try { x++ }'.");
                s
            },
            CompilerError::TryBlockMustBeBlock => {
                let mut s = String::new();
                s.append("try block must be a block! Did you mean to add brackets here, like '{ ");
                let text = tree.to_string(); s.append(text.as_str());
                s.append(" }'?");
                s
            },
            CompilerError::TryWithoutCatchOrFinally => {
                let mut s = String::new();
                s.append("try must be followed by catch or finally!");
                s
            },
            CompilerError::CatchWithoutBlock => {
                let mut s = String::new();
                s.append("catch statement missing a block! catch requires a block to run, such as 'try { 1/0 } catch { :error.CompilerErrorCode }'.");
                s
            },
            CompilerError::CatchBlockMustBeBlock => {
                let mut s = String::new();
                s.append("catch block must be a block! Did you mean to add brackets here, like '{ ");
                let text = tree.to_string(); s.append(text.as_str());
                s.append(" }'?");
                s
            },
            CompilerError::CatchWithoutResult => {
                let mut s = String::new();
                s.append("catch statement must follow an expression! For example, '{ 1/0 } catch { :error.CompilerErrorCode }'?");
                s
            },
            CompilerError::CatchWithoutFinally => {
                let mut s = String::new();
                s.append("catch must be followed by finally (or nothing)!");
                s
            },
            CompilerError::FinallyWithoutBlock => {
                let mut s = String::new();
                s.append("finally statement missing a block! while requires a block to run, such as 'while x < 10 { x++ }'?");
                s
            },
            CompilerError::FinallyBlockMustBeBlock => {
                let mut s = String::new();
                s.append("finally block must be a block! Did you mean to add brackets here, like '{ ");
                let text = tree.to_string(); s.append(text.as_str());
                s.append(" }'?");
                s
            },
            CompilerError::FinallyWithoutResult => {
                let mut s = String::new();
                s.append("finally statement must follow an expression! For example, '{ 1/0 } finally { ... }'?");
                s
            },
            CompilerError::ThrowWithoutException => {
                let mut s = String::new();
                s.append("throw must be passed a value to throw! For example, 'throw 1'");
                s
            },
            CompilerError::BadOperandType(value, expected) => {
                let mut s = String::new();
                s.append("The value of '");
                let text = tree.to_string(); s.append(text.as_str());
                s.append("' is ");
                s.append(value.as_str());
                s.append(", but ");
                s.append(tree.operand_position().name());
                s.append(" '");
                let text = tree.token_string(); s.append(text.as_str());
                s.append("' must be an ");
                s.append(expected.as_str());
                s.append("!");
                s
            },
            CompilerError::PrivateField(value, name) => {
                let mut s = String::new();
                s.append("Field '");
                s.append(ast.identifier_string(*name));
                s.append("' on '");
                s.append(value.as_str());
                s.append("' is private and cannot be accessed with '.'! Perhaps you meant to declare the field with ':");
                s.append(ast.identifier_string(*name));
                s.append("' instead of '");
                s.append(ast.identifier_string(*name));
                s.append("'?");
                s
            },
            CompilerError::NoSuchPublicField(value, name) => {
                let mut s = String::new();
                s.append("No field '");
                s.append(ast.identifier_string(*name));
                s.append("' exists on '");
                s.append(value.as_str());
                s.append("'! Perhaps it's a misspelling?");
                s
            },
            CompilerError::NoSuchPublicFieldOnValue(value, name) => {
                let mut s = String::new();
                s.append("No field '");
                s.append(ast.identifier_string(*name));
                s.append("' exists on '");
                s.append(value.as_str());
                s.append("'! Perhaps it's a misspelling?");
                s
            },
            CompilerError::NoSuchPublicFieldOnRoot(name) => {
                let mut s = String::new();
                s.append("No field '");
                s.append(ast.identifier_string(*name));
                s.append("' exists on the root! By the way, how in the world did you manage to do '.' on the root? That's supposed to be impossible ...");
                s
            },
            CompilerError::ImmutableFieldOnRoot(f) => {
                let mut s = String::new();
                s.append("'");
                s.append(ast.field_name(*f));
                s.append("' cannot be modified!");
                s
            },
            CompilerError::ImmutableFieldOnValue(value, name) => {
                let mut s = String::new();
                s.append("'");
                s.append(ast.identifier_string(*name));
                s.append("' on '");
                s.append(value.as_str());
                s.append("' cannot be modified!");
                s
            },
            CompilerError::BreakOutsideLoop => {
                let mut s = String::new();
                s.append("break found outside loop! break must be called from within a while loop.");
                s
            },
            CompilerError::ContinueOutsideLoop => {
                let mut s = String::new();
                s.append("continue found outside loop! break must be called from within a while loop.");
                s
            },
        }
    }
}

/// The message of a load error of the source `name`, with what the system
/// said (`detail`).
pub fn load_error_string(l: SourceLoadError, name: &str, detail: &str) -> (s: String)
    ensures
        s@ == load_error_message(l, name@, detail@),
{
    let mut s = String::new();
    match l {
        SourceLoadError::SourceNotFound => {
            s.append("Source not found ");
            s.append(name);
            s.append(": ");
            s.append(detail);
        },
        SourceLoadError::IoOpenError => {
            s.append("I/O error opening ");
            s.append(name);
            s.append(": ");
            s.append(detail);
        },
        SourceLoadError::IoReadError => {
            s.append("I/O error reading ");
            s.append(name);
            s.append(": ");
            s.append(detail);
        },
        SourceLoadError::CurrentDirectoryError => {
            s.append("I/O error getting current directory while opening ");
            s.append(name);
            s.append(": ");
            s.append(detail);
        },
        SourceLoadError::SourceTooLarge(size) => {
            s.append("SourceSpec file ");
            s.append(name);
            s.append(" too large (");
            let digits = decimal_string(size);
            s.append(digits.as_str());
            s.append(" bytes): source files greater than 4GB are unsupported.");
        },
    }
    s
}

} // verus!
