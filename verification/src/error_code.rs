use vstd::prelude::*;

verus! {

/// Error codes reported by the compiler. Each has a number: source errors
/// start at 101, format (tokenizer) errors at 201, structure (parser) errors
/// at 301 and type errors at 1001.
#[derive(Debug, Copy, Clone, PartialEq, Eq, Structural)]
pub enum ErrorCode {
    // Compile errors related to system (source)
    SourceNotFound,
    IoOpenError,
    IoReadError,
    CurrentDirectoryError,
    SourceTooLarge,
    // Compile errors related to format (tokenizer)
    InvalidUtf8,
    UnsupportedCharacters,
    IdentifierStartsWithNumber,
    // Compile errors related to structure (parser)
    MissingOperand,
    AssignmentTargetMustBeIdentifier,
    RightSideOfDotMustBeIdentifier,
    OpenWithoutClose,
    CloseWithoutOpen,
    IfWithoutCondition,
    IfWithoutBlock,
    IfBlockMustBeBlock,
    ElseBlockMustBeBlock,
    ElseWithoutBlock,
    ElseWithoutIf,
    IfFollowedByNonElse,
    WhileWithoutCondition,
    WhileWithoutBlock,
    WhileConditionMustBeBlock,
    WhileBlockMustBeBlock,
    ForeachWithoutInput,
    ForeachWithoutBlock,
    ForeachBlockMustBeBlock,
    TryWithoutBlock,
    TryBlockMustBeBlock,
    TryWithoutCatchOrFinally,
    CatchWithoutBlock,
    CatchBlockMustBeBlock,
    CatchWithoutResult,
    CatchWithoutFinally,
    FinallyWithoutBlock,
    FinallyBlockMustBeBlock,
    FinallyWithoutResult,
    ThrowWithoutException,
    // Compile errors met when checking types
    UnsupportedOperator,
    DivideByZero,
    BadOperandType,
    NoSuchField,
    NoSuchPublicField,
    FieldNotSet,
    CircularDependency,
    PrivateField,
    ImmutableField,
    BreakOutsideLoop,
    ContinueOutsideLoop,
}

/// The name of an error code.
pub open spec fn error_code_name(code: ErrorCode) -> Seq<char> {
    match code {
        ErrorCode::SourceNotFound => "SourceNotFound"@,
        ErrorCode::IoOpenError => "IoOpenError"@,
        ErrorCode::IoReadError => "IoReadError"@,
        ErrorCode::CurrentDirectoryError => "CurrentDirectoryError"@,
        ErrorCode::SourceTooLarge => "SourceTooLarge"@,
        ErrorCode::InvalidUtf8 => "InvalidUtf8"@,
        ErrorCode::UnsupportedCharacters => "UnsupportedCharacters"@,
        ErrorCode::IdentifierStartsWithNumber => "IdentifierStartsWithNumber"@,
        ErrorCode::MissingOperand => "MissingOperand"@,
        ErrorCode::AssignmentTargetMustBeIdentifier => "AssignmentTargetMustBeIdentifier"@,
        ErrorCode::RightSideOfDotMustBeIdentifier => "RightSideOfDotMustBeIdentifier"@,
        ErrorCode::OpenWithoutClose => "OpenWithoutClose"@,
        ErrorCode::CloseWithoutOpen => "CloseWithoutOpen"@,
        ErrorCode::IfWithoutCondition => "IfWithoutCondition"@,
        ErrorCode::IfWithoutBlock => "IfWithoutBlock"@,
        ErrorCode::IfBlockMustBeBlock => "IfBlockMustBeBlock"@,
        ErrorCode::ElseBlockMustBeBlock => "ElseBlockMustBeBlock"@,
        ErrorCode::ElseWithoutBlock => "ElseWithoutBlock"@,
        ErrorCode::ElseWithoutIf => "ElseWithoutIf"@,
        ErrorCode::IfFollowedByNonElse => "IfFollowedByNonElse"@,
        ErrorCode::WhileWithoutCondition => "WhileWithoutCondition"@,
        ErrorCode::WhileWithoutBlock => "WhileWithoutBlock"@,
        ErrorCode::WhileConditionMustBeBlock => "WhileConditionMustBeBlock"@,
        ErrorCode::WhileBlockMustBeBlock => "WhileBlockMustBeBlock"@,
        ErrorCode::ForeachWithoutInput => "ForeachWithoutInput"@,
        ErrorCode::ForeachWithoutBlock => "ForeachWithoutBlock"@,
        ErrorCode::ForeachBlockMustBeBlock => "ForeachBlockMustBeBlock"@,
        ErrorCode::TryWithoutBlock => "TryWithoutBlock"@,
        ErrorCode::TryBlockMustBeBlock => "TryBlockMustBeBlock"@,
        ErrorCode::TryWithoutCatchOrFinally => "TryWithoutCatchOrFinally"@,
        ErrorCode::CatchWithoutBlock => "CatchWithoutBlock"@,
        ErrorCode::CatchBlockMustBeBlock => "CatchBlockMustBeBlock"@,
        ErrorCode::CatchWithoutResult => "CatchWithoutResult"@,
        ErrorCode::CatchWithoutFinally => "CatchWithoutFinally"@,
        ErrorCode::FinallyWithoutBlock => "FinallyWithoutBlock"@,
        ErrorCode::FinallyBlockMustBeBlock => "FinallyBlockMustBeBlock"@,
        ErrorCode::FinallyWithoutResult => "FinallyWithoutResult"@,
        ErrorCode::ThrowWithoutException => "ThrowWithoutException"@,
        ErrorCode::UnsupportedOperator => "UnsupportedOperator"@,
        ErrorCode::DivideByZero => "DivideByZero"@,
        ErrorCode::BadOperandType => "BadOperandType"@,
        ErrorCode::NoSuchField => "NoSuchField"@,
        ErrorCode::NoSuchPublicField => "NoSuchPublicField"@,
        ErrorCode::FieldNotSet => "FieldNotSet"@,
        ErrorCode::CircularDependency => "CircularDependency"@,
        ErrorCode::PrivateField => "PrivateField"@,
        ErrorCode::ImmutableField => "ImmutableField"@,
        ErrorCode::BreakOutsideLoop => "BreakOutsideLoop"@,
        ErrorCode::ContinueOutsideLoop => "ContinueOutsideLoop"@,
    }
}

/// The number of an error code: source errors from 101, format errors
/// from 201, structure errors from 301, type errors from 1001.
pub open spec fn error_code_number(code: ErrorCode) -> u32 {
    match code {
        ErrorCode::SourceNotFound => 101,
        ErrorCode::IoOpenError => 102,
        ErrorCode::IoReadError => 103,
        ErrorCode::CurrentDirectoryError => 104,
        ErrorCode::SourceTooLarge => 105,
        ErrorCode::InvalidUtf8 => 201,
        ErrorCode::UnsupportedCharacters => 202,
        ErrorCode::IdentifierStartsWithNumber => 203,
        ErrorCode::MissingOperand => 301,
        ErrorCode::AssignmentTargetMustBeIdentifier => 302,
        ErrorCode::RightSideOfDotMustBeIdentifier => 303,
        ErrorCode::OpenWithoutClose => 304,
        ErrorCode::CloseWithoutOpen => 305,
        ErrorCode::IfWithoutCondition => 306,
        ErrorCode::IfWithoutBlock => 307,
        ErrorCode::IfBlockMustBeBlock => 308,
        ErrorCode::ElseBlockMustBeBlock => 309,
        ErrorCode::ElseWithoutBlock => 310,
        ErrorCode::ElseWithoutIf => 311,
        ErrorCode::IfFollowedByNonElse => 312,
        ErrorCode::WhileWithoutCondition => 313,
        ErrorCode::WhileWithoutBlock => 314,
        ErrorCode::WhileConditionMustBeBlock => 315,
        ErrorCode::WhileBlockMustBeBlock => 316,
        ErrorCode::ForeachWithoutInput => 317,
        ErrorCode::ForeachWithoutBlock => 318,
        ErrorCode::ForeachBlockMustBeBlock => 319,
        ErrorCode::TryWithoutBlock => 320,
        ErrorCode::TryBlockMustBeBlock => 321,
        ErrorCode::TryWithoutCatchOrFinally => 322,
        ErrorCode::CatchWithoutBlock => 323,
        ErrorCode::CatchBlockMustBeBlock => 324,
        ErrorCode::CatchWithoutResult => 325,
        ErrorCode::CatchWithoutFinally => 326,
        ErrorCode::FinallyWithoutBlock => 327,
        ErrorCode::FinallyBlockMustBeBlock => 328,
        ErrorCode::FinallyWithoutResult => 329,
        ErrorCode::ThrowWithoutException => 330,
        ErrorCode::UnsupportedOperator => 1001,
        ErrorCode::DivideByZero => 1002,
        ErrorCode::BadOperandType => 1003,
        ErrorCode::NoSuchField => 1004,
        ErrorCode::NoSuchPublicField => 1005,
        ErrorCode::FieldNotSet => 1006,
        ErrorCode::CircularDependency => 1007,
        ErrorCode::PrivateField => 1008,
        ErrorCode::ImmutableField => 1009,
        ErrorCode::BreakOutsideLoop => 1010,
        ErrorCode::ContinueOutsideLoop => 1011,
    }
}

impl ErrorCode {
    /// The number of the error code.
    pub fn number(self) -> (n: u32)
        ensures
            n == error_code_number(self),
    {
        match self {
            ErrorCode::SourceNotFound => 101,
            ErrorCode::IoOpenError => 102,
            ErrorCode::IoReadError => 103,
            ErrorCode::CurrentDirectoryError => 104,
            ErrorCode::SourceTooLarge => 105,
            ErrorCode::InvalidUtf8 => 201,
            ErrorCode::UnsupportedCharacters => 202,
            ErrorCode::IdentifierStartsWithNumber => 203,
            ErrorCode::MissingOperand => 301,
            ErrorCode::AssignmentTargetMustBeIdentifier => 302,
            ErrorCode::RightSideOfDotMustBeIdentifier => 303,
            ErrorCode::OpenWithoutClose => 304,
            ErrorCode::CloseWithoutOpen => 305,
            ErrorCode::IfWithoutCondition => 306,
            ErrorCode::IfWithoutBlock => 307,
            ErrorCode::IfBlockMustBeBlock => 308,
            ErrorCode::ElseBlockMustBeBlock => 309,
            ErrorCode::ElseWithoutBlock => 310,
            ErrorCode::ElseWithoutIf => 311,
            ErrorCode::IfFollowedByNonElse => 312,
            ErrorCode::WhileWithoutCondition => 313,
            ErrorCode::WhileWithoutBlock => 314,
            ErrorCode::WhileConditionMustBeBlock => 315,
            ErrorCode::WhileBlockMustBeBlock => 316,
            ErrorCode::ForeachWithoutInput => 317,
            ErrorCode::ForeachWithoutBlock => 318,
            ErrorCode::ForeachBlockMustBeBlock => 319,
            ErrorCode::TryWithoutBlock => 320,
            ErrorCode::TryBlockMustBeBlock => 321,
            ErrorCode::TryWithoutCatchOrFinally => 322,
            ErrorCode::CatchWithoutBlock => 323,
            ErrorCode::CatchBlockMustBeBlock => 324,
            ErrorCode::CatchWithoutResult => 325,
            ErrorCode::CatchWithoutFinally => 326,
            ErrorCode::FinallyWithoutBlock => 327,
            ErrorCode::FinallyBlockMustBeBlock => 328,
            ErrorCode::FinallyWithoutResult => 329,
            ErrorCode::ThrowWithoutException => 330,
            ErrorCode::UnsupportedOperator => 1001,
            ErrorCode::DivideByZero => 1002,
            ErrorCode::BadOperandType => 1003,
            ErrorCode::NoSuchField => 1004,
            ErrorCode::NoSuchPublicField => 1005,
            ErrorCode::FieldNotSet => 1006,
            ErrorCode::CircularDependency => 1007,
            ErrorCode::PrivateField => 1008,
            ErrorCode::ImmutableField => 1009,
            ErrorCode::BreakOutsideLoop => 1010,
            ErrorCode::ContinueOutsideLoop => 1011,
        }
    }

    /// The name of the error code.
    pub fn name(self) -> (s: &'static str)
        ensures
            s@ == error_code_name(self),
    {
        match self {
            ErrorCode::SourceNotFound => "SourceNotFound",
            ErrorCode::IoOpenError => "IoOpenError",
            ErrorCode::IoReadError => "IoReadError",
            ErrorCode::CurrentDirectoryError => "CurrentDirectoryError",
            ErrorCode::SourceTooLarge => "SourceTooLarge",
            ErrorCode::InvalidUtf8 => "InvalidUtf8",
            ErrorCode::UnsupportedCharacters => "UnsupportedCharacters",
            ErrorCode::IdentifierStartsWithNumber => "IdentifierStartsWithNumber",
            ErrorCode::MissingOperand => "MissingOperand",
            ErrorCode::AssignmentTargetMustBeIdentifier => "AssignmentTargetMustBeIdentifier",
            ErrorCode::RightSideOfDotMustBeIdentifier => "RightSideOfDotMustBeIdentifier",
            ErrorCode::OpenWithoutClose => "OpenWithoutClose",
            ErrorCode::CloseWithoutOpen => "CloseWithoutOpen",
            ErrorCode::IfWithoutCondition => "IfWithoutCondition",
            ErrorCode::IfWithoutBlock => "IfWithoutBlock",
            ErrorCode::IfBlockMustBeBlock => "IfBlockMustBeBlock",
            ErrorCode::ElseBlockMustBeBlock => "ElseBlockMustBeBlock",
            ErrorCode::ElseWithoutBlock => "ElseWithoutBlock",
            ErrorCode::ElseWithoutIf => "ElseWithoutIf",
            ErrorCode::IfFollowedByNonElse => "IfFollowedByNonElse",
            ErrorCode::WhileWithoutCondition => "WhileWithoutCondition",
            ErrorCode::WhileWithoutBlock => "WhileWithoutBlock",
            ErrorCode::WhileConditionMustBeBlock => "WhileConditionMustBeBlock",
            ErrorCode::WhileBlockMustBeBlock => "WhileBlockMustBeBlock",
            ErrorCode::ForeachWithoutInput => "ForeachWithoutInput",
            ErrorCode::ForeachWithoutBlock => "ForeachWithoutBlock",
            ErrorCode::ForeachBlockMustBeBlock => "ForeachBlockMustBeBlock",
            ErrorCode::TryWithoutBlock => "TryWithoutBlock",
            ErrorCode::TryBlockMustBeBlock => "TryBlockMustBeBlock",
            ErrorCode::TryWithoutCatchOrFinally => "TryWithoutCatchOrFinally",
            ErrorCode::CatchWithoutBlock => "CatchWithoutBlock",
            ErrorCode::CatchBlockMustBeBlock => "CatchBlockMustBeBlock",
            ErrorCode::CatchWithoutResult => "CatchWithoutResult",
            ErrorCode::CatchWithoutFinally => "CatchWithoutFinally",
            ErrorCode::FinallyWithoutBlock => "FinallyWithoutBlock",
            ErrorCode::FinallyBlockMustBeBlock => "FinallyBlockMustBeBlock",
            ErrorCode::FinallyWithoutResult => "FinallyWithoutResult",
            ErrorCode::ThrowWithoutException => "ThrowWithoutException",
            ErrorCode::UnsupportedOperator => "UnsupportedOperator",
            ErrorCode::DivideByZero => "DivideByZero",
            ErrorCode::BadOperandType => "BadOperandType",
            ErrorCode::NoSuchField => "NoSuchField",
            ErrorCode::NoSuchPublicField => "NoSuchPublicField",
            ErrorCode::FieldNotSet => "FieldNotSet",
            ErrorCode::CircularDependency => "CircularDependency",
            ErrorCode::PrivateField => "PrivateField",
            ErrorCode::ImmutableField => "ImmutableField",
            ErrorCode::BreakOutsideLoop => "BreakOutsideLoop",
            ErrorCode::ContinueOutsideLoop => "ContinueOutsideLoop",
        }
    }
}

/// Where an error points, relative to the expression that reported it.
#[derive(Debug, Copy, Clone, PartialEq, Eq, Structural)]
pub enum ExpressionErrorPosition {
    Expression,
    Left,
    Right,
    LeftLeft,
    LeftRight,
    RightLeft,
    RightRight,
}

/// How many operand steps below the expression a position is.
pub open spec fn position_depth(p: ExpressionErrorPosition) -> nat {
    match p {
        ExpressionErrorPosition::Expression => 0,
        ExpressionErrorPosition::Left | ExpressionErrorPosition::Right => 1,
        _ => 2,
    }
}

impl ExpressionErrorPosition {
    /// Re-expresses a position (relative to an operand that sits at
    /// `new_position` in its parent) relative to the parent. Positions more
    /// than two steps deep cannot be expressed.
    pub fn relative_to(self, new_position: ExpressionErrorPosition) -> (p: ExpressionErrorPosition)
        requires
            position_depth(self) + position_depth(new_position) <= 2,
        ensures
            position_depth(p) == position_depth(self) + position_depth(new_position),
            self == ExpressionErrorPosition::Expression ==> p == new_position,
            new_position == ExpressionErrorPosition::Expression ==> p == self,
            new_position == ExpressionErrorPosition::Left && self == ExpressionErrorPosition::Left
                ==> p == ExpressionErrorPosition::LeftLeft,
            new_position == ExpressionErrorPosition::Left && self == ExpressionErrorPosition::Right
                ==> p == ExpressionErrorPosition::LeftRight,
            new_position == ExpressionErrorPosition::Right && self == ExpressionErrorPosition::Left
                ==> p == ExpressionErrorPosition::RightLeft,
            new_position == ExpressionErrorPosition::Right && self == ExpressionErrorPosition::Right
                ==> p == ExpressionErrorPosition::RightRight,
    {
        match (new_position, self) {
            (new_position, ExpressionErrorPosition::Expression) => new_position,
            (ExpressionErrorPosition::Expression, position) => position,
            (ExpressionErrorPosition::Left, ExpressionErrorPosition::Left) => ExpressionErrorPosition::LeftLeft,
            (ExpressionErrorPosition::Left, ExpressionErrorPosition::Right) => ExpressionErrorPosition::LeftRight,
            (ExpressionErrorPosition::Right, ExpressionErrorPosition::Left) => ExpressionErrorPosition::RightLeft,
            (ExpressionErrorPosition::Right, ExpressionErrorPosition::Right) => ExpressionErrorPosition::RightRight,
            (_, _) => {
                proof {
                    assert(false);
                }
                ExpressionErrorPosition::Expression
            },
        }
    }
}

/// Why a source could not be loaded (the I/O error itself stays with the
/// caller that met it).
#[derive(Debug, Copy, Clone, PartialEq, Eq, Structural)]
pub enum SourceLoadError {
    /// The source file could not be found.
    SourceNotFound,
    /// The source file could not be opened.
    IoOpenError,
    /// The source file could not be read.
    IoReadError,
    /// The current directory could not be determined.
    CurrentDirectoryError,
    /// The source is too large; its size.
    SourceTooLarge(usize),
}

/// The codes of compiler errors.
pub type CompilerErrorCode = ErrorCode;

impl SourceLoadError {
    /// The error code of a load error.
    pub fn code(&self) -> (c: CompilerErrorCode)
        ensures
            c == match *self {
                SourceLoadError::SourceNotFound => ErrorCode::SourceNotFound,
                SourceLoadError::IoOpenError => ErrorCode::IoOpenError,
                SourceLoadError::IoReadError => ErrorCode::IoReadError,
                SourceLoadError::CurrentDirectoryError => ErrorCode::CurrentDirectoryError,
                SourceLoadError::SourceTooLarge(_) => ErrorCode::SourceTooLarge,
            },
    {
        match *self {
            SourceLoadError::SourceNotFound => ErrorCode::SourceNotFound,
            SourceLoadError::IoOpenError => ErrorCode::IoOpenError,
            SourceLoadError::IoReadError => ErrorCode::IoReadError,
            SourceLoadError::CurrentDirectoryError => ErrorCode::CurrentDirectoryError,
            SourceLoadError::SourceTooLarge(_) => ErrorCode::SourceTooLarge,
        }
    }
}

} // verus!
