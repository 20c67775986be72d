use crate::identifiers::{
    AND_AND, COLON, COMMA, DASH, DOT, EQUAL_TO, FOLLOWED_BY, GREATER_EQUAL, GREATER_THAN,
    IMMEDIATELY_FOLLOWED_BY, IdentifierIndex, LESS_EQUAL, LESS_THAN, NEWLINE_SEQUENCE, NOT_EQUAL_TO,
    OR_OR, PLUS, SEMICOLON, SLASH, STAR,
};
use vstd::prelude::*;

verus! {

/// Binding strength of infix operators, from tightest (`Dot`) to loosest
/// (`NewlineSequence`).
#[derive(Debug, Copy, Clone, PartialEq, Eq, Structural)]
pub enum Precedence {
    Dot,
    TimesDivide,
    PlusMinus,
    Comparison,
    And,
    Or,
    CommaSequence,
    Assign,
    ColonDeclaration,
    FollowedBy,
    SemicolonSequence,
    NewlineSequence,
}

/// Position of a precedence level, tightest first.
pub open spec fn rank(p: Precedence) -> int {
    match p {
        Precedence::Dot => 0,
        Precedence::TimesDivide => 1,
        Precedence::PlusMinus => 2,
        Precedence::Comparison => 3,
        Precedence::And => 4,
        Precedence::Or => 5,
        Precedence::CommaSequence => 6,
        Precedence::Assign => 7,
        Precedence::ColonDeclaration => 8,
        Precedence::FollowedBy => 9,
        Precedence::SemicolonSequence => 10,
        Precedence::NewlineSequence => 11,
    }
}

/// An infix operator of precedence `left` takes an infix operator of
/// precedence `right` (that follows it) as part of its right operand
/// exactly when `right` binds tighter.
pub open spec fn spec_takes_right_child(left: Precedence, right: Precedence) -> bool {
    rank(right) < rank(left)
}

/// The precedence of an infix operator identifier.
pub open spec fn identifier_precedence(id: IdentifierIndex) -> Precedence {
    let i = id.0;
    if i == DOT {
        Precedence::Dot
    } else if i == STAR || i == SLASH {
        Precedence::TimesDivide
    } else if i == PLUS || i == DASH {
        Precedence::PlusMinus
    } else if i == EQUAL_TO || i == NOT_EQUAL_TO || i == GREATER_THAN || i == GREATER_EQUAL || i
        == LESS_THAN || i == LESS_EQUAL {
        Precedence::Comparison
    } else if i == AND_AND {
        Precedence::And
    } else if i == OR_OR {
        Precedence::Or
    } else if i == COMMA {
        Precedence::CommaSequence
    } else if i == COLON {
        Precedence::ColonDeclaration
    } else if i == FOLLOWED_BY || i == IMMEDIATELY_FOLLOWED_BY {
        Precedence::FollowedBy
    } else if i == SEMICOLON {
        Precedence::SemicolonSequence
    } else if i == NEWLINE_SEQUENCE {
        Precedence::NewlineSequence
    } else {
        Precedence::PlusMinus
    }
}

impl Default for Precedence {
    /// Operators that are not well known bind like `+` and `-`.
    fn default() -> (p: Precedence)
        ensures
            p == Precedence::PlusMinus,
    {
        Precedence::PlusMinus
    }
}

impl From<IdentifierIndex> for Precedence {
    fn from(from: IdentifierIndex) -> (p: Precedence) {
        let i = from.0;
        if i == DOT {
            Precedence::Dot
        } else if i == STAR || i == SLASH {
            Precedence::TimesDivide
        } else if i == PLUS || i == DASH {
            Precedence::PlusMinus
        } else if i == EQUAL_TO || i == NOT_EQUAL_TO || i == GREATER_THAN || i == GREATER_EQUAL || i
            == LESS_THAN || i == LESS_EQUAL {
            Precedence::Comparison
        } else if i == AND_AND {
            Precedence::And
        } else if i == OR_OR {
            Precedence::Or
        } else if i == COMMA {
            Precedence::CommaSequence
        } else if i == COLON {
            Precedence::ColonDeclaration
        } else if i == FOLLOWED_BY || i == IMMEDIATELY_FOLLOWED_BY {
            Precedence::FollowedBy
        } else if i == SEMICOLON {
            Precedence::SemicolonSequence
        } else if i == NEWLINE_SEQUENCE {
            Precedence::NewlineSequence
        } else {
            Precedence::default()
        }
    }
}

impl vstd::std_specs::convert::FromSpecImpl<IdentifierIndex> for Precedence {
    open spec fn obeys_from_spec() -> bool {
        true
    }

    open spec fn from_spec(v: IdentifierIndex) -> Precedence {
        identifier_precedence(v)
    }
}

impl Precedence {
    /// Whether an infix operator of this precedence takes the infix operator
    /// of precedence `right` that follows it as part of its right operand.
    pub fn takes_right_child(self, right: Precedence) -> (b: bool)
        ensures
            b == spec_takes_right_child(self, right),
    {
        match self {
            Precedence::Dot => false,
            Precedence::TimesDivide => matches!(right, Precedence::Dot),
            Precedence::PlusMinus => matches!(right, Precedence::Dot | Precedence::TimesDivide),
            Precedence::Comparison => matches!(
                right,
                Precedence::Dot | Precedence::TimesDivide | Precedence::PlusMinus
            ),
            Precedence::And => matches!(
                right,
                Precedence::Dot | Precedence::TimesDivide | Precedence::PlusMinus
                    | Precedence::Comparison
            ),
            Precedence::Or => matches!(
                right,
                Precedence::Dot | Precedence::TimesDivide | Precedence::PlusMinus
                    | Precedence::Comparison | Precedence::And
            ),
            Precedence::CommaSequence => matches!(
                right,
                Precedence::Dot | Precedence::TimesDivide | Precedence::PlusMinus
                    | Precedence::Comparison | Precedence::And | Precedence::Or
            ),
            Precedence::Assign => matches!(
                right,
                Precedence::Dot | Precedence::TimesDivide | Precedence::PlusMinus
                    | Precedence::Comparison | Precedence::And | Precedence::Or
                    | Precedence::CommaSequence
            ),
            Precedence::ColonDeclaration => matches!(
                right,
                Precedence::Dot | Precedence::TimesDivide | Precedence::PlusMinus
                    | Precedence::Comparison | Precedence::And | Precedence::Or
                    | Precedence::CommaSequence | Precedence::Assign
            ),
            Precedence::FollowedBy => matches!(
                right,
                Precedence::Dot | Precedence::TimesDivide | Precedence::PlusMinus
                    | Precedence::Comparison | Precedence::And | Precedence::Or
                    | Precedence::CommaSequence | Precedence::Assign | Precedence::ColonDeclaration
            ),
            Precedence::SemicolonSequence => matches!(
                right,
                Precedence::Dot | Precedence::TimesDivide | Precedence::PlusMinus
                    | Precedence::Comparison | Precedence::And | Precedence::Or
                    | Precedence::CommaSequence | Precedence::Assign | Precedence::ColonDeclaration
                    | Precedence::FollowedBy
            ),
            Precedence::NewlineSequence => matches!(
                right,
                Precedence::Dot | Precedence::TimesDivide | Precedence::PlusMinus
                    | Precedence::Comparison | Precedence::And | Precedence::Or
                    | Precedence::CommaSequence | Precedence::Assign | Precedence::ColonDeclaration
                    | Precedence::FollowedBy | Precedence::SemicolonSequence
            ),
        }
    }
}

/// "Takes as right child" is a strict total order on precedences: no level
/// takes itself, of two different levels exactly one takes the other, and it
/// is transitive. Hence operators of equal precedence group to the left and
/// every chain of infix operators has a unique grouping.
pub proof fn lemma_precedence_strict_total_order(a: Precedence, b: Precedence, c: Precedence)
    ensures
        !spec_takes_right_child(a, a),
        a != b ==> (spec_takes_right_child(a, b) != spec_takes_right_child(b, a)),
        spec_takes_right_child(a, b) && spec_takes_right_child(b, c) ==> spec_takes_right_child(a, c),
{
}

/// `*` or `/`.
pub open spec fn is_times_divide(i: IdentifierIndex) -> bool {
    i.0 == STAR || i.0 == SLASH
}

/// `+` or `-`.
pub open spec fn is_plus_minus(i: IdentifierIndex) -> bool {
    i.0 == PLUS || i.0 == DASH
}

/// A comparison: `==`, `!=`, `>`, `>=`, `<`, `<=`.
pub open spec fn is_comparison(i: IdentifierIndex) -> bool {
    i.0 == EQUAL_TO || i.0 == NOT_EQUAL_TO || i.0 == GREATER_THAN || i.0 == GREATER_EQUAL || i.0 == LESS_THAN
        || i.0 == LESS_EQUAL
}

/// Operator `a` takes operator `b` that follows it as its right child.
pub open spec fn takes(a: IdentifierIndex, b: IdentifierIndex) -> bool {
    spec_takes_right_child(identifier_precedence(a), identifier_precedence(b))
}

/// Infix operators group as in arithmetic and logic. `*` and `/` bind alike,
/// and so do `+` and `-`, so that operators of one pair group to the left;
/// `*` and `/` bind tighter than `+` and `-` (in `1 + 6 / 2`, `+` takes
/// `6 / 2` as its right operand, and in `6 / 2 + 1`, `/` does not take
/// `+`); comparisons bind more loosely than both, `&&` more loosely than
/// comparisons, and `||` more loosely than `&&`; `.` binds tightest.
pub proof fn law_operator_precedence(a: IdentifierIndex, b: IdentifierIndex)
    ensures
        is_times_divide(a) && is_times_divide(b) ==> identifier_precedence(a) == identifier_precedence(b) && !takes(a, b),
        is_plus_minus(a) && is_plus_minus(b) ==> identifier_precedence(a) == identifier_precedence(b) && !takes(a, b),
        is_plus_minus(a) && is_times_divide(b) ==> takes(a, b) && !takes(b, a),
        is_comparison(a) && (is_plus_minus(b) || is_times_divide(b)) ==> takes(a, b) && !takes(b, a),
        is_comparison(a) && is_comparison(b) ==> !takes(a, b),
        a.0 == AND_AND && is_comparison(b) ==> takes(a, b) && !takes(b, a),
        a.0 == OR_OR && b.0 == AND_AND ==> takes(a, b) && !takes(b, a),
        b.0 == DOT && a.0 != DOT ==> takes(a, b) && !takes(b, a),
        a.0 == SEMICOLON && (is_plus_minus(b) || is_times_divide(b) || is_comparison(b) || b.0 == COMMA) ==> takes(a, b),
{
}

} // verus!
