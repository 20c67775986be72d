use vstd::prelude::*;

verus! {

/// The syntactic role of a token: what operands it takes and on which side.
#[derive(Debug, Copy, Clone, PartialEq, Eq, Structural)]
pub enum Fixity {
    Term,
    Infix,
    Prefix,
    Postfix,
    Open,
    Close,
}

/// Fixities that an expression token (one standing where an operand is
/// expected) can have.
#[derive(Debug, Copy, Clone, PartialEq, Eq, Structural)]
pub enum ExpressionFixity {
    Term,
    Prefix,
    Open,
}

/// Fixities that an operator token (one standing after a complete operand)
/// can have.
#[derive(Debug, Copy, Clone, PartialEq, Eq, Structural)]
pub enum OperatorFixity {
    Infix,
    Postfix,
    Close,
}

/// Number of operands a token of the given fixity takes.
pub open spec fn spec_num_operands(f: Fixity) -> nat {
    match f {
        Fixity::Term => 0,
        Fixity::Infix => 2,
        _ => 1,
    }
}

/// Whether a token of the given fixity has an operand on its left.
pub open spec fn spec_has_left_operand(f: Fixity) -> bool {
    f == Fixity::Infix || f == Fixity::Postfix || f == Fixity::Close
}

/// Whether a token of the given fixity has an operand on its right.
pub open spec fn spec_has_right_operand(f: Fixity) -> bool {
    f == Fixity::Infix || f == Fixity::Prefix || f == Fixity::Open
}

/// Whether a token of fixity `left` adopts the expression starting with a
/// token of fixity `right` (standing directly after it) as part of its right
/// operand.
pub open spec fn spec_takes_right_child(left: Fixity, right: Fixity) -> bool {
    if right == Fixity::Term || right == Fixity::Prefix || right == Fixity::Open {
        true
    } else {
        match left {
            Fixity::Open => true,
            Fixity::Infix => right == Fixity::Postfix,
            _ => false,
        }
    }
}

pub open spec fn expression_fixity_spec(f: ExpressionFixity) -> Fixity {
    match f {
        ExpressionFixity::Term => Fixity::Term,
        ExpressionFixity::Prefix => Fixity::Prefix,
        ExpressionFixity::Open => Fixity::Open,
    }
}

pub open spec fn operator_fixity_spec(f: OperatorFixity) -> Fixity {
    match f {
        OperatorFixity::Infix => Fixity::Infix,
        OperatorFixity::Postfix => Fixity::Postfix,
        OperatorFixity::Close => Fixity::Close,
    }
}

impl Fixity {
    pub fn num_operands(self) -> (n: u8)
        ensures
            n == spec_num_operands(self),
    {
        match self {
            Fixity::Term => 0,
            Fixity::Prefix | Fixity::Postfix | Fixity::Open | Fixity::Close => 1,
            Fixity::Infix => 2,
        }
    }

    pub fn has_left_operand(self) -> (b: bool)
        ensures
            b == spec_has_left_operand(self),
    {
        match self {
            Fixity::Infix | Fixity::Postfix | Fixity::Close => true,
            Fixity::Term | Fixity::Prefix | Fixity::Open => false,
        }
    }

    pub fn has_right_operand(self) -> (b: bool)
        ensures
            b == spec_has_right_operand(self),
    {
        match self {
            Fixity::Infix | Fixity::Prefix | Fixity::Open => true,
            Fixity::Term | Fixity::Postfix | Fixity::Close => false,
        }
    }

    pub fn takes_right_child(self, right: Fixity) -> (b: bool)
        ensures
            b == spec_takes_right_child(self, right),
    {
        match (self, right) {
            // Terms, prefixes and opens are always OK as a right child.
            (_, Fixity::Term) | (_, Fixity::Prefix) | (_, Fixity::Open) => true,
            // Term, postfix and close don't take right children at all.
            (Fixity::Term, _) | (Fixity::Postfix, _) | (Fixity::Close, _) => false,
            // Prefix doesn't take any operators as right child.
            (Fixity::Prefix, Fixity::Postfix) | (Fixity::Prefix, Fixity::Infix) | (
                Fixity::Prefix,
                Fixity::Close,
            ) => false,
            // Open takes all operators as right child.
            (Fixity::Open, Fixity::Postfix) | (Fixity::Open, Fixity::Infix) | (
                Fixity::Open,
                Fixity::Close,
            ) => true,
            // Infix takes postfix operators, but not infix or close.
            (Fixity::Infix, Fixity::Postfix) => true,
            (Fixity::Infix, Fixity::Infix) | (Fixity::Infix, Fixity::Close) => false,
        }
    }

    /// The name of the fixity as it appears in messages.
    pub fn name(self) -> (s: &'static str)
        ensures
            s@ == match self {
                Fixity::Term => "term"@,
                Fixity::Prefix => "unary"@,
                Fixity::Infix => "binary"@,
                Fixity::Open => "open"@,
                Fixity::Close => "close"@,
                Fixity::Postfix => "postfix"@,
            },
    {
        match self {
            Fixity::Term => "term",
            Fixity::Prefix => "unary",
            Fixity::Infix => "binary",
            Fixity::Open => "open",
            Fixity::Close => "close",
            Fixity::Postfix => "postfix",
        }
    }
}

impl From<ExpressionFixity> for Fixity {
    fn from(from: ExpressionFixity) -> (f: Fixity) {
        match from {
            ExpressionFixity::Term => Fixity::Term,
            ExpressionFixity::Prefix => Fixity::Prefix,
            ExpressionFixity::Open => Fixity::Open,
        }
    }
}

impl vstd::std_specs::convert::FromSpecImpl<ExpressionFixity> for Fixity {
    open spec fn obeys_from_spec() -> bool {
        true
    }

    open spec fn from_spec(v: ExpressionFixity) -> Fixity {
        expression_fixity_spec(v)
    }
}

impl From<OperatorFixity> for Fixity {
    fn from(from: OperatorFixity) -> (f: Fixity) {
        match from {
            OperatorFixity::Infix => Fixity::Infix,
            OperatorFixity::Postfix => Fixity::Postfix,
            OperatorFixity::Close => Fixity::Close,
        }
    }
}

impl vstd::std_specs::convert::FromSpecImpl<OperatorFixity> for Fixity {
    open spec fn obeys_from_spec() -> bool {
        true
    }

    open spec fn from_spec(v: OperatorFixity) -> Fixity {
        operator_fixity_spec(v)
    }
}

impl ExpressionFixity {
    pub fn num_operands(self) -> (n: u8)
        ensures
            n == spec_num_operands(expression_fixity_spec(self)),
    {
        Fixity::from(self).num_operands()
    }

    pub fn has_left_operand(self) -> (b: bool)
        ensures
            b == spec_has_left_operand(expression_fixity_spec(self)),
            !b,
    {
        Fixity::from(self).has_left_operand()
    }

    pub fn has_right_operand(self) -> (b: bool)
        ensures
            b == spec_has_right_operand(expression_fixity_spec(self)),
    {
        Fixity::from(self).has_right_operand()
    }

    pub fn takes_right_child(self, right: Fixity) -> (b: bool)
        ensures
            b == spec_takes_right_child(expression_fixity_spec(self), right),
    {
        Fixity::from(self).takes_right_child(right)
    }
}

impl OperatorFixity {
    pub fn num_operands(self) -> (n: u8)
        ensures
            n == spec_num_operands(operator_fixity_spec(self)),
    {
        Fixity::from(self).num_operands()
    }

    pub fn has_left_operand(self) -> (b: bool)
        ensures
            b == spec_has_left_operand(operator_fixity_spec(self)),
            b,
    {
        Fixity::from(self).has_left_operand()
    }

    pub fn has_right_operand(self) -> (b: bool)
        ensures
            b == spec_has_right_operand(operator_fixity_spec(self)),
    {
        Fixity::from(self).has_right_operand()
    }

    pub fn takes_right_child(self, right: Fixity) -> (b: bool)
        ensures
            b == spec_takes_right_child(operator_fixity_spec(self), right),
    {
        Fixity::from(self).takes_right_child(right)
    }
}

/// A fixity has an operand on its left exactly when it is one that stands
/// after a complete operand (infix, postfix, close); it has one on its
/// right exactly when it is one that stands before an operand.
pub proof fn lemma_fixity_operand_sides(f: Fixity)
    ensures
        spec_has_left_operand(f) <==> (exists|o: OperatorFixity| operator_fixity_spec(o) == f),
        spec_has_right_operand(f) <==> (f == Fixity::Infix || exists|e: ExpressionFixity|
            expression_fixity_spec(e) == f && e != ExpressionFixity::Term),
        spec_num_operands(f) == (if spec_has_left_operand(f) { 1nat } else { 0nat }) + (if spec_has_right_operand(f) { 1nat } else { 0nat }),
{
    match f {
        Fixity::Infix => { assert(operator_fixity_spec(OperatorFixity::Infix) == f); },
        Fixity::Postfix => { assert(operator_fixity_spec(OperatorFixity::Postfix) == f); },
        Fixity::Close => { assert(operator_fixity_spec(OperatorFixity::Close) == f); },
        Fixity::Prefix => { assert(expression_fixity_spec(ExpressionFixity::Prefix) == f); },
        Fixity::Open => { assert(expression_fixity_spec(ExpressionFixity::Open) == f); },
        Fixity::Term => {},
    }
}

} // verus!
