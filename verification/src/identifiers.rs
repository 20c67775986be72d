use crate::decimal::{decimal_string, spec_decimal};
use crate::interner::{all_distinct, intern, interned, interner_new, Interner};
use vstd::prelude::*;

verus! {

/// Index of an identifier (or operator) in an identifier pool. The
/// well-known identifiers below occupy the first indices of every pool, in
/// the order they are listed.
#[derive(Debug, Copy, Clone, PartialEq, Eq, Structural)]
pub struct IdentifierIndex(pub u32);

/// The pool indices of the well-known identifiers follow; an identifier is
/// one of them when its index equals the constant, e.g. `id.0 == DOT`.

/// The number of well-known identifiers.
pub const WELL_KNOWN_COUNT: usize = 44;

pub const OPEN_PAREN: u32 = 0;
pub const CLOSE_PAREN: u32 = 1;
pub const OPEN_CURLY: u32 = 2;
pub const CLOSE_CURLY: u32 = 3;
pub const SEMICOLON: u32 = 4;
pub const NEWLINE_SEQUENCE: u32 = 5;
pub const COLON: u32 = 6;
pub const DOT: u32 = 7;
pub const COMMA: u32 = 8;
pub const IMMEDIATELY_FOLLOWED_BY: u32 = 9;
pub const FOLLOWED_BY: u32 = 10;
pub const APPLY: u32 = 11;
pub const EMPTY_STRING: u32 = 12;
pub const AND_AND: u32 = 13;
pub const OR_OR: u32 = 14;
pub const EXCLAMATION_POINT: u32 = 15;
pub const DOUBLE_EXCLAMATION_POINT: u32 = 16;
pub const EQUAL_TO: u32 = 17;
pub const NOT_EQUAL_TO: u32 = 18;
pub const GREATER_THAN: u32 = 19;
pub const LESS_THAN: u32 = 20;
pub const GREATER_EQUAL: u32 = 21;
pub const LESS_EQUAL: u32 = 22;
pub const STAR: u32 = 23;
pub const SLASH: u32 = 24;
pub const PLUS: u32 = 25;
pub const DASH: u32 = 26;
pub const PLUS_PLUS: u32 = 27;
pub const DASH_DASH: u32 = 28;
pub const PLUS_ONE: u32 = 29;
pub const MINUS_ONE: u32 = 30;
pub const TRUE: u32 = 31;
pub const FALSE: u32 = 32;
pub const IF: u32 = 33;
pub const ELSE: u32 = 34;
pub const WHILE: u32 = 35;
pub const BREAK: u32 = 36;
pub const CONTINUE: u32 = 37;
pub const FOREACH: u32 = 38;
pub const TRY: u32 = 39;
pub const CATCH: u32 = 40;
pub const FINALLY: u32 = 41;
pub const THROW: u32 = 42;
pub const ERROR_CODE: u32 = 43;

/// The text of the well-known identifier with the given index.
pub open spec fn well_known_name(i: int) -> Seq<char> {
    if i == 0 {
        "("@
    } else if i == 1 {
        ")"@
    } else if i == 2 {
        "{"@
    } else if i == 3 {
        "}"@
    } else if i == 4 {
        ";"@
    } else if i == 5 {
        "<newline sequence>"@
    } else if i == 6 {
        ":"@
    } else if i == 7 {
        "."@
    } else if i == 8 {
        ","@
    } else if i == 9 {
        "<immediately followed by>"@
    } else if i == 10 {
        "<followed by>"@
    } else if i == 11 {
        "<apply>"@
    } else if i == 12 {
        ""@
    } else if i == 13 {
        "&&"@
    } else if i == 14 {
        "||"@
    } else if i == 15 {
        "!"@
    } else if i == 16 {
        "!!"@
    } else if i == 17 {
        "=="@
    } else if i == 18 {
        "!="@
    } else if i == 19 {
        ">"@
    } else if i == 20 {
        "<"@
    } else if i == 21 {
        ">="@
    } else if i == 22 {
        "<="@
    } else if i == 23 {
        "*"@
    } else if i == 24 {
        "/"@
    } else if i == 25 {
        "+"@
    } else if i == 26 {
        "-"@
    } else if i == 27 {
        "++"@
    } else if i == 28 {
        "--"@
    } else if i == 29 {
        "<plus_one>"@
    } else if i == 30 {
        "<minus_one>"@
    } else if i == 31 {
        "true"@
    } else if i == 32 {
        "false"@
    } else if i == 33 {
        "if"@
    } else if i == 34 {
        "else"@
    } else if i == 35 {
        "while"@
    } else if i == 36 {
        "break"@
    } else if i == 37 {
        "continue"@
    } else if i == 38 {
        "foreach"@
    } else if i == 39 {
        "try"@
    } else if i == 40 {
        "catch"@
    } else if i == 41 {
        "finally"@
    } else if i == 42 {
        "throw"@
    } else {
        "CompilerErrorCode"@
    }
}

/// The text of the well-known identifier with the given index, if it is one.
fn well_known_text(i: usize) -> (s: Option<&'static str>)
    ensures
        i < WELL_KNOWN_COUNT <==> s is Some,
        s matches Some(s) ==> s@ == well_known_name(i as int),
{
    if i == 0 {
        Some("(")
    } else if i == 1 {
        Some(")")
    } else if i == 2 {
        Some("{")
    } else if i == 3 {
        Some("}")
    } else if i == 4 {
        Some(";")
    } else if i == 5 {
        Some("<newline sequence>")
    } else if i == 6 {
        Some(":")
    } else if i == 7 {
        Some(".")
    } else if i == 8 {
        Some(",")
    } else if i == 9 {
        Some("<immediately followed by>")
    } else if i == 10 {
        Some("<followed by>")
    } else if i == 11 {
        Some("<apply>")
    } else if i == 12 {
        Some("")
    } else if i == 13 {
        Some("&&")
    } else if i == 14 {
        Some("||")
    } else if i == 15 {
        Some("!")
    } else if i == 16 {
        Some("!!")
    } else if i == 17 {
        Some("==")
    } else if i == 18 {
        Some("!=")
    } else if i == 19 {
        Some(">")
    } else if i == 20 {
        Some("<")
    } else if i == 21 {
        Some(">=")
    } else if i == 22 {
        Some("<=")
    } else if i == 23 {
        Some("*")
    } else if i == 24 {
        Some("/")
    } else if i == 25 {
        Some("+")
    } else if i == 26 {
        Some("-")
    } else if i == 27 {
        Some("++")
    } else if i == 28 {
        Some("--")
    } else if i == 29 {
        Some("<plus_one>")
    } else if i == 30 {
        Some("<minus_one>")
    } else if i == 31 {
        Some("true")
    } else if i == 32 {
        Some("false")
    } else if i == 33 {
        Some("if")
    } else if i == 34 {
        Some("else")
    } else if i == 35 {
        Some("while")
    } else if i == 36 {
        Some("break")
    } else if i == 37 {
        Some("continue")
    } else if i == 38 {
        Some("foreach")
    } else if i == 39 {
        Some("try")
    } else if i == 40 {
        Some("catch")
    } else if i == 41 {
        Some("finally")
    } else if i == 42 {
        Some("throw")
    } else if i == 43 {
        Some("CompilerErrorCode")
    } else {
        None
    }
}
/// All well-known identifier texts, in index order.
pub open spec fn well_known_names() -> Seq<Seq<char>> {
    Seq::new(WELL_KNOWN_COUNT as nat, |i: int| well_known_name(i))
}

impl IdentifierIndex {
    /// The text of a well-known identifier.
    pub fn well_known_str(self) -> (s: &'static str)
        requires
            (self.0 as int) < WELL_KNOWN_COUNT,
        ensures
            s@ == well_known_name(self.0 as int),
    {
        self.as_str().unwrap()
    }

    /// Whether this is one of the two "followed by" operators.
    pub fn is_followed_by(self) -> (b: bool)
        ensures
            b == (self.0 == FOLLOWED_BY || self.0 == IMMEDIATELY_FOLLOWED_BY),
    {
        self.0 == FOLLOWED_BY || self.0 == IMMEDIATELY_FOLLOWED_BY
    }

    /// The text of this identifier if it is a well-known one.
    pub fn as_str(self) -> (s: Option<&'static str>)
        ensures
            s is Some <==> (self.0 as int) < WELL_KNOWN_COUNT,
            s matches Some(s) ==> s@ == well_known_name(self.0 as int),
    {
        well_known_text(self.0 as usize)
    }

    /// The identifier with the given pool index, which must be below
    /// `u32::MAX`.
    pub fn try_from_usize(val: usize) -> (r: Option<IdentifierIndex>)
        requires
            val < u32::MAX,
        ensures
            r == Some(IdentifierIndex(val as u32)),
    {
        if val < 0xffff_ffffusize {
            Some(IdentifierIndex(val as u32))
        } else {
            None
        }
    }

    /// The pool index of this identifier.
    pub fn to_usize(self) -> (n: usize)
        ensures
            n == self.0,
    {
        self.0 as usize
    }

    /// How the identifier shows in messages: its text if it is a
    /// well-known one, else its pool index.
    pub fn to_string(self) -> (s: String)
        ensures
            s@ == if (self.0 as int) < WELL_KNOWN_COUNT {
                well_known_name(self.0 as int)
            } else {
                spec_decimal(self.0 as nat)
            },
    {
        match self.as_str() {
            Some(text) => text.to_owned(),
            None => decimal_string(self.to_usize()),
        }
    }
}

/// The well-known identifier texts are pairwise distinct.
pub proof fn lemma_well_known_names_distinct()
    ensures
        crate::interner::all_distinct(well_known_names()),
{
    reveal_strlit("(");
    reveal_strlit(")");
    reveal_strlit("{");
    reveal_strlit("}");
    reveal_strlit(";");
    reveal_strlit("<newline sequence>");
    reveal_strlit(":");
    reveal_strlit(".");
    reveal_strlit(",");
    reveal_strlit("<immediately followed by>");
    reveal_strlit("<followed by>");
    reveal_strlit("<apply>");
    reveal_strlit("");
    reveal_strlit("&&");
    reveal_strlit("||");
    reveal_strlit("!");
    reveal_strlit("!!");
    reveal_strlit("==");
    reveal_strlit("!=");
    reveal_strlit(">");
    reveal_strlit("<");
    reveal_strlit(">=");
    reveal_strlit("<=");
    reveal_strlit("*");
    reveal_strlit("/");
    reveal_strlit("+");
    reveal_strlit("-");
    reveal_strlit("++");
    reveal_strlit("--");
    reveal_strlit("<plus_one>");
    reveal_strlit("<minus_one>");
    reveal_strlit("true");
    reveal_strlit("false");
    reveal_strlit("if");
    reveal_strlit("else");
    reveal_strlit("while");
    reveal_strlit("break");
    reveal_strlit("continue");
    reveal_strlit("foreach");
    reveal_strlit("try");
    reveal_strlit("catch");
    reveal_strlit("finally");
    reveal_strlit("throw");
    reveal_strlit("CompilerErrorCode");
    let names = well_known_names();
    assert forall|i: int, j: int| 0 <= i < names.len() && 0 <= j < names.len() && i != j implies names[i] != names[j] by {
        let a = names[i];
        let b = names[j];
        if a.len() == b.len() && a.len() > 0 {
            if a[0] == b[0] {
                assert(a[a.len() - 1] != b[b.len() - 1]);
            }
        }
    }
}

/// A new identifier pool holding exactly the well-known identifiers, each
/// under its own index.
pub fn intern_all() -> (identifiers: Interner)
    ensures
        interned(&identifiers) == well_known_names(),
{
    let mut identifiers = interner_new();
    let mut i: usize = 0;
    proof {
        lemma_well_known_names_distinct();
    }
    while i < WELL_KNOWN_COUNT
        invariant
            0 <= i <= WELL_KNOWN_COUNT,
            interned(&identifiers) == well_known_names().take(i as int),
            all_distinct(well_known_names()),
        decreases WELL_KNOWN_COUNT - i,
    {
        let string = well_known_text(i).unwrap();
        let ghost before = interned(&identifiers);
        proof {
            let names = well_known_names();
            assert forall|a: int, b: int| 0 <= a < before.len() && 0 <= b < before.len() && a != b implies before[a] != before[b] by {
                assert(before[a] == names[a] && before[b] == names[b]);
            }
            if before.contains(string@) {
                let k = choose|k: int| 0 <= k < before.len() && before[k] == string@;
                assert(names[k] == names[i as int]);
            }
        }
        let actual = intern(&mut identifiers, string);
        assert(actual == i);
        i = i + 1;
        assert(interned(&identifiers) =~= well_known_names().take(i as int));
    }
    assert(well_known_names().take(WELL_KNOWN_COUNT as int) =~= well_known_names());
    identifiers
}

/// The identifier pool every AST starts from.
pub fn identifiers() -> (identifiers: Interner)
    ensures
        interned(&identifiers) == well_known_names(),
{
    intern_all()
}

} // verus!
