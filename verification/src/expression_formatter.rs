//! Rendering an expression with its grouping made explicit: every group is
//! shown with the kind of its boundary, so that `1 + 2 * 3` shows where the
//! precedence groups fall.
use crate::ast::Ast;
use crate::decimal::{decimal_string, spec_decimal};
use crate::expression_tree::{ExpressionFormatter, ExpressionTreeFormatter, ExpressionTreeWalker, spec_boundary};
use crate::fixity::Fixity;
use crate::identifiers::{NEWLINE_SEQUENCE, SEMICOLON};
use crate::indices::AstIndex;
use crate::navigation::{
    close_matched, close_operator_index, fix, has_left, has_right, inner_root, left_operand_root, lemma_inner_root_bounds,
    lemma_left_operand_root_bounds, lemma_right_operand_root_bounds, open_matched, open_operator_index,
    right_operand_root, spec_close_operator_index, spec_inner_root, spec_left_operand_root, spec_open_operator_index,
    spec_right_operand_root, tree_wf,
};
use crate::token::{ExpressionBoundary, ExpressionToken, OperatorToken, Token};
use crate::token_debug::spec_token_debug;
use vstd::prelude::*;
use vstd::string::StringExecFns;

verus! {

/// The strings that show a group of each kind, before and after its inner
/// expression.
pub open spec fn spec_boundary_strings(b: ExpressionBoundary) -> (Seq<char>, Seq<char>) {
    match b {
        ExpressionBoundary::AutoBlock => ("auto{"@, "}"@),
        ExpressionBoundary::PrecedenceGroup => ("prec("@, ")"@),
        ExpressionBoundary::CompoundTerm => ("term("@, ")"@),
        ExpressionBoundary::Parentheses => ("("@, ")"@),
        ExpressionBoundary::CurlyBraces => ("{ "@, " }"@),
        ExpressionBoundary::Source => ("source{ "@, " }"@),
        ExpressionBoundary::Root => ("root{ "@, " }"@),
    }
}

/// An infix operator shown without a space before it: `;` and the newline
/// sequence.
pub open spec fn is_separator(t: Token) -> bool {
    t matches Token::Operator(OperatorToken::InfixOperator(id)) && (id.0 == SEMICOLON || id.0 == NEWLINE_SEQUENCE)
}

pub open spec fn space_if(b: bool) -> Seq<char> {
    if b {
        " "@
    } else {
        ""@
    }
}

/// The rendering of the expression rooted at `root`, nested at most `fuel`
/// levels deep (an operand nested deeper renders as nothing). A term shows
/// its text (`<missing>` for a missing expression); a prefix operator shows
/// before its operand, with a space first when the token before it takes a
/// left operand; a postfix operator shows after
/// its operand, with a space first when the token after it wants a right
/// operand; a group shows its inner expression between the strings of its
/// kind; an infix operator shows between its operands, with a space on each
/// side (only after it for `;` and the newline sequence). A close token
/// renders as its group.
pub open spec fn spec_format(ast: &Ast, root: int, fuel: nat) -> Seq<char>
    decreases fuel,
{
    let toks = ast.tokens@;
    if fuel == 0 || !(0 <= root < toks.len()) {
        ""@
    } else {
        let inner = (fuel - 1) as nat;
        let t = toks[root];
        let text = ast.spec_token_text(t);
        let f = fix(t);
        if t == Token::Expression(ExpressionToken::MissingExpression) {
            "<missing>"@
        } else if f == Fixity::Term {
            text
        } else if f == Fixity::Prefix {
            space_if(root >= 1 && has_left(toks[root - 1])) + text + spec_format(
                ast,
                spec_right_operand_root(toks, root),
                inner,
            )
        } else if f == Fixity::Postfix {
            space_if(root + 1 < toks.len() && has_right(toks[root + 1])) + spec_format(
                ast,
                spec_left_operand_root(toks, root),
                inner,
            ) + text
        } else if f == Fixity::Open {
            let strings = spec_boundary_strings(spec_boundary(ast, t->Expression_0));
            strings.0 + spec_format(ast, spec_inner_root(toks, root), inner) + strings.1
        } else if f == Fixity::Close {
            spec_format(ast, spec_open_operator_index(toks, root), inner)
        } else if is_separator(t) {
            spec_format(ast, spec_left_operand_root(toks, root), inner) + text + " "@ + spec_format(
                ast,
                spec_right_operand_root(toks, root),
                inner,
            )
        } else {
            spec_format(ast, spec_left_operand_root(toks, root), inner) + " "@ + text + " "@ + spec_format(
                ast,
                spec_right_operand_root(toks, root),
                inner,
            )
        }
    }
}

/// `a` ends with `b`.
pub open spec fn ends_with(a: Seq<char>, b: Seq<char>) -> bool {
    b.len() <= a.len() && a.subrange(a.len() - b.len(), a.len() as int) == b
}

/// `a` starts with `b`.
pub open spec fn starts_with(a: Seq<char>, b: Seq<char>) -> bool {
    b.len() <= a.len() && a.subrange(0, b.len() as int) == b
}

/// An operator shows in its rendering where it stands among its operands.
/// A prefix operator's text comes right before its operand's rendering,
/// which ends the rendering, with at most a space before the text; a
/// postfix operator's text ends the rendering, right after its operand's,
/// with at most a space before that; an infix operator's rendering starts
/// with its left operand's and ends with its right operand's, with the
/// operator's text and a space right before the right operand's, and at
/// most one more space before the text. A term renders as its text.
pub proof fn law_format_order(ast: &Ast, root: int, fuel: nat)
    requires
        0 <= root < ast.tokens@.len(),
        fuel >= 1,
        ast.tokens@[root] != Token::Expression(ExpressionToken::MissingExpression),
    ensures
        ({
            let toks = ast.tokens@;
            let t = toks[root];
            let text = ast.spec_token_text(t);
            let r = spec_format(ast, root, fuel);
            let inner = (fuel - 1) as nat;
            let right = spec_format(ast, spec_right_operand_root(toks, root), inner);
            let left = spec_format(ast, spec_left_operand_root(toks, root), inner);
            &&& fix(t) == Fixity::Term ==> r == text
            &&& fix(t) == Fixity::Prefix ==> ends_with(r, text + right) && r.len() <= text.len() + right.len() + 1
            &&& fix(t) == Fixity::Postfix ==> ends_with(r, left + text) && r.len() <= left.len() + text.len() + 1
            &&& fix(t) == Fixity::Infix ==> starts_with(r, left) && ends_with(r, text + " "@ + right) && r.len()
                <= left.len() + text.len() + right.len() + 2
            &&& fix(t) == Fixity::Open ==> {
                let strings = spec_boundary_strings(spec_boundary(ast, t->Expression_0));
                let body = spec_format(ast, spec_inner_root(toks, root), inner);
                starts_with(r, strings.0) && ends_with(r, body + strings.1) && r.len() == strings.0.len() + body.len()
                    + strings.1.len()
            }
        }),
{
    let toks = ast.tokens@;
    let t = toks[root];
    let text = ast.spec_token_text(t);
    let r = spec_format(ast, root, fuel);
    let inner = (fuel - 1) as nat;
    let right = spec_format(ast, spec_right_operand_root(toks, root), inner);
    let left = spec_format(ast, spec_left_operand_root(toks, root), inner);
    reveal_strlit(" ");
    reveal_strlit("");
    if fix(t) == Fixity::Prefix {
        let sp = space_if(root >= 1 && has_left(toks[root - 1]));
        assert(r == sp + (text + right));
        assert(r.subrange(r.len() - (text + right).len(), r.len() as int) =~= text + right);
    } else if fix(t) == Fixity::Postfix {
        let sp = space_if(root + 1 < toks.len() && has_right(toks[root + 1]));
        assert(r == sp + (left + text));
        assert(r.subrange(r.len() - (left + text).len(), r.len() as int) =~= left + text);
    } else if fix(t) == Fixity::Infix {
        let tail = text + " "@ + right;
        if is_separator(t) {
            assert(r =~= left + tail);
        } else {
            assert(r =~= left + " "@ + tail);
        }
        assert(r.subrange(0, left.len() as int) =~= left);
        assert(r.subrange(r.len() - tail.len(), r.len() as int) =~= tail);
    } else if fix(t) == Fixity::Open {
        let strings = spec_boundary_strings(spec_boundary(ast, t->Expression_0));
        let body = spec_format(ast, spec_inner_root(toks, root), inner);
        assert(r == strings.0 + (body + strings.1));
        assert(r.subrange(0, strings.0.len() as int) =~= strings.0);
        assert(r.subrange(r.len() - (body + strings.1).len(), r.len() as int) =~= body + strings.1);
    }
}

/// What rendering needs of an AST: a tree whose tokens' pool indices are
/// in range, which neither starts with a prefix operator nor ends with a
/// postfix operator (whose neighbours the rendering looks at).
pub open spec fn formattable(ast: &Ast) -> bool {
    &&& tree_wf(ast.tokens@)
    &&& ast.tokens_refs_valid()
    &&& fix(ast.tokens@[0]) != Fixity::Prefix
    &&& fix(ast.tokens@.last()) != Fixity::Postfix
}

fn boundary_strings(b: ExpressionBoundary) -> (r: (&'static str, &'static str))
    ensures
        r.0@ == spec_boundary_strings(b).0,
        r.1@ == spec_boundary_strings(b).1,
{
    match b {
        ExpressionBoundary::AutoBlock => ("auto{", "}"),
        ExpressionBoundary::PrecedenceGroup => ("prec(", ")"),
        ExpressionBoundary::CompoundTerm => ("term(", ")"),
        ExpressionBoundary::Parentheses => ("(", ")"),
        ExpressionBoundary::CurlyBraces => ("{ ", " }"),
        ExpressionBoundary::Source => ("source{ ", " }"),
        ExpressionBoundary::Root => ("root{ ", " }"),
    }
}

fn format_rooted(ast: &Ast, root: AstIndex, fuel: usize) -> (s: String)
    requires
        formattable(ast),
        root < ast.tokens@.len(),
    ensures
        s@ == spec_format(ast, root as int, fuel as nat),
    decreases fuel,
{
    if fuel == 0 {
        return "".to_owned();
    }
    let ghost toks = ast.tokens@;
    let inner = fuel - 1;
    let token = ast.tokens[root];
    proof {
        assert(ast.token_refs_valid(toks[root as int]));
        assert(open_matched(toks, root as int));
        assert(close_matched(toks, root as int));
    }
    let f = token.fixity();
    match token {
        Token::Expression(ExpressionToken::MissingExpression) => "<missing>".to_owned(),
        _ => {
            if f == Fixity::Term {
                ast.token_string(root)
            } else if f == Fixity::Prefix {
                proof {
                    lemma_right_operand_root_bounds(toks, root as int);
                }
                let mut s = if root >= 1 && ast.tokens[root - 1].has_left_operand() {
                    " ".to_owned()
                } else {
                    "".to_owned()
                };
                let text = ast.token_string(root);
                s.append(text.as_str());
                let right = format_rooted(ast, right_operand_root(ast, root), inner);
                s.append(right.as_str());
                s
            } else if f == Fixity::Postfix {
                proof {
                    assert(root >= 1);
                    lemma_left_operand_root_bounds(toks, root as int);
                }
                let len = ast.tokens.len();
                let mut s = if root + 1 < len && ast.tokens[root + 1].has_right_operand() {
                    " ".to_owned()
                } else {
                    "".to_owned()
                };
                let left = format_rooted(ast, left_operand_root(ast, root), inner);
                s.append(left.as_str());
                let text = ast.token_string(root);
                s.append(text.as_str());
                s
            } else if f == Fixity::Open {
                proof {
                    lemma_inner_root_bounds(toks, root as int);
                }
                let b = match token {
                    Token::Expression(ExpressionToken::Open { boundary, .. }) => boundary,
                    Token::Expression(ExpressionToken::OpenBlock { index, .. }) => ast.blocks[index].boundary,
                    _ => ExpressionBoundary::Root,
                };
                let (open, close) = boundary_strings(b);
                let mut s = open.to_owned();
                let middle = format_rooted(ast, inner_root(ast, root), inner);
                s.append(middle.as_str());
                s.append(close);
                s
            } else if f == Fixity::Close {
                format_rooted(ast, open_operator_index(ast, root), inner)
            } else {
                proof {
                    assert(root >= 1);
                    lemma_left_operand_root_bounds(toks, root as int);
                    lemma_right_operand_root_bounds(toks, root as int);
                }
                let mut s = format_rooted(ast, left_operand_root(ast, root), inner);
                let text = ast.token_string(root);
                let separator = match token {
                    Token::Operator(OperatorToken::InfixOperator(id)) => id.0 == SEMICOLON || id.0 == NEWLINE_SEQUENCE,
                    _ => false,
                };
                if !separator {
                    s.append(" ");
                }
                s.append(text.as_str());
                s.append(" ");
                let right = format_rooted(ast, right_operand_root(ast, root), inner);
                s.append(right.as_str());
                s
            }
        },
    }
}

impl<'p> ExpressionTreeWalker<'p, ExpressionFormatter> {
    /// The expression rendered with explicit grouping.
    pub fn to_string(self) -> (s: String)
        requires
            formattable(self.expression.ast),
            self.expression.root < self.expression.ast.tokens@.len(),
            fix(self.expression.ast.tokens@[self.expression.root as int]) != Fixity::Close,
        ensures
            s@ == spec_format(self.expression.ast, self.expression.root as int, self.expression.ast.tokens@.len()),
    {
        format_rooted(self.expression.ast, self.expression.root, self.expression.ast.tokens.len())
    }
}

/// The line the tree format gives an expression: its root token, where it
/// stands (the token range of a group), and the expression rendered with
/// explicit grouping.
pub open spec fn spec_tree_line(ast: &Ast, root: int) -> Seq<char> {
    let toks = ast.tokens@;
    let t = toks[root];
    let place = if fix(t) == Fixity::Open || fix(t) == Fixity::Close {
        " at token range "@ + spec_decimal(spec_open_operator_index(toks, root) as nat) + "-"@ + spec_decimal(
            spec_close_operator_index(toks, root) as nat,
        )
    } else {
        " at "@ + spec_decimal(root as nat)
    };
    spec_token_debug(t) + place + ": "@ + spec_format(ast, root, toks.len()) + "\n"@
}

/// The tree format of the expression rooted at `root`, nested at most
/// `fuel` levels deep: its line, then the tree format of its operands (of
/// the inner expression of a group), left before right.
pub open spec fn spec_format_tree(ast: &Ast, root: int, fuel: nat) -> Seq<char>
    decreases fuel,
{
    let toks = ast.tokens@;
    if fuel == 0 || !(0 <= root < toks.len()) {
        ""@
    } else {
        let inner = (fuel - 1) as nat;
        let f = fix(toks[root]);
        let line = spec_tree_line(ast, root);
        if f == Fixity::Open || f == Fixity::Close {
            line + spec_format_tree(ast, spec_inner_root(toks, root), inner)
        } else if f == Fixity::Infix {
            line + spec_format_tree(ast, spec_left_operand_root(toks, root), inner) + spec_format_tree(
                ast,
                spec_right_operand_root(toks, root),
                inner,
            )
        } else if f == Fixity::Prefix {
            line + spec_format_tree(ast, spec_right_operand_root(toks, root), inner)
        } else if f == Fixity::Postfix {
            line + spec_format_tree(ast, spec_left_operand_root(toks, root), inner)
        } else {
            line
        }
    }
}

fn tree_line(ast: &Ast, root: AstIndex) -> (s: String)
    requires
        formattable(ast),
        root < ast.tokens@.len(),
    ensures
        s@ == spec_tree_line(ast, root as int),
{
    let token = ast.tokens[root];
    let mut s = token.debug_string();
    let f = token.fixity();
    if f == Fixity::Open || f == Fixity::Close {
        proof {
            assert(open_matched(ast.tokens@, root as int));
            assert(close_matched(ast.tokens@, root as int));
        }
        s.append(" at token range ");
        let open = decimal_string(open_operator_index(ast, root));
        s.append(open.as_str());
        s.append("-");
        let close = decimal_string(close_operator_index(ast, root));
        s.append(close.as_str());
    } else {
        s.append(" at ");
        let index = decimal_string(root);
        s.append(index.as_str());
    }
    s.append(": ");
    let rendered = format_rooted(ast, root, ast.tokens.len());
    s.append(rendered.as_str());
    s.append("\n");
    s
}

fn format_tree_rooted(ast: &Ast, root: AstIndex, fuel: usize) -> (s: String)
    requires
        formattable(ast),
        root < ast.tokens@.len(),
    ensures
        s@ == spec_format_tree(ast, root as int, fuel as nat),
    decreases fuel,
{
    if fuel == 0 {
        return "".to_owned();
    }
    let ghost toks = ast.tokens@;
    let inner = fuel - 1;
    let mut s = tree_line(ast, root);
    let f = ast.tokens[root].fixity();
    proof {
        assert(open_matched(toks, root as int));
        assert(close_matched(toks, root as int));
    }
    if f == Fixity::Open || f == Fixity::Close {
        proof {
            if f == Fixity::Open {
                lemma_inner_root_bounds(toks, root as int);
            } else {
                assert(root >= 1);
            }
            lemma_left_operand_root_bounds(toks, spec_close_operator_index(toks, root as int));
        }
        let rest = format_tree_rooted(ast, inner_root(ast, root), inner);
        s.append(rest.as_str());
    } else if f == Fixity::Infix {
        proof {
            assert(root >= 1);
            lemma_left_operand_root_bounds(toks, root as int);
            lemma_right_operand_root_bounds(toks, root as int);
        }
        let left = format_tree_rooted(ast, left_operand_root(ast, root), inner);
        s.append(left.as_str());
        let right = format_tree_rooted(ast, right_operand_root(ast, root), inner);
        s.append(right.as_str());
    } else if f == Fixity::Prefix {
        proof {
            lemma_right_operand_root_bounds(toks, root as int);
        }
        let right = format_tree_rooted(ast, right_operand_root(ast, root), inner);
        s.append(right.as_str());
    } else if f == Fixity::Postfix {
        proof {
            assert(root >= 1);
            lemma_left_operand_root_bounds(toks, root as int);
        }
        let left = format_tree_rooted(ast, left_operand_root(ast, root), inner);
        s.append(left.as_str());
    }
    s
}

impl<'p> ExpressionTreeWalker<'p, ExpressionTreeFormatter> {
    /// The expression as a tree: a line for it and for each expression
    /// under it, each line its root token, where it stands and its
    /// rendering with explicit grouping.
    pub fn to_string(self) -> (s: String)
        requires
            formattable(self.expression.ast),
            self.expression.root < self.expression.ast.tokens@.len(),
            fix(self.expression.ast.tokens@[self.expression.root as int]) != Fixity::Close,
        ensures
            s@ == spec_format_tree(self.expression.ast, self.expression.root as int, self.expression.ast.tokens@.len()),
    {
        format_tree_rooted(self.expression.ast, self.expression.root, self.expression.ast.tokens.len())
    }
}

} // verus!
