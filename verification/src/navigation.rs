//! Navigation in a token list read as an expression tree: operands, parents,
//! and the first and last tokens of an expression.
//!
//! Every expression is identified by its root token (the operator applied
//! last, or the term itself). The functions here find roots of operands and
//! parents by walking the token list; they are defined on token lists that
//! are well formed as trees (see [`tree_wf`]).
use crate::ast::Ast;
use crate::fixity::{Fixity, spec_has_left_operand, spec_has_right_operand};
use crate::indices::AstIndex;
use crate::token::{Token, spec_delta, spec_fixity};
use vstd::prelude::*;

verus! {

pub open spec fn fix(t: Token) -> Fixity {
    spec_fixity(t)
}

pub open spec fn has_left(t: Token) -> bool {
    spec_has_left_operand(spec_fixity(t))
}

pub open spec fn has_right(t: Token) -> bool {
    spec_has_right_operand(spec_fixity(t))
}

/// Token `k` stands where the token before it leaves it: after an operator
/// that wants a right operand there is an expression token, and after a
/// complete operand there is an operator token.
pub open spec fn alternates_at(toks: Seq<Token>, k: int) -> bool {
    has_left(toks[k]) == !has_right(toks[k - 1])
}

/// The open token at `i` has a matching close token.
pub open spec fn open_matched(toks: Seq<Token>, i: int) -> bool {
    fix(toks[i]) == Fixity::Open ==> {
        &&& i + spec_delta(toks[i]) < toks.len()
        &&& fix(toks[i + spec_delta(toks[i])]) == Fixity::Close
        &&& spec_delta(toks[i + spec_delta(toks[i])]) == spec_delta(toks[i])
    }
}

/// The close token at `j` has a matching open token.
pub open spec fn close_matched(toks: Seq<Token>, j: int) -> bool {
    fix(toks[j]) == Fixity::Close ==> {
        &&& spec_delta(toks[j]) <= j
        &&& fix(toks[j - spec_delta(toks[j])]) == Fixity::Open
        &&& spec_delta(toks[j - spec_delta(toks[j])]) == spec_delta(toks[j])
    }
}

/// A group token at `k` inside the group opened at `i` has its partner
/// inside that group too.
pub open spec fn nested_in(toks: Seq<Token>, i: int, k: int) -> bool {
    (fix(toks[i]) == Fixity::Open && i < k < i + spec_delta(toks[i])) ==> {
        &&& fix(toks[k]) == Fixity::Open ==> k + spec_delta(toks[k]) < i + spec_delta(toks[i])
        &&& fix(toks[k]) == Fixity::Close ==> k - spec_delta(toks[k]) > i
    }
}

/// A token list that reads as a tree: nonempty, starting with a token that
/// wants no left operand, ending with one that wants no right operand,
/// alternating between expression and operator positions, with properly
/// matched and nested groups.
pub open spec fn tree_wf(toks: Seq<Token>) -> bool {
    &&& toks.len() >= 1
    &&& !has_left(toks[0])
    &&& !has_right(toks[toks.len() - 1])
    &&& forall|k: int| 0 < k < toks.len() ==> #[trigger] alternates_at(toks, k)
    &&& forall|i: int| 0 <= i < toks.len() ==> #[trigger] open_matched(toks, i)
    &&& forall|j: int| 0 <= j < toks.len() ==> #[trigger] close_matched(toks, j)
    &&& forall|i: int, k: int| 0 <= i < toks.len() && 0 <= k < toks.len() ==> #[trigger] nested_in(toks, i, k)
}

pub open spec fn spec_open_operator_index(toks: Seq<Token>, index: int) -> int {
    if fix(toks[index]) == Fixity::Close {
        index - spec_delta(toks[index])
    } else {
        index
    }
}

pub open spec fn spec_close_operator_index(toks: Seq<Token>, index: int) -> int {
    if fix(toks[index]) == Fixity::Open {
        index + spec_delta(toks[index])
    } else {
        index
    }
}

/// Backwards over postfix operators.
pub open spec fn skip_postfix_back(toks: Seq<Token>, s: int) -> int
    decreases s,
{
    if s > 0 && fix(toks[s]) == Fixity::Postfix {
        skip_postfix_back(toks, s - 1)
    } else {
        s
    }
}

/// Backwards over prefix operators standing before `s`.
pub open spec fn skip_prefix_back(toks: Seq<Token>, s: int) -> int
    decreases s,
{
    if s > 0 && fix(toks[s - 1]) == Fixity::Prefix {
        skip_prefix_back(toks, s - 1)
    } else {
        s
    }
}

/// Forwards over prefix operators.
pub open spec fn skip_prefix_fwd(toks: Seq<Token>, e: int) -> int
    decreases toks.len() - e,
{
    if 0 <= e < toks.len() - 1 && fix(toks[e]) == Fixity::Prefix {
        skip_prefix_fwd(toks, e + 1)
    } else {
        e
    }
}

/// Forwards over postfix operators standing after `e`.
pub open spec fn skip_postfix_fwd(toks: Seq<Token>, e: int) -> int
    decreases toks.len() - e,
{
    if 0 <= e < toks.len() - 1 && fix(toks[e + 1]) == Fixity::Postfix {
        skip_postfix_fwd(toks, e + 1)
    } else {
        e
    }
}

/// The root of the left operand of the operator at `root`: the operand ends
/// just before it; it reaches back over postfix operators to a term or
/// group, over the prefix operators applied to that (unless a postfix
/// operator binds first), and is rooted at an infix operator before that,
/// if any (unless the operator at `root` is itself postfix).
pub open spec fn spec_left_operand_root(toks: Seq<Token>, root: int) -> int {
    let end = root - 1;
    let is_postfix = fix(toks[root]) == Fixity::Postfix;
    let s1 = skip_postfix_back(toks, end);
    let has_postfix = s1 < end;
    let s2 = spec_open_operator_index(toks, s1);
    let s3 = if is_postfix || !has_postfix {
        skip_prefix_back(toks, s2)
    } else {
        s2
    };
    if !is_postfix && s3 > 0 && fix(toks[s3 - 1]) == Fixity::Infix {
        s3 - 1
    } else if has_postfix {
        end
    } else {
        s3
    }
}

/// The root of the expression inside the group whose open or close token
/// is at `index`: the left operand of the close token.
pub open spec fn spec_inner_root(toks: Seq<Token>, index: int) -> int {
    spec_left_operand_root(toks, spec_close_operator_index(toks, index))
}

/// The root of the right operand of the operator at `root`: the token right
/// after a prefix operator, the inner expression of a group, and for an
/// infix operator the outermost postfix operator applied to the following
/// term or group, if any, else the token right after it.
pub open spec fn spec_right_operand_root(toks: Seq<Token>, root: int) -> int {
    if fix(toks[root]) == Fixity::Prefix {
        root + 1
    } else if fix(toks[root]) == Fixity::Open {
        spec_inner_root(toks, root)
    } else {
        let start = root + 1;
        let e1 = skip_prefix_fwd(toks, start);
        let e2 = spec_close_operator_index(toks, e1);
        let e3 = skip_postfix_fwd(toks, e2);
        if e3 > e2 {
            e3
        } else {
            start
        }
    }
}

pub open spec fn first_walk(toks: Seq<Token>, left: int) -> int
    decreases left,
{
    if 0 < left < toks.len() && has_left(toks[left]) {
        let l = spec_left_operand_root(toks, left);
        if 0 <= l < left {
            first_walk(toks, l)
        } else {
            left
        }
    } else {
        left
    }
}

pub open spec fn last_walk(toks: Seq<Token>, right: int) -> int
    decreases toks.len() - right,
{
    if 0 <= right < toks.len() && has_right(toks[right]) {
        let r = spec_right_operand_root(toks, right);
        if right < r < toks.len() {
            last_walk(toks, r)
        } else {
            right
        }
    } else {
        right
    }
}

/// The first token of the expression rooted at `root`: for a group, its
/// open token; otherwise found by following left operands.
pub open spec fn spec_first_index(toks: Seq<Token>, root: int) -> int {
    if fix(toks[root]) == Fixity::Close {
        root - spec_delta(toks[root])
    } else {
        first_walk(toks, root)
    }
}

/// The last token of the expression rooted at `root`: for a group, its
/// close token; otherwise found by following right operands.
pub open spec fn spec_last_index(toks: Seq<Token>, root: int) -> int {
    if fix(toks[root]) == Fixity::Open {
        root + spec_delta(toks[root])
    } else {
        last_walk(toks, root)
    }
}

/// The root of the expression that the expression rooted at `root` is an
/// operand of: the operator just before it or just after it, whichever
/// binds it (prefix before postfix before a left infix before a right
/// infix before the group's open and close).
pub open spec fn spec_parent_root(toks: Seq<Token>, root: int) -> int {
    let first = spec_first_index(toks, root);
    let last = spec_last_index(toks, root);
    let next = last + 1;
    let prev = first - 1;
    if first == 0 {
        next
    } else if last >= toks.len() - 1 {
        prev
    } else {
        let p = fix(toks[prev]);
        let q = fix(toks[next]);
        if (p == Fixity::Infix && q == Fixity::Postfix) || (p == Fixity::Open && q == Fixity::Postfix)
            || (p == Fixity::Open && q == Fixity::Infix) {
            next
        } else {
            prev
        }
    }
}

/// The whole token list is one expression: the one rooted at its last token.
pub open spec fn is_whole_tree(toks: Seq<Token>, root: int) -> bool {
    spec_first_index(toks, root) == 0 && spec_last_index(toks, root) >= toks.len() - 1
}

// ---------------------------------------------------------------------------
// Lemmas

proof fn lemma_skip_postfix_back(toks: Seq<Token>, s: int, lo: int)
    requires
        0 <= lo <= s < toks.len(),
        fix(toks[lo]) != Fixity::Postfix,
    ensures
        lo <= skip_postfix_back(toks, s) <= s,
        fix(toks[skip_postfix_back(toks, s)]) != Fixity::Postfix,
        forall|k: int| skip_postfix_back(toks, s) < k <= s ==> fix(#[trigger] toks[k]) == Fixity::Postfix,
    decreases s,
{
    if s > 0 && fix(toks[s]) == Fixity::Postfix {
        lemma_skip_postfix_back(toks, s - 1, lo);
    }
}

proof fn lemma_skip_prefix_back(toks: Seq<Token>, s: int, lo: int)
    requires
        0 <= lo < s < toks.len() || (lo == s - 1 && 0 < s < toks.len()) || (0 == s && lo == -1),
        lo >= 0 ==> fix(toks[lo]) != Fixity::Prefix,
    ensures
        lo + 1 <= skip_prefix_back(toks, s) <= s,
    decreases s,
{
    if s > 0 && fix(toks[s - 1]) == Fixity::Prefix {
        if s - 1 > lo + 1 {
            lemma_skip_prefix_back(toks, s - 1, lo);
        } else {
            assert(s - 1 == lo + 1 || s - 1 == lo);
            if s - 1 == lo {
                assert(false);
            }
            lemma_skip_prefix_back_any(toks, s - 1);
        }
    }
}

proof fn lemma_skip_prefix_back_any(toks: Seq<Token>, s: int)
    requires
        0 <= s < toks.len(),
    ensures
        0 <= skip_prefix_back(toks, s) <= s,
    decreases s,
{
    if s > 0 && fix(toks[s - 1]) == Fixity::Prefix {
        lemma_skip_prefix_back_any(toks, s - 1);
    }
}

proof fn lemma_skip_prefix_fwd(toks: Seq<Token>, e: int)
    requires
        0 <= e < toks.len(),
    ensures
        e <= skip_prefix_fwd(toks, e) < toks.len(),
        skip_prefix_fwd(toks, e) < toks.len() - 1 ==> fix(toks[skip_prefix_fwd(toks, e)]) != Fixity::Prefix,
    decreases toks.len() - e,
{
    if 0 <= e < toks.len() - 1 && fix(toks[e]) == Fixity::Prefix {
        lemma_skip_prefix_fwd(toks, e + 1);
    }
}

proof fn lemma_skip_postfix_fwd(toks: Seq<Token>, e: int)
    requires
        0 <= e < toks.len(),
    ensures
        e <= skip_postfix_fwd(toks, e) < toks.len(),
    decreases toks.len() - e,
{
    if 0 <= e < toks.len() - 1 && fix(toks[e + 1]) == Fixity::Postfix {
        lemma_skip_postfix_fwd(toks, e + 1);
    }
}

/// The left operand of an operator lies before it.
pub proof fn lemma_left_operand_root_bounds(toks: Seq<Token>, root: int)
    requires
        tree_wf(toks),
        1 <= root < toks.len(),
    ensures
        0 <= spec_left_operand_root(toks, root) < root,
{
    let end = root - 1;
    assert(!has_left(toks[0]));
    lemma_skip_postfix_back(toks, end, 0);
    let s1 = skip_postfix_back(toks, end);
    assert(close_matched(toks, s1));
    let s2 = spec_open_operator_index(toks, s1);
    if s2 > 0 {
        lemma_skip_prefix_back_any(toks, s2);
    } else {
        lemma_skip_prefix_back_any(toks, s2);
    }
}

/// The expression inside a group lies strictly between its open and close.
pub proof fn lemma_inner_root_bounds(toks: Seq<Token>, i: int)
    requires
        tree_wf(toks),
        0 <= i < toks.len(),
        fix(toks[i]) == Fixity::Open,
    ensures
        i < spec_inner_root(toks, i) < i + spec_delta(toks[i]),
        spec_delta(toks[i]) >= 2,
{
    assert(open_matched(toks, i));
    let d = spec_delta(toks[i]);
    let c = i + d;
    assert(alternates_at(toks, i + 1)) by {
        if d == 0 {
            assert(false);
        }
    }
    if d == 1 {
        assert(alternates_at(toks, c));
        assert(false);
    }
    assert(d >= 2);
    let end = c - 1;
    // toks[i + 1] wants no left operand, so it is not postfix.
    lemma_skip_postfix_back(toks, end, i + 1);
    let s1 = skip_postfix_back(toks, end);
    assert(nested_in(toks, i, s1));
    assert(close_matched(toks, s1));
    let s2 = spec_open_operator_index(toks, s1);
    assert(i < s2 <= s1);
    assert(i < c);
    lemma_skip_prefix_back(toks, s2, i);
    let s3 = skip_prefix_back(toks, s2);
    assert(i + 1 <= s3);
    let is_postfix = fix(toks[c]) == Fixity::Postfix;
    let s3x = if is_postfix || !(s1 < end) {
        s3
    } else {
        s2
    };
    if !is_postfix && s3x > 0 && fix(toks[s3x - 1]) == Fixity::Infix {
        assert(s3x - 1 != i);
    }
}

/// The right operand of an operator lies after it.
pub proof fn lemma_right_operand_root_bounds(toks: Seq<Token>, root: int)
    requires
        tree_wf(toks),
        0 <= root < toks.len(),
        has_right(toks[root]),
    ensures
        root < spec_right_operand_root(toks, root) < toks.len(),
{
    let n = toks.len();
    assert(root != n - 1);
    if fix(toks[root]) == Fixity::Prefix {
    } else if fix(toks[root]) == Fixity::Open {
        lemma_inner_root_bounds(toks, root);
        assert(open_matched(toks, root));
    } else {
        let start = root + 1;
        lemma_skip_prefix_fwd(toks, start);
        let e1 = skip_prefix_fwd(toks, start);
        assert(open_matched(toks, e1));
        let e2 = spec_close_operator_index(toks, e1);
        lemma_skip_postfix_fwd(toks, e2);
    }
}

proof fn lemma_first_walk(toks: Seq<Token>, left: int)
    requires
        tree_wf(toks),
        0 <= left < toks.len(),
    ensures
        0 <= first_walk(toks, left) <= left,
        !has_left(toks[first_walk(toks, left)]),
    decreases left,
{
    if 0 < left && has_left(toks[left]) {
        lemma_left_operand_root_bounds(toks, left);
        lemma_first_walk(toks, spec_left_operand_root(toks, left));
    }
}

proof fn lemma_last_walk(toks: Seq<Token>, right: int)
    requires
        tree_wf(toks),
        0 <= right < toks.len(),
    ensures
        right <= last_walk(toks, right) < toks.len(),
        !has_right(toks[last_walk(toks, right)]),
    decreases toks.len() - right,
{
    if has_right(toks[right]) {
        lemma_right_operand_root_bounds(toks, right);
        lemma_last_walk(toks, spec_right_operand_root(toks, right));
    }
}

/// The first token of an expression comes at or before its root and wants
/// no left operand; the last comes at or after it and wants no right
/// operand.
pub proof fn lemma_first_last_bounds(toks: Seq<Token>, root: int)
    requires
        tree_wf(toks),
        0 <= root < toks.len(),
    ensures
        0 <= spec_first_index(toks, root) <= root,
        !has_left(toks[spec_first_index(toks, root)]),
        root <= spec_last_index(toks, root) < toks.len(),
        !has_right(toks[spec_last_index(toks, root)]),
{
    assert(close_matched(toks, root));
    assert(open_matched(toks, root));
    lemma_first_walk(toks, root);
    lemma_last_walk(toks, root);
}

/// The parent of an expression (other than the whole tree) is an operator
/// next to it.
pub proof fn lemma_parent_root(toks: Seq<Token>, root: int)
    requires
        tree_wf(toks),
        0 <= root < toks.len(),
        !is_whole_tree(toks, root),
    ensures
        0 <= spec_parent_root(toks, root) < toks.len(),
        fix(toks[spec_parent_root(toks, root)]) != Fixity::Term,
        spec_parent_root(toks, root) == spec_first_index(toks, root) - 1 ==> has_right(toks[spec_parent_root(toks, root)]),
        spec_parent_root(toks, root) == spec_last_index(toks, root) + 1 ==> has_left(toks[spec_parent_root(toks, root)]),
        spec_parent_root(toks, root) == spec_first_index(toks, root) - 1 || spec_parent_root(toks, root) == spec_last_index(toks, root) + 1,
{
    lemma_first_last_bounds(toks, root);
    let first = spec_first_index(toks, root);
    let last = spec_last_index(toks, root);
    if first > 0 {
        assert(alternates_at(toks, first));
    }
    if last < toks.len() - 1 {
        assert(alternates_at(toks, last + 1));
    }
}

/// Walking back over prefix operators, if it moves, stops on one.
proof fn lemma_skip_prefix_back_lands(toks: Seq<Token>, s: int)
    requires
        0 <= s < toks.len(),
    ensures
        skip_prefix_back(toks, s) < s ==> fix(toks[skip_prefix_back(toks, s)]) == Fixity::Prefix,
    decreases s,
{
    if s > 0 && fix(toks[s - 1]) == Fixity::Prefix {
        lemma_skip_prefix_back_lands(toks, s - 1);
        lemma_skip_prefix_back_any(toks, s - 1);
    }
}

/// Walking forward over postfix operators, if it moves, stops on one.
proof fn lemma_skip_postfix_fwd_lands(toks: Seq<Token>, e: int)
    requires
        0 <= e < toks.len(),
    ensures
        skip_postfix_fwd(toks, e) > e ==> fix(toks[skip_postfix_fwd(toks, e)]) == Fixity::Postfix,
    decreases toks.len() - e,
{
    if 0 <= e < toks.len() - 1 && fix(toks[e + 1]) == Fixity::Postfix {
        lemma_skip_postfix_fwd_lands(toks, e + 1);
        lemma_skip_postfix_fwd(toks, e + 1);
    }
}

/// A left operand that is a single term is the token just before its
/// operator, and the token before it (if any) is neither a prefix operator
/// nor, unless the operator is postfix, an infix operator.
proof fn lemma_term_left_operand(toks: Seq<Token>, root: int)
    requires
        tree_wf(toks),
        1 <= root < toks.len(),
        fix(toks[spec_left_operand_root(toks, root)]) == Fixity::Term,
    ensures
        spec_left_operand_root(toks, root) == root - 1,
        root >= 2 ==> fix(toks[root - 2]) != Fixity::Prefix,
        root >= 2 && fix(toks[root]) != Fixity::Postfix ==> fix(toks[root - 2]) != Fixity::Infix,
{
    let end = root - 1;
    let is_postfix = fix(toks[root]) == Fixity::Postfix;
    assert(!has_left(toks[0]));
    lemma_skip_postfix_back(toks, end, 0);
    let s1 = skip_postfix_back(toks, end);
    let has_postfix = s1 < end;
    if has_postfix {
        assert(fix(toks[end]) == Fixity::Postfix);
    }
    assert(s1 == end);
    assert(close_matched(toks, s1));
    let s2 = spec_open_operator_index(toks, s1);
    lemma_skip_prefix_back_any(toks, s2);
    lemma_skip_prefix_back_lands(toks, s2);
    let s3 = skip_prefix_back(toks, s2);
    assert(s3 == s2);
    assert(s2 == s1);
    if end >= 1 && fix(toks[end - 1]) == Fixity::Prefix {
        lemma_skip_prefix_back_any(toks, end - 1);
        assert(false);
    }
}

/// An operand that is a single term stands right next to its operator, and
/// its parent is that operator: the left operand of an infix or postfix
/// operator, the right operand of an infix or prefix operator, and the
/// expression inside a group.
pub proof fn law_term_operand_parent(toks: Seq<Token>, root: int)
    requires
        tree_wf(toks),
        0 <= root < toks.len(),
    ensures
        (fix(toks[root]) == Fixity::Infix || fix(toks[root]) == Fixity::Postfix) && fix(
            toks[spec_left_operand_root(toks, root)],
        ) == Fixity::Term ==> spec_left_operand_root(toks, root) == root - 1 && spec_parent_root(
            toks,
            spec_left_operand_root(toks, root),
        ) == root,
        has_right(toks[root]) && fix(toks[spec_right_operand_root(toks, root)]) == Fixity::Term
            ==> spec_right_operand_root(toks, root) == root + 1 && spec_parent_root(
            toks,
            spec_right_operand_root(toks, root),
        ) == root,
{
    let n = toks.len() as int;
    if (fix(toks[root]) == Fixity::Infix || fix(toks[root]) == Fixity::Postfix) && fix(
        toks[spec_left_operand_root(toks, root)],
    ) == Fixity::Term {
        if root == 0 {
            assert(!has_left(toks[0]));
        }
        lemma_term_left_operand(toks, root);
        let l = root - 1;
        assert(first_walk(toks, l) == l);
        assert(last_walk(toks, l) == l);
        if l > 0 {
            assert(alternates_at(toks, l));
        }
        if root == n - 1 {
            assert(!has_right(toks[n - 1]));
        }
    }
    if has_right(toks[root]) && fix(toks[spec_right_operand_root(toks, root)]) == Fixity::Term {
        assert(root != n - 1);
        let start = root + 1;
        if fix(toks[root]) == Fixity::Prefix {
        } else if fix(toks[root]) == Fixity::Open {
            assert(open_matched(toks, root));
            let c = root + spec_delta(toks[root]);
            lemma_inner_root_bounds(toks, root);
            lemma_term_left_operand(toks, c);
            let k = c - 2;
            assert(alternates_at(toks, c - 1));
            if k != root {
                assert(nested_in(toks, root, k));
                assert(open_matched(toks, k));
                assert(false);
            }
        } else {
            lemma_skip_prefix_fwd(toks, start);
            let e1 = skip_prefix_fwd(toks, start);
            assert(open_matched(toks, e1));
            let e2 = spec_close_operator_index(toks, e1);
            lemma_skip_postfix_fwd(toks, e2);
            lemma_skip_postfix_fwd_lands(toks, e2);
            assert(e1 == start);
            assert(e2 == start);
            if start < n - 1 && fix(toks[start + 1]) == Fixity::Postfix {
                lemma_skip_postfix_fwd(toks, start + 1);
                assert(false);
            }
        }
        let r = spec_right_operand_root(toks, root);
        assert(r == start);
        assert(first_walk(toks, r) == r);
        assert(last_walk(toks, r) == r);
    }
}

// ---------------------------------------------------------------------------
// Executable navigation

pub fn open_operator_index(ast: &Ast, index: AstIndex) -> (r: AstIndex)
    requires
        tree_wf(ast.tokens@),
        index < ast.tokens@.len(),
    ensures
        r == spec_open_operator_index(ast.tokens@, index as int),
{
    proof {
        assert(close_matched(ast.tokens@, index as int));
    }
    let token = ast.tokens[index];
    if token.fixity() == Fixity::Close {
        index - token.delta()
    } else {
        index
    }
}

pub fn close_operator_index(ast: &Ast, index: AstIndex) -> (r: AstIndex)
    requires
        tree_wf(ast.tokens@),
        index < ast.tokens@.len(),
    ensures
        r == spec_close_operator_index(ast.tokens@, index as int),
{
    proof {
        assert(open_matched(ast.tokens@, index as int));
    }
    let _len = ast.tokens.len();
    let token = ast.tokens[index];
    if token.fixity() == Fixity::Open {
        index + token.delta()
    } else {
        index
    }
}

pub fn left_operand_root(ast: &Ast, root: AstIndex) -> (r: AstIndex)
    requires
        tree_wf(ast.tokens@),
        1 <= root < ast.tokens@.len(),
    ensures
        r == spec_left_operand_root(ast.tokens@, root as int),
        r < root,
{
    let ghost toks = ast.tokens@;
    proof {
        lemma_left_operand_root_bounds(toks, root as int);
        assert(!has_left(toks[0]));
        lemma_skip_postfix_back(toks, root - 1, 0);
    }
    let end = root - 1;
    let mut start = end;
    let is_postfix = ast.tokens[root].fixity() == Fixity::Postfix;

    // Pass any postfixes to find the term.
    let mut has_postfix = false;
    while ast.tokens[start].fixity() == Fixity::Postfix
        invariant
            tree_wf(toks),
            toks == ast.tokens@,
            0 <= start <= end < toks.len(),
            skip_postfix_back(toks, start as int) == skip_postfix_back(toks, end as int),
            has_postfix == (start < end),
        decreases start,
    {
        assert(start > 0) by {
            assert(!has_left(toks[0]));
        }
        start = start - 1;
        has_postfix = true;
    }
    // Jump to the open token if it's a group (parens, curlies, etc.)
    start = open_operator_index(ast, start);

    // Pass any prefixes if there is no postfix or infix.
    if is_postfix || !has_postfix {
        while start > 0 && ast.tokens[start - 1].fixity() == Fixity::Prefix
            invariant
                toks == ast.tokens@,
                0 <= start < toks.len(),
                skip_prefix_back(toks, start as int) == skip_prefix_back(
                    toks,
                    spec_open_operator_index(toks, skip_postfix_back(toks, end as int)),
                ),
            decreases start,
        {
            start = start - 1;
        }
    }
    // Check for an infix.
    if !is_postfix && start > 0 && ast.tokens[start - 1].fixity() == Fixity::Infix {
        return start - 1;
    }
    // Pick postfix if there is one.
    if has_postfix {
        return end;
    }
    // Otherwise, it's the leftmost index (either a prefix or term).
    start
}

pub fn inner_root(ast: &Ast, index: AstIndex) -> (r: AstIndex)
    requires
        tree_wf(ast.tokens@),
        index < ast.tokens@.len(),
        spec_close_operator_index(ast.tokens@, index as int) >= 1,
    ensures
        r == spec_inner_root(ast.tokens@, index as int),
{
    proof {
        assert(open_matched(ast.tokens@, index as int));
    }
    let close = close_operator_index(ast, index);
    left_operand_root(ast, close)
}

pub fn right_operand_root(ast: &Ast, root: AstIndex) -> (r: AstIndex)
    requires
        tree_wf(ast.tokens@),
        root < ast.tokens@.len(),
        has_right(ast.tokens@[root as int]),
    ensures
        r == spec_right_operand_root(ast.tokens@, root as int),
        root < r < ast.tokens@.len(),
{
    let ghost toks = ast.tokens@;
    proof {
        lemma_right_operand_root_bounds(toks, root as int);
    }
    let _len = ast.tokens.len();
    let start = root + 1;
    let fixity = ast.tokens[root].fixity();
    if fixity == Fixity::Prefix {
        // A prefix cannot have postfix or infix children, so its immediate
        // right is the child.
        return start;
    }
    if fixity == Fixity::Open {
        proof {
            lemma_inner_root_bounds(toks, root as int);
        }
        return inner_root(ast, root);
    }
    // Otherwise it is infix. Check whether there is a postfix by skipping
    // prefix and term.
    let mut end = start;
    proof {
        lemma_skip_prefix_fwd(toks, start as int);
    }
    while end < ast.tokens.len() - 1 && ast.tokens[end].fixity() == Fixity::Prefix
        invariant
            toks == ast.tokens@,
            start <= end < toks.len(),
            skip_prefix_fwd(toks, end as int) == skip_prefix_fwd(toks, start as int),
        decreases toks.len() - end,
    {
        end = end + 1;
    }
    proof {
        assert(open_matched(toks, end as int));
    }
    end = close_operator_index(ast, end);
    proof {
        lemma_skip_postfix_fwd(toks, end as int);
    }
    let ghost e2 = end;
    let mut has_postfix = false;
    while end < ast.tokens.len() - 1 && ast.tokens[end + 1].fixity() == Fixity::Postfix
        invariant
            toks == ast.tokens@,
            e2 <= end < toks.len(),
            skip_postfix_fwd(toks, end as int) == skip_postfix_fwd(toks, e2 as int),
            has_postfix == (end > e2),
        decreases toks.len() - end,
    {
        end = end + 1;
        has_postfix = true;
    }
    // If there is at least one postfix, return the outermost postfix.
    if has_postfix {
        return end;
    }
    // Otherwise, the right child is the immediate right term (or prefix).
    start
}

/// The index of the token at the very beginning of the expression.
pub fn first_index(ast: &Ast, root: AstIndex) -> (r: AstIndex)
    requires
        tree_wf(ast.tokens@),
        root < ast.tokens@.len(),
    ensures
        r == spec_first_index(ast.tokens@, root as int),
{
    let ghost toks = ast.tokens@;
    proof {
        assert(close_matched(toks, root as int));
    }
    let token = ast.tokens[root];
    if token.fixity() == Fixity::Close {
        return root - token.delta();
    }
    let mut left = root;
    while ast.tokens[left].has_left_operand()
        invariant
            tree_wf(toks),
            toks == ast.tokens@,
            0 <= left < toks.len(),
            first_walk(toks, left as int) == first_walk(toks, root as int),
        decreases left,
    {
        assert(left > 0) by {
            assert(!has_left(toks[0]));
        }
        proof {
            lemma_left_operand_root_bounds(toks, left as int);
        }
        left = left_operand_root(ast, left);
    }
    left
}

pub fn prev_index(ast: &Ast, root: AstIndex) -> (r: AstIndex)
    requires
        tree_wf(ast.tokens@),
        1 <= root <= ast.tokens@.len(),
    ensures
        r == spec_open_operator_index(ast.tokens@, root - 1),
{
    open_operator_index(ast, root - 1)
}

/// The index of the token at the very end of the expression.
pub fn last_index(ast: &Ast, root: AstIndex) -> (r: AstIndex)
    requires
        tree_wf(ast.tokens@),
        root < ast.tokens@.len(),
    ensures
        r == spec_last_index(ast.tokens@, root as int),
{
    let ghost toks = ast.tokens@;
    proof {
        assert(open_matched(toks, root as int));
    }
    let _len = ast.tokens.len();
    let token = ast.tokens[root];
    if token.fixity() == Fixity::Open {
        return root + token.delta();
    }
    let mut right = root;
    while ast.tokens[right].has_right_operand()
        invariant
            tree_wf(toks),
            toks == ast.tokens@,
            0 <= right < toks.len(),
            last_walk(toks, right as int) == last_walk(toks, root as int),
        decreases toks.len() - right,
    {
        right = right_operand_root(ast, right);
    }
    right
}

pub fn parent_root(ast: &Ast, root: AstIndex) -> (r: AstIndex)
    requires
        tree_wf(ast.tokens@),
        root < ast.tokens@.len(),
        !is_whole_tree(ast.tokens@, root as int),
    ensures
        r == spec_parent_root(ast.tokens@, root as int),
{
    proof {
        lemma_first_last_bounds(ast.tokens@, root as int);
    }
    // Grab the next and previous expression.
    let _len = ast.tokens.len();
    let first_index = first_index(ast, root);
    let last_index = last_index(ast, root);
    let next = last_index + 1;
    if first_index == 0 {
        return next;
    }
    let prev = first_index - 1;
    if last_index >= ast.tokens.len() - 1 {
        return prev;
    }
    // prefix > postfix > left infix > right infix > open+close
    let p = ast.tokens[prev].fixity();
    let q = ast.tokens[next].fixity();
    if (p == Fixity::Infix && q == Fixity::Postfix) || (p == Fixity::Open && q == Fixity::Postfix) || (p
        == Fixity::Open && q == Fixity::Infix) {
        next
    } else {
        prev
    }
}

/// The number of parent steps from `root` up to the top expression (the one
/// rooted at token 0), if the chain of parents reaches it within `fuel`
/// steps without passing through another expression that spans the whole
/// token list.
pub open spec fn depth_of(toks: Seq<Token>, root: int, fuel: nat) -> Option<nat>
    decreases fuel,
{
    if root == 0 {
        Some(0)
    } else if fuel == 0 || !(0 <= root < toks.len()) || is_whole_tree(toks, root) {
        None
    } else {
        match depth_of(toks, spec_parent_root(toks, root), (fuel - 1) as nat) {
            Some(d) => Some(d + 1),
            None => None,
        }
    }
}

/// The depth of the expression rooted at `root`.
pub open spec fn spec_depth(toks: Seq<Token>, root: int) -> Option<nat> {
    depth_of(toks, root, toks.len())
}

proof fn lemma_depth_of_bound(toks: Seq<Token>, root: int, fuel: nat)
    requires
        depth_of(toks, root, fuel) is Some,
    ensures
        depth_of(toks, root, fuel).unwrap() <= fuel,
    decreases fuel,
{
    if root != 0 {
        lemma_depth_of_bound(toks, spec_parent_root(toks, root), (fuel - 1) as nat);
    }
}

/// More fuel gives the same depth once the depth is found.
proof fn lemma_depth_of_fuel(toks: Seq<Token>, root: int, fuel: nat, more: nat)
    requires
        depth_of(toks, root, fuel) is Some,
        fuel <= more,
    ensures
        depth_of(toks, root, more) == depth_of(toks, root, fuel),
    decreases fuel,
{
    if root != 0 {
        lemma_depth_of_fuel(toks, spec_parent_root(toks, root), (fuel - 1) as nat, (more - 1) as nat);
    }
}

/// The depth of the top expression (rooted at token 0) is zero, and the
/// depth of any other expression whose depth is known is its parent's
/// depth plus one.
pub proof fn law_depth_steps_by_one(toks: Seq<Token>, root: int)
    requires
        0 <= root < toks.len(),
        spec_depth(toks, root) is Some,
    ensures
        root == 0 ==> spec_depth(toks, root) == Some(0nat),
        root != 0 ==> spec_depth(toks, spec_parent_root(toks, root)) is Some && spec_depth(toks, root).unwrap() == spec_depth(
            toks,
            spec_parent_root(toks, root),
        ).unwrap() + 1,
{
    if root != 0 {
        let p = spec_parent_root(toks, root);
        assert(depth_of(toks, p, (toks.len() - 1) as nat) is Some);
        lemma_depth_of_fuel(toks, p, (toks.len() - 1) as nat, toks.len());
    }
}

/// The expression before the one after an expression is that expression,
/// unless the expression's token closes a group (then it is the group);
/// and the expression after the one before it is itself, unless the token
/// before it closes a group.
pub proof fn law_prev_next(toks: Seq<Token>, root: int)
    requires
        tree_wf(toks),
        0 <= root < toks.len(),
    ensures
        root + 1 < toks.len() && fix(toks[root]) != Fixity::Close ==> spec_open_operator_index(toks, (root + 1) - 1) == root,
        root >= 1 && fix(toks[root - 1]) != Fixity::Close ==> spec_open_operator_index(toks, root - 1) + 1 == root,
{
}

/// The number of parent steps from `root` up to the top expression.
pub fn depth(ast: &Ast, root: AstIndex) -> (d: usize)
    requires
        tree_wf(ast.tokens@),
        root < ast.tokens@.len(),
        spec_depth(ast.tokens@, root as int) is Some,
    ensures
        d == spec_depth(ast.tokens@, root as int).unwrap(),
{
    let ghost toks = ast.tokens@;
    let ghost mut fuel: nat = toks.len();
    let len = ast.tokens.len();
    let mut depth: usize = 0;
    let mut expression = root;
    proof {
        lemma_depth_of_bound(toks, root as int, fuel);
    }
    while expression != 0
        invariant
            tree_wf(toks),
            toks == ast.tokens@,
            expression < toks.len(),
            depth_of(toks, expression as int, fuel) is Some,
            depth + depth_of(toks, expression as int, fuel).unwrap() == spec_depth(toks, root as int).unwrap(),
            spec_depth(toks, root as int).unwrap() <= toks.len(),
            toks.len() == len,
        decreases fuel,
    {
        proof {
            lemma_parent_root(toks, expression as int);
        }
        expression = parent_root(ast, expression);
        depth = depth + 1;
        proof {
            fuel = (fuel - 1) as nat;
        }
    }
    depth
}

} // verus!
