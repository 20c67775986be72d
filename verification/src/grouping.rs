//! The shape the grouper keeps its token list in: a tree under
//! construction. Every open or close token it emitted is matched and nested
//! properly, except the open tokens of the groups still open; the groups
//! still open do not cross any closed group; and the token list alternates
//! between operand and operator positions. Once the source's group closes,
//! the token list is a well-formed tree.
use crate::fixity::Fixity;
use crate::grouper::OpenExpression;
use crate::navigation::{alternates_at, close_matched, fix, has_left, has_right, nested_in, open_matched, tree_wf};
use crate::token::{ExpressionBoundary, Token, boundary_rank, has_precedence, spec_delta, spec_is_required};
use vstd::prelude::*;

verus! {

/// The token list alternates between operand and operator positions and
/// starts in an operand position.
pub open spec fn alternating(t: Seq<Token>) -> bool {
    &&& t.len() >= 1 ==> !has_left(t[0])
    &&& forall|k: int| 0 < k < t.len() ==> #[trigger] alternates_at(t, k)
}

/// The open group `j` of the stack has its (unmatched) open token at `i`.
pub open spec fn is_open_entry(s: Seq<OpenExpression>, j: int, i: int) -> bool {
    0 <= j < s.len() && spec_is_required(s[j].boundary) && s[j].open_index == i
}

/// Every group token is matched and nested, but the open tokens of open
/// groups.
pub open spec fn groups_matched(t: Seq<Token>, s: Seq<OpenExpression>) -> bool {
    &&& forall|i: int|
        0 <= i < t.len() ==> #[trigger] open_matched(t, i) || exists|j: int| #[trigger] is_open_entry(s, j, i)
    &&& forall|k: int| 0 <= k < t.len() ==> #[trigger] close_matched(t, k)
    &&& forall|i: int, k: int| 0 <= i < t.len() && 0 <= k < t.len() ==> #[trigger] nested_in(t, i, k)
}

/// Where the close token at `k` has its open token.
pub open spec fn partner(t: Seq<Token>, k: int) -> int {
    k - spec_delta(t[k])
}

/// No closed group crosses the position `p`: a close token at or after it
/// has its open token at or after it.
pub open spec fn no_group_crosses(t: Seq<Token>, p: int) -> bool {
    forall|k: int| 0 <= k < t.len() && fix(t[k]) == Fixity::Close && k >= p ==> #[trigger] partner(t, k) >= p
}

/// Open group `j` of the stack as the token list holds it: a group that is
/// user syntax or a scope has its open token (with no distance yet); a
/// group that gets tokens only when it closes will have them inserted at an
/// operand position; no closed group crosses its start; its last infix
/// operator is in its own level.
pub open spec fn entry_ok(t: Seq<Token>, s: Seq<OpenExpression>, j: int) -> bool {
    let e = s[j];
    let n = t.len() as int;
    &&& e.boundary != ExpressionBoundary::Root
    &&& if spec_is_required(e.boundary) {
        &&& e.open_index < n
        &&& fix(t[e.open_index as int]) == Fixity::Open
        &&& spec_delta(t[e.open_index as int]) == 0
    } else {
        &&& 1 <= e.open_index <= n
        &&& has_right(t[e.open_index - 1])
    }
    &&& no_group_crosses(t, e.open_index as int)
    &&& e.infix matches Some((op, i)) ==> {
        &&& e.open_index <= i < n
        &&& fix(t[i as int]) == Fixity::Infix
        &&& has_precedence(op)
        &&& no_group_crosses(t, i + 1)
    }
}

/// Group `a` was opened before group `b`, which is inside it.
pub open spec fn entry_before(a: OpenExpression, b: OpenExpression) -> bool {
    &&& a.open_index <= b.open_index
    &&& spec_is_required(a.boundary) ==> a.open_index < b.open_index
    &&& a.infix matches Some((_, i)) ==> i < b.open_index
}

/// The stack of open groups, outermost first.
pub open spec fn stack_ordered(s: Seq<OpenExpression>) -> bool {
    forall|j: int, j2: int| 0 <= j < j2 < s.len() ==> #[trigger] entry_before(s[j], s[j2])
}

/// The token list and the open groups form a tree under construction.
pub open spec fn tree_inv(t: Seq<Token>, s: Seq<OpenExpression>) -> bool {
    &&& alternating(t)
    &&& groups_matched(t, s)
    &&& forall|j: int| 0 <= j < s.len() ==> #[trigger] entry_ok(t, s, j)
    &&& stack_ordered(s)
}

/// Two token lists of the same shape: the same fixities and distances.
pub open spec fn same_shape(a: Seq<Token>, b: Seq<Token>) -> bool {
    &&& a.len() == b.len()
    &&& forall|i: int| 0 <= i < a.len() ==> #[trigger] fix(a[i]) == fix(b[i]) && spec_delta(a[i]) == spec_delta(b[i])
}

/// The invariant only depends on the shape of the token list.
pub proof fn lemma_tree_inv_same_shape(a: Seq<Token>, b: Seq<Token>, s: Seq<OpenExpression>)
    requires
        tree_inv(a, s),
        same_shape(a, b),
    ensures
        tree_inv(b, s),
{
    assert forall|k: int| 0 < k < b.len() implies #[trigger] alternates_at(b, k) by {
        assert(alternates_at(a, k));
        assert(fix(a[k]) == fix(b[k]) && fix(a[k - 1]) == fix(b[k - 1]));
    }
    if b.len() >= 1 {
        assert(fix(a[0]) == fix(b[0]));
    }
    assert forall|i: int| 0 <= i < b.len() implies #[trigger] open_matched(b, i) || exists|j: int| #[trigger] is_open_entry(s, j, i) by {
        if !(exists|j: int| #[trigger] is_open_entry(s, j, i)) {
            assert(open_matched(a, i));
            assert(fix(a[i]) == fix(b[i]) && spec_delta(a[i]) == spec_delta(b[i]));
            if fix(a[i]) == Fixity::Open {
                let c = i + spec_delta(a[i]);
                assert(fix(a[c]) == fix(b[c]) && spec_delta(a[c]) == spec_delta(b[c]));
            }
        }
    }
    assert forall|k: int| 0 <= k < b.len() implies #[trigger] close_matched(b, k) by {
        assert(close_matched(a, k));
        assert(fix(a[k]) == fix(b[k]) && spec_delta(a[k]) == spec_delta(b[k]));
        if fix(a[k]) == Fixity::Close {
            let o = k - spec_delta(a[k]);
            assert(fix(a[o]) == fix(b[o]) && spec_delta(a[o]) == spec_delta(b[o]));
        }
    }
    assert forall|i: int, k: int| 0 <= i < b.len() && 0 <= k < b.len() implies #[trigger] nested_in(b, i, k) by {
        assert(nested_in(a, i, k));
        assert(fix(a[i]) == fix(b[i]) && spec_delta(a[i]) == spec_delta(b[i]));
        assert(fix(a[k]) == fix(b[k]) && spec_delta(a[k]) == spec_delta(b[k]));
    }
    assert forall|j: int| 0 <= j < s.len() implies #[trigger] entry_ok(b, s, j) by {
        assert(entry_ok(a, s, j));
        let e = s[j];
        assert forall|k: int| 0 <= k < b.len() && fix(b[k]) == Fixity::Close && k >= e.open_index implies #[trigger] partner(
            b,
            k,
        ) >= e.open_index by {
            assert(fix(a[k]) == fix(b[k]) && spec_delta(a[k]) == spec_delta(b[k]));
            assert(partner(a, k) >= e.open_index);
        }
        if spec_is_required(e.boundary) {
            assert(fix(a[e.open_index as int]) == fix(b[e.open_index as int]));
            assert(spec_delta(a[e.open_index as int]) == spec_delta(b[e.open_index as int]));
        } else {
            assert(fix(a[e.open_index - 1]) == fix(b[e.open_index - 1]));
        }
        if let Some((op, i)) = e.infix {
            assert(fix(a[i as int]) == fix(b[i as int]));
            assert forall|k: int| 0 <= k < b.len() && fix(b[k]) == Fixity::Close && k >= i + 1 implies #[trigger] partner(
                b,
                k,
            ) >= i + 1 by {
                assert(fix(a[k]) == fix(b[k]) && spec_delta(a[k]) == spec_delta(b[k]));
                assert(partner(a, k) >= i + 1);
            }
        }
    }
}

/// Appending a token that is not a group token, in its position.
pub proof fn lemma_push_plain(t: Seq<Token>, s: Seq<OpenExpression>, x: Token)
    requires
        tree_inv(t, s),
        fix(x) != Fixity::Open,
        fix(x) != Fixity::Close,
        t.len() == 0 ==> !has_left(x),
        t.len() > 0 ==> has_left(x) == !has_right(t.last()),
    ensures
        tree_inv(t.push(x), s),
{
    let u = t.push(x);
    let n = t.len() as int;
    assert forall|k: int| 0 < k < u.len() implies #[trigger] alternates_at(u, k) by {
        if k < n {
            assert(alternates_at(t, k));
        }
    }
    assert forall|i: int| 0 <= i < u.len() implies #[trigger] open_matched(u, i) || exists|j: int| #[trigger] is_open_entry(s, j, i) by {
        if i < n && !(exists|j: int| #[trigger] is_open_entry(s, j, i)) {
            assert(open_matched(t, i));
        }
    }
    assert forall|k: int| 0 <= k < u.len() implies #[trigger] close_matched(u, k) by {
        if k < n {
            assert(close_matched(t, k));
        }
    }
    assert forall|i: int, k: int| 0 <= i < u.len() && 0 <= k < u.len() implies #[trigger] nested_in(u, i, k) by {
        if i < n && k < n {
            assert(nested_in(t, i, k));
        } else if i < n && k == n && fix(u[i]) == Fixity::Open {
            assert(open_matched(t, i) || exists|j: int| #[trigger] is_open_entry(s, j, i));
            if !open_matched(t, i) {
                let j = choose|j: int| #[trigger] is_open_entry(s, j, i);
                assert(entry_ok(t, s, j));
            }
        }
    }
    assert forall|j: int| 0 <= j < s.len() implies #[trigger] entry_ok(u, s, j) by {
        assert(entry_ok(t, s, j));
        let e = s[j];
        assert forall|k: int| 0 <= k < u.len() && fix(u[k]) == Fixity::Close && k >= e.open_index implies #[trigger] partner(
            u,
            k,
        ) >= e.open_index by {
            assert(partner(t, k) >= e.open_index);
        }
        if let Some((op, i)) = e.infix {
            assert forall|k: int| 0 <= k < u.len() && fix(u[k]) == Fixity::Close && k >= i + 1 implies #[trigger] partner(
                u,
                k,
            ) >= i + 1 by {
                assert(partner(t, k) >= i + 1);
            }
        }
    }
}

/// Opening a group with its open token (no distance yet) at the end.
pub proof fn lemma_push_open(t: Seq<Token>, s: Seq<OpenExpression>, x: Token, e: OpenExpression)
    requires
        tree_inv(t, s),
        fix(x) == Fixity::Open,
        spec_delta(x) == 0,
        t.len() == 0 ==> s.len() == 0,
        t.len() > 0 ==> has_right(t.last()),
        spec_is_required(e.boundary),
        e.boundary != ExpressionBoundary::Root,
        e.open_index == t.len(),
        e.infix is None,
    ensures
        tree_inv(t.push(x), s.push(e)),
{
    let u = t.push(x);
    let v = s.push(e);
    let n = t.len() as int;
    assert forall|k: int| 0 < k < u.len() implies #[trigger] alternates_at(u, k) by {
        if k < n {
            assert(alternates_at(t, k));
        }
    }
    assert forall|i: int| 0 <= i < u.len() implies #[trigger] open_matched(u, i) || exists|j: int| #[trigger] is_open_entry(v, j, i) by {
        if i == n {
            assert(is_open_entry(v, s.len() as int, i));
        } else if !(exists|j: int| #[trigger] is_open_entry(s, j, i)) {
            assert(open_matched(t, i));
        } else {
            let j = choose|j: int| #[trigger] is_open_entry(s, j, i);
            assert(is_open_entry(v, j, i));
        }
    }
    assert forall|k: int| 0 <= k < u.len() implies #[trigger] close_matched(u, k) by {
        if k < n {
            assert(close_matched(t, k));
        }
    }
    assert forall|i: int, k: int| 0 <= i < u.len() && 0 <= k < u.len() implies #[trigger] nested_in(u, i, k) by {
        if i < n && k < n {
            assert(nested_in(t, i, k));
        } else if i < n && k == n && fix(u[i]) == Fixity::Open {
            assert(open_matched(t, i) || exists|j: int| #[trigger] is_open_entry(s, j, i));
            if !open_matched(t, i) {
                let j = choose|j: int| #[trigger] is_open_entry(s, j, i);
                assert(entry_ok(t, s, j));
            }
        }
    }
    assert forall|j: int| 0 <= j < v.len() implies #[trigger] entry_ok(u, v, j) by {
        if j < s.len() {
            assert(entry_ok(t, s, j));
            let e2 = s[j];
            assert(v[j] == e2);
            assert forall|k: int| 0 <= k < u.len() && fix(u[k]) == Fixity::Close && k >= e2.open_index implies #[trigger] partner(
                u,
                k,
            ) >= e2.open_index by {
                assert(partner(t, k) >= e2.open_index);
            }
            if let Some((op, i)) = e2.infix {
                assert forall|k: int| 0 <= k < u.len() && fix(u[k]) == Fixity::Close && k >= i + 1 implies #[trigger] partner(
                    u,
                    k,
                ) >= i + 1 by {
                    assert(partner(t, k) >= i + 1);
                }
            }
        }
    }
    assert forall|j: int, j2: int| 0 <= j < j2 < v.len() implies #[trigger] entry_before(v[j], v[j2]) by {
        if j2 < s.len() {
            assert(entry_before(s[j], s[j2]));
        } else {
            assert(entry_ok(t, s, j));
        }
    }
}

/// Opening a group that gets its tokens only when it closes, at a position
/// after an operator (the end of the list, or just after an infix operator
/// of the innermost group).
pub proof fn lemma_push_pending(t: Seq<Token>, s: Seq<OpenExpression>, e: OpenExpression)
    requires
        tree_inv(t, s),
        !spec_is_required(e.boundary),
        e.boundary != ExpressionBoundary::Root,
        e.infix is None,
        1 <= e.open_index <= t.len(),
        has_right(t[e.open_index - 1]),
        no_group_crosses(t, e.open_index as int),
        forall|j: int| 0 <= j < s.len() ==> #[trigger] entry_before(s[j], e),
    ensures
        tree_inv(t, s.push(e)),
{
    let v = s.push(e);
    assert forall|i: int| 0 <= i < t.len() implies #[trigger] open_matched(t, i) || exists|j: int| #[trigger] is_open_entry(v, j, i) by {
        if !open_matched(t, i) {
            let j = choose|j: int| #[trigger] is_open_entry(s, j, i);
            assert(is_open_entry(v, j, i));
        }
    }
    assert forall|j: int| 0 <= j < v.len() implies #[trigger] entry_ok(t, v, j) by {
        if j < s.len() {
            assert(entry_ok(t, s, j));
            assert(v[j] == s[j]);
        }
    }
    assert forall|j: int, j2: int| 0 <= j < j2 < v.len() implies #[trigger] entry_before(v[j], v[j2]) by {
        if j2 < s.len() {
            assert(entry_before(s[j], s[j2]));
        }
    }
}

/// The innermost group's last infix operator becomes the one just
/// appended.
pub proof fn lemma_set_infix(t: Seq<Token>, s: Seq<OpenExpression>, e: OpenExpression)
    requires
        tree_inv(t, s),
        s.len() >= 1,
        e.boundary == s.last().boundary,
        e.open_index == s.last().open_index,
        e.infix matches Some((op, i)) && i == t.len() - 1 && fix(t[i as int]) == Fixity::Infix && has_precedence(op),
        s.last().open_index <= t.len() - 1,
    ensures
        tree_inv(t, s.update(s.len() - 1, e)),
{
    let m = s.len() - 1;
    let v = s.update(m, e);
    assert forall|i: int| 0 <= i < t.len() implies #[trigger] open_matched(t, i) || exists|j: int| #[trigger] is_open_entry(v, j, i) by {
        if !open_matched(t, i) {
            let j = choose|j: int| #[trigger] is_open_entry(s, j, i);
            assert(is_open_entry(v, j, i));
        }
    }
    assert forall|j: int| 0 <= j < v.len() implies #[trigger] entry_ok(t, v, j) by {
        assert(entry_ok(t, s, j));
    }
    assert forall|j: int, j2: int| 0 <= j < j2 < v.len() implies #[trigger] entry_before(v[j], v[j2]) by {
        assert(entry_before(s[j], s[j2]));
    }
}

/// Dropping the innermost group when it needs no tokens.
pub proof fn lemma_pop_pending(t: Seq<Token>, s: Seq<OpenExpression>)
    requires
        tree_inv(t, s),
        s.len() >= 1,
        !spec_is_required(s.last().boundary),
    ensures
        tree_inv(t, s.drop_last()),
{
    let v = s.drop_last();
    assert forall|i: int| 0 <= i < t.len() implies #[trigger] open_matched(t, i) || exists|j: int| #[trigger] is_open_entry(v, j, i) by {
        if !open_matched(t, i) {
            let j = choose|j: int| #[trigger] is_open_entry(s, j, i);
            assert(is_open_entry(v, j, i));
        }
    }
    assert forall|j: int| 0 <= j < v.len() implies #[trigger] entry_ok(t, v, j) by {
        assert(entry_ok(t, s, j));
    }
    assert forall|j: int, j2: int| 0 <= j < j2 < v.len() implies #[trigger] entry_before(v[j], v[j2]) by {
        assert(entry_before(s[j], s[j2]));
    }
}

/// Dropping an innermost precedence group that needs no tokens, its infix
/// operator becoming the enclosing group's.
pub proof fn lemma_pop_pending_pass_infix(t: Seq<Token>, s: Seq<OpenExpression>, parent: OpenExpression)
    requires
        tree_inv(t, s),
        s.len() >= 2,
        !spec_is_required(s.last().boundary),
        s.last().infix is Some,
        parent.boundary == s[s.len() - 2].boundary,
        parent.open_index == s[s.len() - 2].open_index,
        parent.infix == s.last().infix,
    ensures
        tree_inv(t, s.drop_last().update(s.len() - 2, parent)),
{
    let m = s.len() - 1;
    lemma_pop_pending(t, s);
    let w = s.drop_last();
    let v = w.update(m - 1, parent);
    assert(entry_ok(t, s, m));
    assert(entry_before(s[m - 1], s[m]));
    assert forall|i: int| 0 <= i < t.len() implies #[trigger] open_matched(t, i) || exists|j: int| #[trigger] is_open_entry(v, j, i) by {
        if !open_matched(t, i) {
            let j = choose|j: int| #[trigger] is_open_entry(w, j, i);
            assert(is_open_entry(v, j, i));
        }
    }
    assert forall|j: int| 0 <= j < v.len() implies #[trigger] entry_ok(t, v, j) by {
        assert(entry_ok(t, w, j));
    }
    assert forall|j: int, j2: int| 0 <= j < j2 < v.len() implies #[trigger] entry_before(v[j], v[j2]) by {
        assert(entry_before(w[j], w[j2]));
    }
}

/// With no group open, the tree under construction is complete.
pub proof fn lemma_complete(t: Seq<Token>)
    requires
        tree_inv(t, Seq::<OpenExpression>::empty()),
        t.len() >= 1,
        !has_right(t.last()),
    ensures
        tree_wf(t),
{
    assert forall|i: int| 0 <= i < t.len() implies #[trigger] open_matched(t, i) by {
        assert(open_matched(t, i) || exists|j: int| #[trigger] is_open_entry(Seq::<OpenExpression>::empty(), j, i));
    }
}

/// Closing the innermost group whose open token is in the list: the open
/// token gets the distance to the close token appended at the end.
pub proof fn lemma_close_required(t: Seq<Token>, s: Seq<OpenExpression>, o: Token, c: Token)
    requires
        tree_inv(t, s),
        s.len() >= 1,
        spec_is_required(s.last().boundary),
        t.len() >= 1,
        !has_right(t.last()),
        fix(o) == Fixity::Open,
        spec_delta(o) == t.len() - s.last().open_index,
        fix(c) == Fixity::Close,
        spec_delta(c) == t.len() - s.last().open_index,
    ensures
        tree_inv(t.update(s.last().open_index as int, o).push(c), s.drop_last()),
{
    let m = s.len() - 1;
    let q = s.last().open_index as int;
    let n = t.len() as int;
    let d = n - q;
    let u = t.update(q, o).push(c);
    let v = s.drop_last();
    assert(entry_ok(t, s, m));
    assert(u.len() == n + 1);
    assert(forall|k: int| 0 <= k < n && k != q ==> #[trigger] u[k] == t[k]);
    assert(fix(u[q]) == fix(t[q]));
    // The open token at q is the only unmatched one a close token could
    // point to, and none does: close tokens point to open tokens with the
    // same (positive) distance.
    assert forall|k: int| 0 <= k < n && fix(t[k]) == Fixity::Close implies #[trigger] partner(t, k) != q && spec_delta(t[k]) >= 1 by {
        assert(close_matched(t, k));
    }
    // Open tokens after q are matched (groups opened after the innermost
    // one are closed).
    assert forall|i: int| q < i < n && fix(t[i]) == Fixity::Open implies #[trigger] open_matched(t, i) by {
        assert(open_matched(t, i) || exists|j: int| #[trigger] is_open_entry(s, j, i));
        if !open_matched(t, i) {
            let j = choose|j: int| #[trigger] is_open_entry(s, j, i);
            if j < m {
                assert(entry_before(s[j], s[m]));
            }
        }
    }
    assert forall|k: int| 0 < k < u.len() implies #[trigger] alternates_at(u, k) by {
        if k < n {
            assert(alternates_at(t, k));
        }
    }
    assert forall|i: int| 0 <= i < u.len() implies #[trigger] open_matched(u, i) || exists|j: int| #[trigger] is_open_entry(v, j, i) by {
        if i == q {
            assert(u[q + d] == c);
        } else if i < n {
            if open_matched(t, i) {
                if fix(t[i]) == Fixity::Open {
                    let e = i + spec_delta(t[i]);
                    assert(close_matched(t, e));
                    assert(e != q);
                }
            } else {
                let j = choose|j: int| #[trigger] is_open_entry(s, j, i);
                assert(j != m);
                assert(is_open_entry(v, j, i));
            }
        }
    }
    assert forall|k: int| 0 <= k < u.len() implies #[trigger] close_matched(u, k) by {
        if k < n {
            assert(close_matched(t, k));
            if fix(t[k]) == Fixity::Close {
                assert(partner(t, k) != q);
            }
        } else {
            assert(u[k - d] == o);
        }
    }
    assert forall|i: int, k: int| 0 <= i < u.len() && 0 <= k < u.len() implies #[trigger] nested_in(u, i, k) by {
        if i == q {
            if q < k < n {
                if fix(t[k]) == Fixity::Open {
                    assert(open_matched(t, k));
                } else if fix(t[k]) == Fixity::Close {
                    assert(partner(t, k) >= q);
                    assert(partner(t, k) != q);
                }
            }
        } else if i < n && fix(t[i]) == Fixity::Open {
            assert(open_matched(t, i) || exists|j: int| #[trigger] is_open_entry(s, j, i));
            if open_matched(t, i) {
                let e = i + spec_delta(t[i]);
                assert(fix(t[e]) == Fixity::Close);
                assert(spec_delta(t[e]) == spec_delta(t[i]));
                if i < q && q < e {
                    assert(partner(t, e) >= q);
                }
                if k < n && k != q {
                    assert(nested_in(t, i, k));
                }
            } else {
                let j = choose|j: int| #[trigger] is_open_entry(s, j, i);
                assert(entry_ok(t, s, j));
            }
        }
    }
    assert forall|j: int| 0 <= j < v.len() implies #[trigger] entry_ok(u, v, j) by {
        assert(entry_ok(t, s, j));
        assert(entry_before(s[j], s[m]));
        let e = s[j];
        assert(v[j] == e);
        assert forall|k: int| 0 <= k < u.len() && fix(u[k]) == Fixity::Close && k >= e.open_index implies #[trigger] partner(
            u,
            k,
        ) >= e.open_index by {
            if k < n {
                assert(partner(t, k) >= e.open_index);
            }
        }
        if let Some((op, i)) = e.infix {
            assert forall|k: int| 0 <= k < u.len() && fix(u[k]) == Fixity::Close && k >= i + 1 implies #[trigger] partner(
                u,
                k,
            ) >= i + 1 by {
                if k < n {
                    assert(partner(t, k) >= i + 1);
                }
            }
        }
    }
    assert forall|j: int, j2: int| 0 <= j < j2 < v.len() implies #[trigger] entry_before(v[j], v[j2]) by {
        assert(entry_before(s[j], s[j2]));
    }
}

/// Closing the innermost group that has no tokens yet: its open token is
/// inserted where it started and its close token appended at the end.
pub proof fn lemma_close_pending(t: Seq<Token>, s: Seq<OpenExpression>, o: Token, c: Token)
    requires
        tree_inv(t, s),
        s.len() >= 1,
        !spec_is_required(s.last().boundary),
        t.len() >= 1,
        !has_right(t.last()),
        fix(o) == Fixity::Open,
        spec_delta(o) == t.len() + 1 - s.last().open_index,
        fix(c) == Fixity::Close,
        spec_delta(c) == t.len() + 1 - s.last().open_index,
    ensures
        tree_inv(t.insert(s.last().open_index as int, o).push(c), s.drop_last()),
{
    let m = s.len() - 1;
    let p = s.last().open_index as int;
    let n = t.len() as int;
    let d = n + 1 - p;
    let u = t.insert(p, o).push(c);
    let v = s.drop_last();
    assert(entry_ok(t, s, m));
    assert(p < n);
    assert(u.len() == n + 2);
    assert(forall|k: int| 0 <= k < p ==> #[trigger] u[k] == t[k]);
    assert(forall|k: int| p < k <= n ==> #[trigger] u[k] == t[k - 1]);
    assert(u[p] == o && u[n + 1] == c);
    // Every close token points back to an open token with the same
    // positive distance; those from p on point to p or later.
    assert forall|k: int| 0 <= k < n && fix(t[k]) == Fixity::Close implies spec_delta(#[trigger] t[k]) >= 1 && (k >= p
        ==> partner(t, k) >= p) by {
        assert(close_matched(t, k));
    }
    // Open tokens at p or later are matched, and their groups end before n.
    assert forall|i: int| p <= i < n && fix(t[i]) == Fixity::Open implies #[trigger] open_matched(t, i) by {
        assert(open_matched(t, i) || exists|j: int| #[trigger] is_open_entry(s, j, i));
        if !open_matched(t, i) {
            let j = choose|j: int| #[trigger] is_open_entry(s, j, i);
            if j < m {
                assert(entry_before(s[j], s[m]));
            }
        }
    }
    // Groups opened before p end before p.
    assert forall|i: int| 0 <= i < p && fix(t[i]) == Fixity::Open && #[trigger] open_matched(t, i) && spec_delta(t[i]) > 0
        implies i + spec_delta(t[i]) < p by {
        let e = i + spec_delta(t[i]);
        if e >= p {
            assert(partner(t, e) >= p);
        }
    }
    assert forall|k: int| 0 < k < u.len() implies #[trigger] alternates_at(u, k) by {
        if k < p {
            assert(alternates_at(t, k));
        } else if k == p + 1 {
            if p >= 1 {
                assert(alternates_at(t, p));
            }
        } else if p + 1 < k <= n {
            assert(alternates_at(t, k - 1));
        }
    }
    assert forall|i: int| 0 <= i < u.len() implies #[trigger] open_matched(u, i) || exists|j: int| #[trigger] is_open_entry(v, j, i) by {
        if i < p {
            if open_matched(t, i) {
                if fix(t[i]) == Fixity::Open && spec_delta(t[i]) == 0 {
                    assert(false);
                }
            } else {
                let j = choose|j: int| #[trigger] is_open_entry(s, j, i);
                assert(is_open_entry(v, j, i));
            }
        } else if p < i <= n {
            if fix(t[i - 1]) == Fixity::Open {
                assert(open_matched(t, i - 1));
            }
        }
    }
    assert forall|k: int| 0 <= k < u.len() implies #[trigger] close_matched(u, k) by {
        if k < p {
            assert(close_matched(t, k));
            if fix(t[k]) == Fixity::Close {
                assert(partner(t, k) < p);
            }
        } else if p < k <= n {
            assert(close_matched(t, k - 1));
            if fix(t[k - 1]) == Fixity::Close {
                assert(partner(t, k - 1) >= p);
            }
        }
    }
    assert forall|i: int, k: int| 0 <= i < u.len() && 0 <= k < u.len() implies #[trigger] nested_in(u, i, k) by {
        if i == p {
            if p < k <= n {
                if fix(t[k - 1]) == Fixity::Open {
                    assert(open_matched(t, k - 1));
                } else if fix(t[k - 1]) == Fixity::Close {
                    assert(partner(t, k - 1) >= p);
                }
            }
        } else if i < p && fix(t[i]) == Fixity::Open {
            assert(open_matched(t, i) || exists|j: int| #[trigger] is_open_entry(s, j, i));
            if open_matched(t, i) && spec_delta(t[i]) > 0 {
                assert(i + spec_delta(t[i]) < p);
                if k < p {
                    assert(nested_in(t, i, k));
                }
            } else if !open_matched(t, i) {
                let j = choose|j: int| #[trigger] is_open_entry(s, j, i);
                assert(entry_ok(t, s, j));
            }
        } else if p < i <= n && fix(t[i - 1]) == Fixity::Open {
            assert(open_matched(t, i - 1));
            if p < k <= n {
                assert(nested_in(t, i - 1, k - 1));
            }
        }
    }
    assert forall|j: int| 0 <= j < v.len() implies #[trigger] entry_ok(u, v, j) by {
        assert(entry_ok(t, s, j));
        assert(entry_before(s[j], s[m]));
        let e = s[j];
        assert(v[j] == e);
        assert forall|k: int| 0 <= k < u.len() && fix(u[k]) == Fixity::Close && k >= e.open_index implies #[trigger] partner(
            u,
            k,
        ) >= e.open_index by {
            if k < p {
                assert(partner(t, k) >= e.open_index);
            } else if p < k <= n {
                assert(partner(t, k - 1) >= p);
            }
        }
        if let Some((op, i)) = e.infix {
            assert forall|k: int| 0 <= k < u.len() && fix(u[k]) == Fixity::Close && k >= i + 1 implies #[trigger] partner(
                u,
                k,
            ) >= i + 1 by {
                if k < p {
                    assert(partner(t, k) >= i + 1);
                } else if p < k <= n {
                    assert(partner(t, k - 1) >= p);
                }
            }
        }
    }
    assert forall|j: int, j2: int| 0 <= j < j2 < v.len() implies #[trigger] entry_before(v[j], v[j2]) by {
        assert(entry_before(s[j], s[j2]));
    }
}

/// The kinds of the open groups other than precedence groups, outermost
/// first.
pub open spec fn kinds(s: Seq<OpenExpression>) -> Seq<ExpressionBoundary>
    decreases s.len(),
{
    if s.len() == 0 {
        Seq::<ExpressionBoundary>::empty()
    } else if s.last().boundary == ExpressionBoundary::PrecedenceGroup {
        kinds(s.drop_last())
    } else {
        kinds(s.drop_last()).push(s.last().boundary)
    }
}

/// Stacks with the same kinds of groups have the same kinds.
pub proof fn lemma_kinds_same_boundaries(s: Seq<OpenExpression>, t: Seq<OpenExpression>)
    requires
        s.len() == t.len(),
        forall|i: int| 0 <= i < s.len() ==> (#[trigger] s[i]).boundary == t[i].boundary,
    ensures
        kinds(s) == kinds(t),
    decreases s.len(),
{
    if s.len() > 0 {
        lemma_kinds_same_boundaries(s.drop_last(), t.drop_last());
    }
}

/// Pushing a group adds its kind, unless it is a precedence group.
pub proof fn lemma_kinds_push(s: Seq<OpenExpression>, e: OpenExpression)
    ensures
        kinds(s.push(e)) == if e.boundary == ExpressionBoundary::PrecedenceGroup {
            kinds(s)
        } else {
            kinds(s).push(e.boundary)
        },
{
    assert(s.push(e).drop_last() =~= s);
}

/// A close token of kind `b` closes an open group of its kind: the
/// innermost one, with only groups of lower kinds inside it.
pub open spec fn closable(s: Seq<OpenExpression>, b: ExpressionBoundary) -> bool {
    exists|j: int|
        0 <= j < s.len() && (#[trigger] s[j]).boundary == b && forall|k: int|
            j < k < s.len() ==> boundary_rank((#[trigger] s[k]).boundary) < boundary_rank(b)
}

/// The kinds left when the innermost group of kind `b` and everything
/// inside it close.
pub open spec fn pop_to(k: Seq<ExpressionBoundary>, b: ExpressionBoundary) -> Seq<ExpressionBoundary>
    decreases k.len(),
{
    if k.len() == 0 {
        k
    } else if k.last() == b {
        k.drop_last()
    } else {
        pop_to(k.drop_last(), b)
    }
}

/// The kinds of open groups the tokenizer keeps: the source, then
/// alternately a compound term and a bracket group (parentheses or braces);
/// every bracket group was opened inside a compound term.
pub open spec fn kinds_shape(k: Seq<ExpressionBoundary>) -> bool {
    &&& k.len() >= 1
    &&& k[0] == ExpressionBoundary::Source
    &&& forall|i: int| 1 <= i < k.len() ==> (#[trigger] k[i] == ExpressionBoundary::CompoundTerm) == (i % 2 == 1)
    &&& forall|i: int|
        1 <= i < k.len() && i % 2 == 0 ==> (#[trigger] k[i] == ExpressionBoundary::Parentheses || k[i]
            == ExpressionBoundary::CurlyBraces)
}

/// The open bracket groups, outermost first.
pub open spec fn brackets(k: Seq<ExpressionBoundary>) -> Seq<ExpressionBoundary> {
    Seq::new(((k.len() - 1) / 2) as nat, |m: int| k[2 * m + 2])
}

/// A close bracket of kind `b` has an open bracket to close: `)` closes the
/// innermost bracket, which must be `(`; `}` closes the innermost `{` and
/// any `(` inside it.
pub open spec fn close_ok(st: Seq<ExpressionBoundary>, b: ExpressionBoundary) -> bool {
    if b == ExpressionBoundary::Parentheses {
        st.len() > 0 && st.last() == ExpressionBoundary::Parentheses
    } else {
        st.contains(ExpressionBoundary::CurlyBraces)
    }
}

/// Walking down the kinds from the innermost, a group of kind `b` comes
/// before any group of a kind at least as high.
pub open spec fn closable_kinds(k: Seq<ExpressionBoundary>, b: ExpressionBoundary) -> bool
    decreases k.len(),
{
    k.len() > 0 && (k.last() == b || (boundary_rank(k.last()) < boundary_rank(b) && closable_kinds(k.drop_last(), b)))
}

/// The innermost group of kind `b` can close when the kinds say so.
pub proof fn lemma_closable_from_kinds(s: Seq<OpenExpression>, b: ExpressionBoundary)
    requires
        closable_kinds(kinds(s), b),
        b != ExpressionBoundary::PrecedenceGroup,
    ensures
        closable(s, b),
    decreases s.len(),
{
    if s.len() > 0 {
        let w = s.drop_last();
        lemma_kinds_push(w, s.last());
        assert(w.push(s.last()) =~= s);
        if s.last().boundary == ExpressionBoundary::PrecedenceGroup {
            lemma_closable_from_kinds(w, b);
        } else if s.last().boundary == b {
            assert(s[s.len() - 1].boundary == b);
        } else {
            let k = kinds(w);
            assert(k.push(s.last().boundary).drop_last() =~= k);
            lemma_closable_from_kinds(w, b);
        }
        if s.last().boundary != b {
            let j = choose|j: int|
                0 <= j < w.len() && (#[trigger] w[j]).boundary == b && forall|k: int|
                    j < k < w.len() ==> boundary_rank((#[trigger] w[k]).boundary) < boundary_rank(b);
            assert(s[j] == w[j]);
            assert forall|k: int| j < k < s.len() implies boundary_rank((#[trigger] s[k]).boundary) < boundary_rank(b) by {
                if k < w.len() {
                    assert(s[k] == w[k]);
                }
            }
        }
    } else {
        assert(kinds(s).len() == 0);
    }
}

/// Closing a bracket group that `close_ok` allows: it is closable, and
/// afterwards the kinds keep their shape and the brackets are those left
/// when it closes.
pub proof fn lemma_shape_close(k: Seq<ExpressionBoundary>, b: ExpressionBoundary)
    requires
        kinds_shape(k),
        k.len() % 2 == 1,
        b == ExpressionBoundary::Parentheses || b == ExpressionBoundary::CurlyBraces,
        close_ok(brackets(k), b),
    ensures
        closable_kinds(k, b),
        kinds_shape(pop_to(k, b)),
        pop_to(k, b).len() % 2 == 0,
        brackets(pop_to(k, b)) == pop_to(brackets(k), b),
    decreases k.len(),
{
    let st = brackets(k);
    let n = k.len() as int;
    assert(st.len() >= 1) by {
        if b == ExpressionBoundary::CurlyBraces {
            let m = choose|m: int| 0 <= m < st.len() && st[m] == ExpressionBoundary::CurlyBraces;
        }
    }
    assert(n >= 3);
    assert(st.last() == k[n - 1]);
    let k1 = k.drop_last();
    assert(brackets(k1) =~= st.drop_last());
    if k[n - 1] == b {
        assert(pop_to(k, b) == k1);
        assert(pop_to(st, b) == st.drop_last());
    } else {
        let k2 = k1.drop_last();
        assert(k1.last() == ExpressionBoundary::CompoundTerm);
        assert(brackets(k2) =~= st.drop_last());
        assert(kinds_shape(k2));
        assert(close_ok(brackets(k2), b)) by {
            let m = choose|m: int| 0 <= m < st.len() && st[m] == ExpressionBoundary::CurlyBraces;
            assert(m < st.len() - 1);
            assert(brackets(k2)[m] == st[m]);
        }
        lemma_shape_close(k2, b);
        assert(k1.drop_last() == k2);
        assert(closable_kinds(k1, b));
        assert(pop_to(k, b) == pop_to(k1, b));
        assert(pop_to(k1, b) == pop_to(k2, b));
        assert(pop_to(st, b) == pop_to(st.drop_last(), b));
    }
}

/// The source's group closes last: every other open group is of a lower
/// kind.
pub proof fn lemma_shape_source(k: Seq<ExpressionBoundary>)
    requires
        kinds_shape(k),
    ensures
        closable_kinds(k, ExpressionBoundary::Source),
        pop_to(k, ExpressionBoundary::Source).len() == 0,
    decreases k.len(),
{
    if k.len() > 1 {
        let k1 = k.drop_last();
        assert(kinds_shape(k1));
        lemma_shape_source(k1);
        assert(k.last() != ExpressionBoundary::Source);
    } else {
        assert(k.last() == ExpressionBoundary::Source);
    }
}

/// With nothing yet, the tree under construction is empty.
pub proof fn lemma_tree_inv_empty()
    ensures
        tree_inv(Seq::<Token>::empty(), Seq::<OpenExpression>::empty()),
{
}

} // verus!
