//! How an AST lays out its source, and why the reconstruction gives the
//! source back.
//!
//! An AST lays out a source when its nonempty tokens, whitespace runs and
//! comments each spell the bytes where they stand, in order and apart from
//! each other, and every byte that none of them covers is a line ending
//! where a line starts right after it and a space elsewhere. Walking such
//! an AST, the reconstruction produces exactly the source.
use crate::ast::Ast;
use crate::char_data::CharData;
use crate::interner::interned;
use crate::sequencer::char_data_spells;
use crate::source_reconstruction::{
    Cursor, find_comment, find_token, lemma_flatten_cons, find_whitespace_start, skip_empty_tokens, skip_line_starts, spec_original_bytes,
    spec_pieces, spec_reconstruction_pieces, spec_start, spec_step, whole_source,
};
use vstd::prelude::*;
use vstd::utf8::*;

verus! {

/// Where token `k` starts.
pub open spec fn tok_start(ast: &Ast, k: int) -> int {
    ast.token_ranges@[k].start as int
}

/// Where token `k` ends.
pub open spec fn tok_end(ast: &Ast, k: int) -> int {
    ast.token_ranges@[k].end as int
}

/// Token `k` stands for some bytes of the source.
pub open spec fn tok_nonempty(ast: &Ast, k: int) -> bool {
    tok_start(ast, k) < tok_end(ast, k)
}

/// Where whitespace run `w` of `cd` starts.
pub open spec fn ws_run_start(cd: CharData, w: int) -> int {
    cd.whitespace_ranges@[w].1 as int
}

/// Where whitespace run `w` of `cd` ends.
pub open spec fn ws_run_end(cd: CharData, w: int) -> int {
    let id = cd.whitespace_ranges@[w].0 as int;
    ws_run_start(cd, w) + encode_utf8(interned(&cd.whitespace_characters)[id]).len()
}

/// Where comment `c` of `cd` starts.
pub open spec fn comment_start(cd: CharData, c: int) -> int {
    cd.comments@[c].1 as int
}

/// Where comment `c` of `cd` ends.
pub open spec fn comment_end(cd: CharData, c: int) -> int {
    comment_start(cd, c) + cd.comments@[c].0@.len()
}

/// Where whitespace run `w` of the AST starts.
pub open spec fn ws_start(ast: &Ast, w: int) -> int {
    ws_run_start(ast.char_data, w)
}

/// Where whitespace run `w` of the AST ends.
pub open spec fn ws_end(ast: &Ast, w: int) -> int {
    ws_run_end(ast.char_data, w)
}

/// Where comment `c` of the AST starts.
pub open spec fn cm_start(ast: &Ast, c: int) -> int {
    comment_start(ast.char_data, c)
}

/// Where comment `c` of the AST ends.
pub open spec fn cm_end(ast: &Ast, c: int) -> int {
    comment_end(ast.char_data, c)
}

/// Two stretches of bytes do not overlap.
pub open spec fn apart(s1: int, e1: int, s2: int, e2: int) -> bool {
    e1 <= s2 || e2 <= s1
}

/// A nonempty token, whitespace run or comment covers byte `i`.
pub open spec fn covered(ast: &Ast, i: int) -> bool {
    ||| exists|k: int|
        0 <= k < ast.token_ranges@.len() && tok_nonempty(ast, k) && tok_start(ast, k) <= i < #[trigger] tok_end(ast, k)
    ||| exists|w: int| 0 <= w < ast.char_data.whitespace_ranges@.len() && ws_start(ast, w) <= i < #[trigger] ws_end(ast, w)
    ||| exists|c: int| 0 <= c < ast.char_data.comments@.len() && cm_start(ast, c) <= i < #[trigger] cm_end(ast, c)
}

/// The byte standing at `i` when nothing covers it: a line ending where a
/// line starts right after it, a space elsewhere.
pub open spec fn filler(starts: Seq<usize>, i: int) -> u8 {
    if exists|l: int| 0 <= l < starts.len() && starts[l] == i + 1 {
        10u8
    } else {
        32u8
    }
}

/// The tokens are in source order and each nonempty one spells its bytes.
pub open spec fn tokens_lay_out(ast: &Ast, buf: Seq<u8>) -> bool {
    let n = ast.token_ranges@.len();
    &&& n == ast.tokens@.len()
    &&& forall|k: int| 0 <= k < n ==> tok_start(ast, k) <= #[trigger] tok_end(ast, k) <= buf.len()
    &&& forall|j: int, k: int| 0 <= j < k < n ==> #[trigger] tok_end(ast, j) <= #[trigger] tok_start(ast, k)
    &&& forall|k: int|
        0 <= k < n && tok_nonempty(ast, k) ==> #[trigger] spec_original_bytes(ast, ast.tokens@[k]) == buf.subrange(
            tok_start(ast, k),
            tok_end(ast, k),
        )
}

/// The whitespace runs and comments are nonempty, in source order, and
/// spell their bytes; the line starts increase.
pub open spec fn char_data_lays_out(ast: &Ast, buf: Seq<u8>) -> bool {
    let nw = ast.char_data.whitespace_ranges@.len();
    let nc = ast.char_data.comments@.len();
    let starts = ast.char_data.line_starts@;
    &&& char_data_spells(ast.char_data, buf)
    &&& forall|w: int| 0 <= w < nw ==> ws_start(ast, w) < #[trigger] ws_end(ast, w)
    &&& forall|v: int, w: int| 0 <= v < w < nw ==> #[trigger] ws_end(ast, v) <= #[trigger] ws_start(ast, w)
    &&& forall|c: int| 0 <= c < nc ==> cm_start(ast, c) < #[trigger] cm_end(ast, c)
    &&& forall|b: int, c: int| 0 <= b < c < nc ==> #[trigger] cm_end(ast, b) <= #[trigger] cm_start(ast, c)
    &&& forall|a: int, b: int| 0 <= a < b < starts.len() ==> #[trigger] starts[a] < #[trigger] starts[b]
}

/// Nonempty tokens, whitespace runs and comments do not overlap.
pub open spec fn pieces_apart(ast: &Ast) -> bool {
    let n = ast.token_ranges@.len();
    let nw = ast.char_data.whitespace_ranges@.len();
    let nc = ast.char_data.comments@.len();
    &&& forall|k: int, w: int|
        0 <= k < n && 0 <= w < nw && tok_nonempty(ast, k) ==> apart(
            tok_start(ast, k),
            #[trigger] tok_end(ast, k),
            ws_start(ast, w),
            #[trigger] ws_end(ast, w),
        )
    &&& forall|k: int, c: int|
        0 <= k < n && 0 <= c < nc && tok_nonempty(ast, k) ==> apart(
            tok_start(ast, k),
            #[trigger] tok_end(ast, k),
            cm_start(ast, c),
            #[trigger] cm_end(ast, c),
        )
    &&& forall|w: int, c: int|
        0 <= w < nw && 0 <= c < nc ==> apart(ws_start(ast, w), #[trigger] ws_end(ast, w), cm_start(ast, c), #[trigger] cm_end(ast, c))
}

/// The AST lays out the source `buf` (see the module's documentation).
pub open spec fn lays_out(ast: &Ast, buf: Seq<u8>) -> bool {
    &&& ast.tokens@.len() >= 1
    &&& ast.char_data.size == buf.len()
    &&& tokens_lay_out(ast, buf)
    &&& char_data_lays_out(ast, buf)
    &&& pieces_apart(ast)
    &&& forall|i: int| 0 <= i < buf.len() && !covered(ast, i) ==> #[trigger] buf[i] == filler(ast.char_data.line_starts@, i)
}

/// Where a walk over an AST that lays out the source stands at a byte:
/// what it has passed ends there, and what it has not reached starts there
/// or later.
pub open spec fn walk_at(ast: &Ast, c: Cursor) -> bool {
    let i = c.index;
    let n = ast.token_ranges@.len();
    let nw = ast.char_data.whitespace_ranges@.len();
    let nc = ast.char_data.comments@.len();
    let starts = ast.char_data.line_starts@;
    &&& 0 <= i
    &&& 0 <= c.token <= n
    &&& forall|k: int| 0 <= k < c.token && tok_nonempty(ast, k) ==> #[trigger] tok_end(ast, k) <= i
    &&& forall|k: int| c.token <= k < n && tok_nonempty(ast, k) ==> #[trigger] tok_start(ast, k) >= i
    &&& 0 <= c.whitespace <= nw
    &&& forall|w: int| 0 <= w < c.whitespace ==> #[trigger] ws_end(ast, w) <= i
    &&& forall|w: int| c.whitespace <= w < nw ==> #[trigger] ws_start(ast, w) >= i
    &&& 0 <= c.comment <= nc
    &&& forall|b: int| 0 <= b < c.comment ==> #[trigger] cm_end(ast, b) <= i
    &&& forall|b: int| c.comment <= b < nc ==> #[trigger] cm_start(ast, b) >= i
    &&& 0 <= c.line_start <= starts.len()
    &&& forall|l: int| 0 <= l < c.line_start ==> #[trigger] starts[l] <= i
}

/// Skipping empty tokens passes only empty tokens that start by `index`,
/// and stops at the end, at a token starting after `index` or at a
/// nonempty one.
proof fn lemma_skip_empty_tokens(ast: &Ast, k: int, index: int)
    requires
        0 <= k <= ast.token_ranges@.len(),
    ensures
        k <= skip_empty_tokens(ast.token_ranges@, k, index) <= ast.token_ranges@.len(),
        forall|j: int| k <= j < skip_empty_tokens(ast.token_ranges@, k, index) ==> !tok_nonempty(ast, j) && #[trigger] tok_start(ast, j) <= index,
        skip_empty_tokens(ast.token_ranges@, k, index) < ast.token_ranges@.len() ==> tok_start(
            ast,
            skip_empty_tokens(ast.token_ranges@, k, index),
        ) > index || tok_nonempty(ast, skip_empty_tokens(ast.token_ranges@, k, index)),
    decreases ast.token_ranges@.len() - k,
{
    let r = ast.token_ranges@;
    if !(k >= r.len() || r[k].start > index || r[k].end > r[k].start) {
        lemma_skip_empty_tokens(ast, k + 1, index);
    }
}

/// Skipping line starts passes only those by `index`, and stops at the end
/// or at one after `index`.
proof fn lemma_skip_line_starts(starts: Seq<usize>, l: int, index: int)
    requires
        0 <= l <= starts.len(),
    ensures
        l <= skip_line_starts(starts, l, index) <= starts.len(),
        forall|m: int| l <= m < skip_line_starts(starts, l, index) ==> #[trigger] starts[m] <= index,
        skip_line_starts(starts, l, index) < starts.len() ==> starts[skip_line_starts(starts, l, index)] > index,
    decreases starts.len() - l,
{
    if !(l >= starts.len() || starts[l] > index) {
        lemma_skip_line_starts(starts, l + 1, index);
    }
}

/// Finding the first token passes only empty tokens and tokens that end by
/// `index`.
proof fn lemma_find_token(ast: &Ast, k: int, index: int)
    requires
        0 <= k <= ast.token_ranges@.len(),
    ensures
        k <= find_token(ast.token_ranges@, k, index) <= ast.token_ranges@.len(),
        forall|j: int|
            k <= j < find_token(ast.token_ranges@, k, index) && tok_nonempty(ast, j) ==> #[trigger] tok_end(ast, j) <= index,
    decreases ast.token_ranges@.len() - k,
{
    let r = ast.token_ranges@;
    if !(k < 0 || k >= r.len() || (r[k].end > index && r[k].end > r[k].start)) {
        lemma_find_token(ast, k + 1, index);
    }
}

/// From where a walk stands, the reconstruction gives the rest of the
/// source.
proof fn lemma_walk(ast: &Ast, buf: Seq<u8>, c: Cursor)
    requires
        lays_out(ast, buf),
        walk_at(ast, c),
        c.index <= buf.len(),
    ensures
        spec_pieces(ast, c, buf.len() as int) is Some,
        spec_pieces(ast, c, buf.len() as int).unwrap().flatten() == buf.subrange(c.index, buf.len() as int),
    decreases buf.len() - c.index,
{
    let n = buf.len() as int;
    let i = c.index;
    if i >= n {
        assert(buf.subrange(i, n) =~= Seq::<u8>::empty());
        assert(spec_pieces(ast, c, n).unwrap() =~= Seq::<Seq<u8>>::empty());
        return;
    }
    let r = ast.token_ranges@;
    let nt = r.len() as int;
    let ws = ast.char_data.whitespace_ranges@;
    let nw = ws.len() as int;
    let cms = ast.char_data.comments@;
    let nc = cms.len() as int;
    let starts = ast.char_data.line_starts@;
    let pool = interned(&ast.char_data.whitespace_characters);
    lemma_skip_empty_tokens(ast, c.token, i);
    let k = skip_empty_tokens(r, c.token, i);
    let next = spec_step(ast, c, n).unwrap().1;
    let piece = spec_step(ast, c, n).unwrap().0;
    if 0 <= k < nt && r[k].start <= i {
        // The token at `i`.
        assert(tok_nonempty(ast, k));
        assert(tok_start(ast, k) == i);
        let e = tok_end(ast, k);
        assert(e <= n);
        assert(spec_original_bytes(ast, ast.tokens@[k]) == buf.subrange(i, e));
        assert(piece =~= buf.subrange(i, e));
        assert(next == Cursor { index: e, token: k + 1, ..c });
        assert forall|j: int| 0 <= j < k + 1 && tok_nonempty(ast, j) implies #[trigger] tok_end(ast, j) <= e by {
            if j < c.token {
            } else if j < k {
            }
        }
        assert forall|j: int| k + 1 <= j < nt && tok_nonempty(ast, j) implies #[trigger] tok_start(ast, j) >= e by {
            assert(tok_end(ast, k) <= tok_start(ast, j));
        }
        assert forall|w: int| c.whitespace <= w < nw implies #[trigger] ws_start(ast, w) >= e by {
            assert(ws_start(ast, w) < ws_end(ast, w));
            assert(apart(tok_start(ast, k), tok_end(ast, k), ws_start(ast, w), ws_end(ast, w)));
        }
        assert forall|b: int| c.comment <= b < nc implies #[trigger] cm_start(ast, b) >= e by {
            assert(cm_start(ast, b) < cm_end(ast, b));
            assert(apart(tok_start(ast, k), tok_end(ast, k), cm_start(ast, b), cm_end(ast, b)));
        }
        assert(walk_at(ast, next));
    } else if 0 <= c.whitespace < nw && ws[c.whitespace].1 <= i {
        // The whitespace run at `i`.
        let w = c.whitespace;
        assert(ws_start(ast, w) == i);
        let e = ws_end(ast, w);
        assert(crate::sequencer::whitespace_spells(ws[w], pool, buf));
        assert(piece =~= buf.subrange(i, e));
        assert(next == Cursor { index: e, token: k, whitespace: w + 1, ..c });
        assert forall|j: int| 0 <= j < k && tok_nonempty(ast, j) implies #[trigger] tok_end(ast, j) <= e by {
            if j < c.token {
            }
        }
        assert forall|j: int| k <= j < nt && tok_nonempty(ast, j) implies #[trigger] tok_start(ast, j) >= e by {
            assert(apart(tok_start(ast, j), tok_end(ast, j), ws_start(ast, w), ws_end(ast, w)));
            if j > k {
                assert(tok_end(ast, k) <= tok_start(ast, j));
            }
        }
        assert forall|v: int| 0 <= v < w + 1 implies #[trigger] ws_end(ast, v) <= e by {
            if v < w {
            }
        }
        assert forall|v: int| w + 1 <= v < nw implies #[trigger] ws_start(ast, v) >= e by {
            assert(ws_end(ast, w) <= ws_start(ast, v));
        }
        assert forall|b: int| c.comment <= b < nc implies #[trigger] cm_start(ast, b) >= e by {
            assert(cm_start(ast, b) < cm_end(ast, b));
            assert(apart(ws_start(ast, w), ws_end(ast, w), cm_start(ast, b), cm_end(ast, b)));
        }
        assert(walk_at(ast, next));
    } else if 0 <= c.comment < nc && cms[c.comment].1 <= i {
        // The comment at `i`.
        let b = c.comment;
        assert(cm_start(ast, b) == i);
        let e = cm_end(ast, b);
        assert(crate::sequencer::comment_spells(cms[b], buf));
        assert(piece =~= buf.subrange(i, e));
        assert(next == Cursor { index: e, token: k, comment: b + 1, ..c });
        assert forall|j: int| 0 <= j < k && tok_nonempty(ast, j) implies #[trigger] tok_end(ast, j) <= e by {
            if j < c.token {
            }
        }
        assert forall|j: int| k <= j < nt && tok_nonempty(ast, j) implies #[trigger] tok_start(ast, j) >= e by {
            assert(apart(tok_start(ast, j), tok_end(ast, j), cm_start(ast, b), cm_end(ast, b)));
            if j > k {
                assert(tok_end(ast, k) <= tok_start(ast, j));
            }
        }
        assert forall|w: int| c.whitespace <= w < nw implies #[trigger] ws_start(ast, w) >= e by {
            assert(ws_start(ast, w) < ws_end(ast, w));
            assert(apart(ws_start(ast, w), ws_end(ast, w), cm_start(ast, b), cm_end(ast, b)));
        }
        assert forall|a: int| 0 <= a < b + 1 implies #[trigger] cm_end(ast, a) <= e by {
            if a < b {
            }
        }
        assert forall|a: int| b + 1 <= a < nc implies #[trigger] cm_start(ast, a) >= e by {
            assert(cm_end(ast, b) <= cm_start(ast, a));
        }
        assert(walk_at(ast, next));
    } else {
        // Nothing covers `i`: a line ending or a space.
        assert(!covered(ast, i)) by {
            assert forall|j: int| 0 <= j < nt && tok_nonempty(ast, j) && tok_start(ast, j) <= i implies #[trigger] tok_end(ast, j)
                <= i by {
                if j >= c.token && j >= k {
                    if j > k {
                        assert(tok_end(ast, k) <= tok_start(ast, j));
                    }
                }
            }
            assert forall|w: int| 0 <= w < nw && ws_start(ast, w) <= i implies #[trigger] ws_end(ast, w) <= i by {
                if w > c.whitespace {
                    assert(ws_end(ast, c.whitespace) <= ws_start(ast, w));
                    assert(ws_start(ast, c.whitespace) < ws_end(ast, c.whitespace));
                }
            }
            assert forall|b: int| 0 <= b < nc && cm_start(ast, b) <= i implies #[trigger] cm_end(ast, b) <= i by {
                if b > c.comment {
                    assert(cm_end(ast, c.comment) <= cm_start(ast, b));
                    assert(cm_start(ast, c.comment) < cm_end(ast, c.comment));
                }
            }
        }
        assert(buf[i] == filler(starts, i));
        lemma_skip_line_starts(starts, c.line_start, i);
        let l = skip_line_starts(starts, c.line_start, i);
        let ends_line = 0 <= l < starts.len() && starts[l] == i + 1;
        if exists|m: int| 0 <= m < starts.len() && starts[m] == i + 1 {
            let m = choose|m: int| 0 <= m < starts.len() && starts[m] == i + 1;
            if m < c.line_start {
            } else if m < l {
            } else if m > l {
                assert(starts[l] < starts[m]);
            }
            assert(ends_line);
        } else {
            assert(!ends_line);
        }
        assert(piece =~= buf.subrange(i, i + 1));
        assert(next.index == i + 1);
        assert(next.token == k && next.whitespace == c.whitespace && next.comment == c.comment);
        assert forall|j: int| 0 <= j < k && tok_nonempty(ast, j) implies #[trigger] tok_end(ast, j) <= i + 1 by {
            if j < c.token {
            }
        }
        assert forall|j: int| k <= j < nt && tok_nonempty(ast, j) implies #[trigger] tok_start(ast, j) >= i + 1 by {
            if j > k {
                assert(tok_end(ast, k) <= tok_start(ast, j));
            }
        }
        assert forall|w: int| c.whitespace <= w < nw implies #[trigger] ws_start(ast, w) >= i + 1 by {
            if w > c.whitespace {
                assert(ws_end(ast, c.whitespace) <= ws_start(ast, w));
                assert(ws_start(ast, c.whitespace) < ws_end(ast, c.whitespace));
            }
        }
        assert forall|b: int| c.comment <= b < nc implies #[trigger] cm_start(ast, b) >= i + 1 by {
            if b > c.comment {
                assert(cm_end(ast, c.comment) <= cm_start(ast, b));
                assert(cm_start(ast, c.comment) < cm_end(ast, c.comment));
            }
        }
        assert forall|m: int| 0 <= m < next.line_start implies #[trigger] starts[m] <= i + 1 by {
            if m < c.line_start {
            } else if m < l {
            }
        }
        assert(walk_at(ast, next));
    }
    lemma_walk(ast, buf, next);
    let rest = spec_pieces(ast, next, n).unwrap();
    lemma_flatten_cons(piece, rest);
    assert(buf.subrange(i, next.index) + buf.subrange(next.index, n) =~= buf.subrange(i, n));
}

/// An AST that lays out a source reconstructs it: the pieces of the whole
/// source exist and together are the source's bytes.
pub proof fn law_reconstruction_round_trip(ast: &Ast, buf: Seq<u8>)
    requires
        lays_out(ast, buf),
    ensures
        spec_reconstruction_pieces(ast, whole_source(ast)) is Some,
        spec_reconstruction_pieces(ast, whole_source(ast)).unwrap().flatten() == buf,
{
    let ws = ast.char_data.whitespace_ranges@;
    lemma_find_token(ast, 0, 0);
    assert(find_comment(ast.char_data.comments@, 0, 0) == 0);
    assert(find_whitespace_start(ws, 0, 0) == 0);
    let c = spec_start(ast, 0).unwrap();
    assert(c.whitespace == 0);
    assert(walk_at(ast, c));
    lemma_walk(ast, buf, c);
    assert(buf.subrange(0, buf.len() as int) =~= buf);
}

} // verus!
