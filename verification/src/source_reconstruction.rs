//! Reconstruction of the source from an AST.
//!
//! Beside its tokens, an AST keeps the source's whitespace runs, comments
//! and line starts. The reconstruction walks all four in parallel, and at
//! each byte takes whichever of them covers it (a token first, then a
//! whitespace run, then a comment, then a line ending), or a space where
//! none does.
use crate::ast::Ast;
use crate::indices::{AstIndex, ByteIndex, ByteRange};
use crate::interner::interned;
use crate::token::{ExpressionToken, Token};
use vstd::prelude::*;
use vstd::slice::{slice_subrange, slice_to_vec};
use vstd::string::StringSliceAdditionalSpecFns;
use vstd::utf8::*;

verus! {

/// Where a reconstruction stands: the next byte to produce, and the next
/// token, comment, whitespace run and line start to look at.
pub struct Cursor {
    pub index: int,
    pub token: int,
    pub comment: int,
    pub whitespace: int,
    pub line_start: int,
}

/// The bytes that a token stands for in the source: the source text of an
/// error term, the token's text otherwise.
pub open spec fn spec_original_bytes(ast: &Ast, t: Token) -> Seq<u8> {
    match t {
        Token::Expression(ExpressionToken::RawErrorTerm(_, literal)) => ast.raw_literals@[literal as int]@,
        Token::Expression(ExpressionToken::ErrorTerm(_, literal)) => encode_utf8(interned(&ast.literals)[literal as int]),
        _ => encode_utf8(ast.spec_token_text(t)),
    }
}

/// `bytes`, which start at byte `start` of the source, cover byte `index`.
pub open spec fn covers(bytes: Seq<u8>, start: int, index: int) -> bool {
    start <= index < start + bytes.len()
}

/// The part of `bytes` (which start at byte `start`) from byte `index` on,
/// up to byte `end` at most.
pub open spec fn clip(bytes: Seq<u8>, start: int, index: int, end: int) -> Seq<u8> {
    let from = index - start;
    let to = if bytes.len() < end - start {
        bytes.len() as int
    } else {
        end - start
    };
    bytes.subrange(from, to)
}

/// The first token from `k` on that is not empty or starts after `index`.
pub open spec fn skip_empty_tokens(ranges: Seq<ByteRange>, k: int, index: int) -> int
    decreases ranges.len() - k,
{
    if k < 0 || k >= ranges.len() || ranges[k].start > index || ranges[k].end > ranges[k].start {
        k
    } else {
        skip_empty_tokens(ranges, k + 1, index)
    }
}

/// The first line start from `l` on that comes after `index`.
pub open spec fn skip_line_starts(starts: Seq<ByteIndex>, l: int, index: int) -> int
    decreases starts.len() - l,
{
    if l < 0 || l >= starts.len() || starts[l] > index {
        l
    } else {
        skip_line_starts(starts, l + 1, index)
    }
}

/// The cursor after producing `piece` and moving to the given indices.
pub open spec fn advance(c: Cursor, piece: Seq<u8>, token: int, comment: int, whitespace: int, line_start: int) -> Cursor {
    Cursor { index: c.index + piece.len(), token, comment, whitespace, line_start }
}

/// The next piece from cursor `c`, which stands before `end`, and the
/// cursor after it: the rest of the next nonempty token if it has started,
/// else of the next whitespace run if it has started, else of the next
/// comment if it has started, else a line ending if a line starts at the
/// next byte, else a space. `None` where the token, whitespace run or
/// comment that has started does not reach `c.index` (or a whitespace run
/// names no string of the pool).
pub open spec fn spec_step(ast: &Ast, c: Cursor, end: int) -> Option<(Seq<u8>, Cursor)> {
    let ranges = ast.token_ranges@;
    let k = skip_empty_tokens(ranges, c.token, c.index);
    let ws = ast.char_data.whitespace_ranges@;
    let pool = interned(&ast.char_data.whitespace_characters);
    let comments = ast.char_data.comments@;
    let starts = ast.char_data.line_starts@;
    if 0 <= k < ranges.len() && ranges[k].start <= c.index {
        let bytes = spec_original_bytes(ast, ast.tokens@[k]);
        let start = ranges[k].start as int;
        if covers(bytes, start, c.index) {
            let piece = clip(bytes, start, c.index, end);
            Some((piece, advance(c, piece, k + 1, c.comment, c.whitespace, c.line_start)))
        } else {
            None
        }
    } else if 0 <= c.whitespace < ws.len() && ws[c.whitespace].1 <= c.index {
        let id = ws[c.whitespace].0 as int;
        let start = ws[c.whitespace].1 as int;
        if id < pool.len() && covers(encode_utf8(pool[id]), start, c.index) {
            let piece = clip(encode_utf8(pool[id]), start, c.index, end);
            Some((piece, advance(c, piece, k, c.comment, c.whitespace + 1, c.line_start)))
        } else {
            None
        }
    } else if 0 <= c.comment < comments.len() && comments[c.comment].1 <= c.index {
        let bytes = comments[c.comment].0@;
        let start = comments[c.comment].1 as int;
        if covers(bytes, start, c.index) {
            let piece = clip(bytes, start, c.index, end);
            Some((piece, advance(c, piece, k, c.comment + 1, c.whitespace, c.line_start)))
        } else {
            None
        }
    } else {
        let l = skip_line_starts(starts, c.line_start, c.index);
        if 0 <= l < starts.len() && starts[l] == c.index + 1 {
            Some((seq![10u8], advance(c, seq![10u8], k, c.comment, c.whitespace, l + 1)))
        } else {
            Some((seq![32u8], advance(c, seq![32u8], k, c.comment, c.whitespace, l)))
        }
    }
}

/// The pieces of the reconstruction from cursor `c` up to byte `end`:
/// `None` if some step fails.
pub open spec fn spec_pieces(ast: &Ast, c: Cursor, end: int) -> Option<Seq<Seq<u8>>>
    decreases end - c.index,
{
    if c.index >= end {
        Some(Seq::empty())
    } else {
        match spec_step(ast, c, end) {
            Some((piece, next)) => {
                if piece.len() > 0 && next.index == c.index + piece.len() {
                    match spec_pieces(ast, next, end) {
                        Some(rest) => Some(seq![piece] + rest),
                        None => None,
                    }
                } else {
                    None
                }
            },
            None => None,
        }
    }
}

/// The first token from `k` on that is not empty and ends after `index`.
pub open spec fn find_token(ranges: Seq<ByteRange>, k: int, index: int) -> int
    decreases ranges.len() - k,
{
    if k < 0 || k >= ranges.len() || (ranges[k].end > index && ranges[k].end > ranges[k].start) {
        k
    } else {
        find_token(ranges, k + 1, index)
    }
}

/// The first comment from `k` on that starts at or after `index`.
pub open spec fn find_comment(comments: Seq<(Vec<u8>, ByteIndex)>, k: int, index: int) -> int
    decreases comments.len() - k,
{
    if k < 0 || k >= comments.len() || comments[k].1 >= index {
        k
    } else {
        find_comment(comments, k + 1, index)
    }
}

/// The first whitespace run from `k` on that starts at or after `index`.
pub open spec fn find_whitespace_start(ws: Seq<(usize, ByteIndex)>, k: int, index: int) -> int
    decreases ws.len() - k,
{
    if k < 0 || k >= ws.len() || ws[k].1 >= index {
        k
    } else {
        find_whitespace_start(ws, k + 1, index)
    }
}

/// The whitespace run to start from at `index`: the first one starting at
/// or after it, or the one before that if it reaches `index`. `None` if
/// that one names no string of the pool.
pub open spec fn find_whitespace(ast: &Ast, index: int) -> Option<int> {
    let ws = ast.char_data.whitespace_ranges@;
    let pool = interned(&ast.char_data.whitespace_characters);
    let next = find_whitespace_start(ws, 0, index);
    if next >= ws.len() {
        Some(ws.len() as int)
    } else if next > 0 {
        let id = ws[next - 1].0 as int;
        if id < pool.len() {
            if ws[next - 1].1 + encode_utf8(pool[id]).len() > index {
                Some(next - 1)
            } else {
                Some(next)
            }
        } else {
            None
        }
    } else {
        Some(next)
    }
}

/// The cursor a reconstruction starts from at `index`.
pub open spec fn spec_start(ast: &Ast, index: int) -> Option<Cursor> {
    match find_whitespace(ast, index) {
        Some(whitespace) => Some(
            Cursor {
                index,
                token: find_token(ast.token_ranges@, 0, index),
                comment: find_comment(ast.char_data.comments@, 0, index),
                whitespace,
                line_start: 0,
            },
        ),
        None => None,
    }
}

/// The pieces that reconstruct `range` of the source: `None` where the AST
/// has no tokens or does not cover the range as it should.
pub open spec fn spec_reconstruction_pieces(ast: &Ast, range: ByteRange) -> Option<Seq<Seq<u8>>> {
    if ast.tokens@.len() == 0 {
        None
    } else {
        match spec_start(ast, range.start as int) {
            Some(c) => spec_pieces(ast, c, range.end as int),
            None => None,
        }
    }
}

/// The part of `bytes` (which start at byte `start`) that reconstructs the
/// source from byte `index` up to byte `end` at most.
fn clip_bytes(bytes: &[u8], start: ByteIndex, index: ByteIndex, end: ByteIndex) -> (r: Vec<u8>)
    requires
        covers(bytes@, start as int, index as int),
        index < end,
    ensures
        r@ == clip(bytes@, start as int, index as int, end as int),
        1 <= r@.len() <= end - index,
{
    let from = index - start;
    let to = if bytes.len() < end - start {
        bytes.len()
    } else {
        end - start
    };
    slice_to_vec(slice_subrange(bytes, from, to))
}

/// Walks an AST, producing the pieces that reconstruct a range of its
/// source.
pub struct SourceReconstructionIterator<'p> {
    ast: &'p Ast,
    /// The next byte to produce.
    index: ByteIndex,
    /// The end of the range (exclusive).
    end: ByteIndex,
    /// The next token.
    ast_index: AstIndex,
    /// The next comment.
    comment_index: usize,
    /// The next whitespace run.
    whitespace_index: usize,
    /// The next line start.
    line_start_index: usize,
}

impl<'p> SourceReconstructionIterator<'p> {
    pub closed spec fn cursor(&self) -> Cursor {
        Cursor {
            index: self.index as int,
            token: self.ast_index as int,
            comment: self.comment_index as int,
            whitespace: self.whitespace_index as int,
            line_start: self.line_start_index as int,
        }
    }

    pub closed spec fn ast(&self) -> &'p Ast {
        self.ast
    }

    pub closed spec fn end(&self) -> int {
        self.end as int
    }

    /// The pieces still to come.
    pub closed spec fn pieces(&self) -> Seq<Seq<u8>> {
        spec_pieces(self.ast, self.cursor(), self.end as int).unwrap()
    }

    /// The AST's token texts can be computed, and the pieces still to come
    /// can be produced.
    pub closed spec fn wf(&self) -> bool {
        &&& self.ast.wf()
        &&& self.ast.tokens_refs_valid()
        &&& spec_pieces(self.ast, self.cursor(), self.end as int) is Some
    }

    spec fn token_k(&self) -> int {
        skip_empty_tokens(self.ast.token_ranges@, self.ast_index as int, self.index as int)
    }

    spec fn token_started(&self) -> bool {
        0 <= self.token_k() < self.ast.token_ranges@.len() && self.ast.token_ranges@[self.token_k()].start <= self.index
    }

    spec fn whitespace_started(&self) -> bool {
        let ws = self.ast.char_data.whitespace_ranges@;
        0 <= self.whitespace_index < ws.len() && ws[self.whitespace_index as int].1 <= self.index
    }

    spec fn comment_started(&self) -> bool {
        let comments = self.ast.char_data.comments@;
        0 <= self.comment_index < comments.len() && comments[self.comment_index as int].1 <= self.index
    }

    /// The rest of the next whitespace run, if it has started.
    fn next_whitespace_range(&mut self) -> (r: Option<Vec<u8>>)
        requires
            old(self).wf(),
            old(self).index < old(self).end,
            !old(self).token_started(),
            spec_step(old(self).ast, old(self).cursor(), old(self).end as int) is Some,
        ensures
            final(self).ast == old(self).ast,
            final(self).index == old(self).index,
            final(self).end == old(self).end,
            final(self).ast_index == old(self).ast_index,
            final(self).comment_index == old(self).comment_index,
            final(self).line_start_index == old(self).line_start_index,
            old(self).whitespace_started() ==> {
                let w = old(self).ast.char_data.whitespace_ranges@[old(self).whitespace_index as int];
                let text = interned(&old(self).ast.char_data.whitespace_characters)[w.0 as int];
                &&& r matches Some(v) && v@ == clip(encode_utf8(text), w.1 as int, old(self).index as int, old(self).end as int)
                &&& final(self).whitespace_index == old(self).whitespace_index + 1
            },
            !old(self).whitespace_started() ==> r is None && final(self).whitespace_index == old(self).whitespace_index,
    {
        if self.whitespace_index < self.ast.char_data.whitespace_ranges.len() {
            let (whitespace, start) = self.ast.char_data.whitespace_ranges[self.whitespace_index];
            if start <= self.index {
                self.whitespace_index = self.whitespace_index + 1;
                let text = self.ast.whitespace_string(whitespace);
                return Some(clip_bytes(text.as_bytes(), start, self.index, self.end));
            }
        }
        None
    }

    /// The rest of the next comment, if it has started.
    fn next_comment(&mut self) -> (r: Option<Vec<u8>>)
        requires
            old(self).wf(),
            old(self).index < old(self).end,
            !old(self).token_started(),
            !old(self).whitespace_started(),
            spec_step(old(self).ast, old(self).cursor(), old(self).end as int) is Some,
        ensures
            final(self).ast == old(self).ast,
            final(self).index == old(self).index,
            final(self).end == old(self).end,
            final(self).ast_index == old(self).ast_index,
            final(self).whitespace_index == old(self).whitespace_index,
            final(self).line_start_index == old(self).line_start_index,
            old(self).comment_started() ==> {
                let c = old(self).ast.char_data.comments@[old(self).comment_index as int];
                &&& r matches Some(v) && v@ == clip(c.0@, c.1 as int, old(self).index as int, old(self).end as int)
                &&& final(self).comment_index == old(self).comment_index + 1
            },
            !old(self).comment_started() ==> r is None && final(self).comment_index == old(self).comment_index,
    {
        if self.comment_index < self.ast.char_data.comments.len() {
            let start = self.ast.char_data.comments[self.comment_index].1;
            if start <= self.index {
                let c = self.comment_index;
                self.comment_index = self.comment_index + 1;
                return Some(clip_bytes(self.ast.char_data.comments[c].0.as_slice(), start, self.index, self.end));
            }
        }
        None
    }

    /// A line ending, if a line starts at the next byte.
    fn next_newline(&mut self) -> (r: Option<Vec<u8>>)
        requires
            old(self).index < old(self).end,
        ensures
            final(self).ast == old(self).ast,
            final(self).index == old(self).index,
            final(self).end == old(self).end,
            final(self).ast_index == old(self).ast_index,
            final(self).comment_index == old(self).comment_index,
            final(self).whitespace_index == old(self).whitespace_index,
            ({
                let starts = old(self).ast.char_data.line_starts@;
                let l = skip_line_starts(starts, old(self).line_start_index as int, old(self).index as int);
                if 0 <= l < starts.len() && starts[l] == old(self).index + 1 {
                    r matches Some(v) && v@ == seq![10u8] && final(self).line_start_index == l + 1
                } else {
                    r is None && final(self).line_start_index == l
                }
            }),
    {
        let ghost starts = self.ast.char_data.line_starts@;
        let len = self.ast.char_data.line_starts.len();
        while self.line_start_index < len
            invariant
                self.ast == old(self).ast,
                self.index == old(self).index,
                self.end == old(self).end,
                self.ast_index == old(self).ast_index,
                self.comment_index == old(self).comment_index,
                self.whitespace_index == old(self).whitespace_index,
                self.index < self.end,
                starts == self.ast.char_data.line_starts@,
                len == starts.len(),
                skip_line_starts(starts, self.line_start_index as int, self.index as int) == skip_line_starts(
                    starts,
                    old(self).line_start_index as int,
                    old(self).index as int,
                ),
            decreases len - self.line_start_index,
        {
            let line_start = self.ast.char_data.line_starts[self.line_start_index];
            if line_start > self.index + 1 {
                return None;
            }
            self.line_start_index = self.line_start_index + 1;
            if line_start == self.index + 1 {
                let mut v = Vec::new();
                v.push(10u8);
                return Some(v);
            }
        }
        None
    }

    /// An iterator over the pieces that reconstruct `range`.
    fn new(ast: &'p Ast, range: ByteRange) -> (it: Self)
        requires
            ast.wf(),
            ast.tokens_refs_valid(),
            spec_reconstruction_pieces(ast, range) is Some,
        ensures
            it.wf(),
            it.ast() == ast,
            it.end() == range.end,
            it.pieces() == spec_reconstruction_pieces(ast, range).unwrap(),
    {
        let index = range.start;
        SourceReconstructionIterator {
            ast,
            index,
            end: range.end,
            ast_index: find_ast_index(ast, index),
            comment_index: find_comment_index(ast, index),
            whitespace_index: find_whitespace_index(ast, index),
            line_start_index: 0,
        }
    }

    /// The next piece, if the range is not done: see [`spec_step`].
    fn next(&mut self) -> (r: Option<Vec<u8>>)
        requires
            old(self).wf(),
        ensures
            final(self).wf(),
            final(self).ast == old(self).ast,
            final(self).end == old(self).end,
            old(self).index >= old(self).end ==> r is None && final(self).cursor() == old(self).cursor(),
            old(self).index < old(self).end ==> {
                &&& r is Some
                &&& r.unwrap()@.len() > 0
                &&& old(self).pieces() == seq![r.unwrap()@] + final(self).pieces()
            },
    {
        if self.index >= self.end {
            return None;
        }
        let ghost before = self.cursor();
        proof {
            assert(spec_step(self.ast, before, self.end as int) is Some);
        }
        let piece = match self.next_token() {
            Some(piece) => piece,
            None => match self.next_whitespace_range() {
                Some(piece) => piece,
                None => match self.next_comment() {
                    Some(piece) => piece,
                    None => match self.next_newline() {
                        Some(piece) => piece,
                        None => {
                            let mut space = Vec::new();
                            space.push(32u8);
                            space
                        },
                    },
                },
            },
        };
        self.index = self.index + piece.len();
        proof {
            let step = spec_step(self.ast, before, self.end as int);
            assert(step == Some((piece@, self.cursor())));
        }
        Some(piece)
    }

    /// The rest of the next nonempty token, if it has started.
    fn next_token(&mut self) -> (r: Option<Vec<u8>>)
        requires
            old(self).wf(),
            old(self).index < old(self).end,
            spec_step(old(self).ast, old(self).cursor(), old(self).end as int) is Some,
        ensures
            final(self).ast == old(self).ast,
            final(self).index == old(self).index,
            final(self).end == old(self).end,
            final(self).comment_index == old(self).comment_index,
            final(self).whitespace_index == old(self).whitespace_index,
            final(self).line_start_index == old(self).line_start_index,
            old(self).token_started() ==> {
                let k = old(self).token_k();
                let start = old(self).ast.token_ranges@[k].start as int;
                let bytes = spec_original_bytes(old(self).ast, old(self).ast.tokens@[k]);
                &&& r matches Some(v) && v@ == clip(bytes, start, old(self).index as int, old(self).end as int)
                &&& final(self).ast_index == k + 1
            },
            !old(self).token_started() ==> r is None && final(self).ast_index == old(self).token_k(),
    {
        let ghost ranges = self.ast.token_ranges@;
        let len = self.ast.token_ranges.len();
        while self.ast_index < len
            invariant
                self.ast == old(self).ast,
                self.index == old(self).index,
                self.end == old(self).end,
                self.comment_index == old(self).comment_index,
                self.whitespace_index == old(self).whitespace_index,
                self.line_start_index == old(self).line_start_index,
                ranges == self.ast.token_ranges@,
                len == ranges.len(),
                self.ast.wf(),
                self.ast.tokens_refs_valid(),
                self.index < self.end,
                spec_step(self.ast, old(self).cursor(), self.end as int) is Some,
                skip_empty_tokens(ranges, self.ast_index as int, self.index as int) == old(self).token_k(),
            decreases len - self.ast_index,
        {
            let range = self.ast.token_ranges[self.ast_index];
            if range.start > self.index {
                return None;
            }
            self.ast_index = self.ast_index + 1;
            if range.end > range.start {
                let k = self.ast_index - 1;
                proof {
                    assert(self.ast.token_refs_valid(self.ast.tokens@[k as int]));
                }
                let piece = token_piece(self.ast, k, range.start, self.index, self.end);
                return Some(piece);
            }
        }
        None
    }
}

/// The first token that is not empty and ends after `index` (or the
/// number of tokens).
fn find_ast_index(ast: &Ast, index: ByteIndex) -> (k: AstIndex)
    ensures
        k == find_token(ast.token_ranges@, 0, index as int),
{
    let len = ast.token_ranges.len();
    let mut k: AstIndex = 0;
    while k < len
        invariant
            k <= len,
            len == ast.token_ranges@.len(),
            find_token(ast.token_ranges@, k as int, index as int) == find_token(ast.token_ranges@, 0, index as int),
        decreases len - k,
    {
        let range = ast.token_ranges[k];
        if range.end > index && range.end > range.start {
            return k;
        }
        k = k + 1;
    }
    k
}

/// The first comment that starts at or after `index` (or the number of
/// comments).
fn find_comment_index(ast: &Ast, index: ByteIndex) -> (k: usize)
    ensures
        k == find_comment(ast.char_data.comments@, 0, index as int),
{
    let len = ast.char_data.comments.len();
    let mut k: usize = 0;
    while k < len
        invariant
            k <= len,
            len == ast.char_data.comments@.len(),
            find_comment(ast.char_data.comments@, k as int, index as int) == find_comment(ast.char_data.comments@, 0, index as int),
        decreases len - k,
    {
        if ast.char_data.comments[k].1 >= index {
            return k;
        }
        k = k + 1;
    }
    k
}

/// The whitespace run to start from at `index`: see [`find_whitespace`].
fn find_whitespace_index(ast: &Ast, index: ByteIndex) -> (k: usize)
    requires
        find_whitespace(ast, index as int) is Some,
    ensures
        k == find_whitespace(ast, index as int).unwrap(),
{
    let ghost ws = ast.char_data.whitespace_ranges@;
    let len = ast.char_data.whitespace_ranges.len();
    let mut next: usize = 0;
    while next < len && ast.char_data.whitespace_ranges[next].1 < index
        invariant
            next <= len,
            ws == ast.char_data.whitespace_ranges@,
            len == ws.len(),
            find_whitespace_start(ws, next as int, index as int) == find_whitespace_start(ws, 0, index as int),
        decreases len - next,
    {
        next = next + 1;
    }
    proof {
        assert(next == find_whitespace_start(ws, 0, index as int));
    }
    if next < len && next > 0 {
        let (whitespace, start) = ast.char_data.whitespace_ranges[next - 1];
        let text = ast.whitespace_string(whitespace);
        let text_len = text.as_bytes().len();
        if text_len > index || start > index - text_len {
            return next - 1;
        }
    }
    next
}

/// The rest of token `k` (which starts at byte `start` and covers byte
/// `index`) up to byte `end`.
fn token_piece(ast: &Ast, k: AstIndex, start: ByteIndex, index: ByteIndex, end: ByteIndex) -> (r: Vec<u8>)
    requires
        ast.wf(),
        k < ast.tokens@.len(),
        ast.token_refs_valid(ast.tokens@[k as int]),
        covers(spec_original_bytes(ast, ast.tokens@[k as int]), start as int, index as int),
        index < end,
    ensures
        r@ == clip(spec_original_bytes(ast, ast.tokens@[k as int]), start as int, index as int, end as int),
        1 <= r@.len() <= end - index,
{
    match ast.tokens[k] {
        Token::Expression(ExpressionToken::RawErrorTerm(_, literal)) => {
            clip_bytes(ast.raw_literals[literal].as_slice(), start, index, end)
        },
        Token::Expression(ExpressionToken::ErrorTerm(_, literal)) => {
            clip_bytes(ast.literal_string(literal).as_bytes(), start, index, end)
        },
        _ => {
            let text = ast.token_string(k);
            clip_bytes(text.as_str().as_bytes(), start, index, end)
        },
    }
}

/// Concatenating a first piece and the rest.
pub proof fn lemma_flatten_cons<A>(piece: Seq<A>, rest: Seq<Seq<A>>)
    ensures
        (seq![piece] + rest).flatten() == piece + rest.flatten(),
{
    assert((seq![piece] + rest).drop_first() =~= rest);
}

/// The pieces from a cursor reconstruct exactly the bytes up to `end`.
proof fn lemma_pieces_length(ast: &Ast, c: Cursor, end: int)
    requires
        spec_pieces(ast, c, end) is Some,
        c.index <= end,
    ensures
        spec_pieces(ast, c, end).unwrap().flatten().len() == end - c.index,
    decreases end - c.index,
{
    if c.index < end {
        let (piece, next) = spec_step(ast, c, end).unwrap();
        assert(piece.len() <= end - c.index);
        lemma_pieces_length(ast, next, end);
        lemma_flatten_cons(piece, spec_pieces(ast, next, end).unwrap());
    } else {
        assert(spec_pieces(ast, c, end).unwrap() =~= Seq::<Seq<u8>>::empty());
    }
}

/// The text of bytes as `String::from_utf8_lossy` gives it, with each
/// invalid sequence replaced.
pub uninterp spec fn utf8_lossy(bytes: Seq<u8>) -> Seq<char>;

/// `String::from_utf8_lossy`: its result, named; on valid UTF-8 it is the
/// text the bytes encode.
#[verifier::external_body]
fn lossy_string(bytes: &[u8]) -> (s: String)
    ensures
        s@ == utf8_lossy(bytes@),
        valid_utf8(bytes@) ==> s@ == decode_utf8(bytes@),
{
    String::from_utf8_lossy(bytes).into_owned()
}

/// The text of a sequence of pieces, each read as by
/// `String::from_utf8_lossy`.
pub open spec fn lossy_text(pieces: Seq<Seq<u8>>) -> Seq<char> {
    pieces.map_values(|piece: Seq<u8>| utf8_lossy(piece)).flatten()
}

proof fn lemma_lossy_text_cons(piece: Seq<u8>, rest: Seq<Seq<u8>>)
    ensures
        lossy_text(seq![piece] + rest) == utf8_lossy(piece) + lossy_text(rest),
{
    let f = |p: Seq<u8>| utf8_lossy(p);
    assert((seq![piece] + rest).map_values(f) =~= seq![utf8_lossy(piece)] + rest.map_values(f));
    lemma_flatten_cons(utf8_lossy(piece), rest.map_values(f));
}

/// Reads the bytes that reconstruct a range of the source, as the source
/// itself would read.
pub struct SourceReconstructionReader<'p> {
    iterator: SourceReconstructionIterator<'p>,
    /// What is left of the last piece, when it did not fit in a read.
    buffered: Option<Vec<u8>>,
}

impl<'p> SourceReconstructionReader<'p> {
    /// The bytes still to be read.
    pub closed spec fn remaining(&self) -> Seq<u8> {
        let buffered = match self.buffered {
            Some(v) => v@,
            None => Seq::empty(),
        };
        buffered + self.iterator.pieces().flatten()
    }

    pub closed spec fn wf(&self) -> bool {
        &&& self.iterator.wf()
        &&& self.buffered matches Some(v) ==> v@.len() > 0
    }

    /// A reader of the bytes that reconstruct `range`.
    pub fn new(ast: &'p Ast, range: ByteRange) -> (r: Self)
        requires
            ast.wf(),
            ast.tokens_refs_valid(),
            spec_reconstruction_pieces(ast, range) is Some,
        ensures
            r.wf(),
            r.remaining() == spec_reconstruction_pieces(ast, range).unwrap().flatten(),
    {
        let r = SourceReconstructionReader { iterator: SourceReconstructionIterator::new(ast, range), buffered: None };
        assert(r.remaining() =~= spec_reconstruction_pieces(ast, range).unwrap().flatten());
        r
    }

    /// Reads the next bytes, `max` of them at most (fewer only when no more
    /// remain).
    pub fn read(&mut self, max: usize) -> (bytes: Vec<u8>)
        requires
            old(self).wf(),
        ensures
            final(self).wf(),
            bytes@.len() == if max < old(self).remaining().len() {
                max as int
            } else {
                old(self).remaining().len() as int
            },
            bytes@ == old(self).remaining().take(bytes@.len() as int),
            final(self).remaining() == old(self).remaining().skip(bytes@.len() as int),
    {
        let ghost start = self.remaining();
        let mut out: Vec<u8> = Vec::new();
        while out.len() < max
            invariant
                self.wf(),
                start == old(self).remaining(),
                start == out@ + self.remaining(),
                out@.len() <= max,
            decreases self.remaining().len(),
        {
            let ghost before = self.remaining();
            let mut piece = match self.buffered.take() {
                Some(piece) => piece,
                None => match self.iterator.next() {
                    Some(piece) => {
                        proof {
                            lemma_flatten_cons(piece@, self.iterator.pieces());
                        }
                        piece
                    },
                    None => {
                        assert(self.remaining() =~= Seq::<u8>::empty());
                        assert(start =~= out@);
                        return out;
                    },
                },
            };
            assert(before =~= piece@ + self.iterator.pieces().flatten());
            let room = max - out.len();
            if piece.len() <= room {
                out.append(&mut piece);
            } else {
                let rest = piece.split_off(room);
                out.append(&mut piece);
                self.buffered = Some(rest);
            }
            assert(start =~= out@ + self.remaining());
        }
        assert(out@ =~= start.take(out@.len() as int));
        assert(self.remaining() =~= start.skip(out@.len() as int));
        out
    }
}

/// Reconstructs a range of the source from the parsed AST.
pub struct SourceReconstruction<'p> {
    pub ast: &'p Ast,
    pub range: ByteRange,
}

impl<'p> SourceReconstruction<'p> {
    /// A reconstructor for the given range.
    pub fn new(ast: &'p Ast, range: ByteRange) -> (r: Self)
        ensures
            r.ast == ast,
            r.range == range,
    {
        SourceReconstruction { ast, range }
    }

    /// The bytes of the range, as the source had them.
    pub fn to_bytes(&self) -> (bytes: Vec<u8>)
        requires
            self.ast.wf(),
            self.ast.tokens_refs_valid(),
            self.range.start <= self.range.end,
            spec_reconstruction_pieces(self.ast, self.range) is Some,
        ensures
            bytes@ == spec_reconstruction_pieces(self.ast, self.range).unwrap().flatten(),
            bytes@.len() == self.range.end - self.range.start,
    {
        let size = self.range.end - self.range.start;
        let mut reader = SourceReconstructionReader::new(self.ast, self.range);
        proof {
            lemma_pieces_length(self.ast, spec_start(self.ast, self.range.start as int).unwrap(), self.range.end as int);
        }
        let bytes = reader.read(size);
        assert(bytes@ =~= spec_reconstruction_pieces(self.ast, self.range).unwrap().flatten());
        bytes
    }

    /// The text of the range: each piece of it read as by
    /// `String::from_utf8_lossy`.
    pub fn to_string(&self) -> (s: String)
        requires
            self.ast.wf(),
            self.ast.tokens_refs_valid(),
            spec_reconstruction_pieces(self.ast, self.range) is Some,
        ensures
            s@ == lossy_text(spec_reconstruction_pieces(self.ast, self.range).unwrap()),
    {
        let ghost all = spec_reconstruction_pieces(self.ast, self.range).unwrap();
        let mut iterator = SourceReconstructionIterator::new(self.ast, self.range);
        let mut s = String::new();
        loop
            invariant
                iterator.wf(),
                all == spec_reconstruction_pieces(self.ast, self.range).unwrap(),
                lossy_text(all) == s@ + lossy_text(iterator.pieces()),
            decreases iterator.pieces().len(),
        {
            let ghost before = iterator.pieces();
            match iterator.next() {
                Some(piece) => {
                    proof {
                        lemma_lossy_text_cons(piece@, iterator.pieces());
                    }
                    let text = lossy_string(piece.as_slice());
                    s.append(text.as_str());
                },
                None => {
                    assert(iterator.pieces() =~= Seq::<Seq<u8>>::empty());
                    assert(lossy_text(iterator.pieces()) =~= Seq::<char>::empty());
                    assert(s@ =~= lossy_text(all));
                    return s;
                },
            }
        }
    }
}

/// The whole source of an AST.
pub open spec fn whole_source(ast: &Ast) -> ByteRange {
    ByteRange { start: 0, end: ast.char_data.size }
}

impl Ast {
    /// A reader of the whole source, reconstructed.
    pub fn read_bytes(&self) -> (r: SourceReconstructionReader<'_>)
        requires
            self.wf(),
            self.tokens_refs_valid(),
            spec_reconstruction_pieces(self, whole_source(self)) is Some,
        ensures
            r.wf(),
            r.remaining() == spec_reconstruction_pieces(self, whole_source(self)).unwrap().flatten(),
    {
        SourceReconstructionReader::new(self, ByteRange { start: 0, end: self.char_data.size })
    }

    /// The bytes of the whole source, reconstructed.
    pub fn to_bytes(&self) -> (bytes: Vec<u8>)
        requires
            self.wf(),
            self.tokens_refs_valid(),
            spec_reconstruction_pieces(self, whole_source(self)) is Some,
        ensures
            bytes@ == spec_reconstruction_pieces(self, whole_source(self)).unwrap().flatten(),
            bytes@.len() == self.char_data.size,
    {
        SourceReconstruction::new(self, ByteRange { start: 0, end: self.char_data.size }).to_bytes()
    }

    /// The text of the whole source, reconstructed.
    pub fn to_string(&self) -> (s: String)
        requires
            self.wf(),
            self.tokens_refs_valid(),
            spec_reconstruction_pieces(self, whole_source(self)) is Some,
        ensures
            s@ == lossy_text(spec_reconstruction_pieces(self, whole_source(self)).unwrap()),
    {
        SourceReconstruction::new(self, ByteRange { start: 0, end: self.char_data.size }).to_string()
    }
}

} // verus!
