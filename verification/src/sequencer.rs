//! The first stage of the parser: it chunks the source into runs of
//! characters of one kind (digits, identifier characters, operator
//! characters, space, newlines, unsupported or invalid bytes, and the
//! single-character separators, colons and brackets), records the source
//! data that tokens do not hold (line starts, whitespace, comments), and
//! hands each run to the tokenizer as a token.
use crate::ast::Ast;
use crate::binder::{ast_consistent, ast_grows, fields_named, ranges_within};
use crate::char_data::{CharData, line_starts_wf};
use crate::error_code::ErrorCode;
use crate::identifiers::{IdentifierIndex, WELL_KNOWN_COUNT};
use crate::indices::{ByteIndex, ByteRange, WhitespaceIndex};
use crate::interner::{interned, utf8_str};
use crate::scanner::{
    CharClass, CharType, Scanner, char_len_at, char_type_at, class_has_no_line_end, is_line_end,
    lemma_ascii_valid_utf8, lemma_char_len_positive, lemma_char_valid_utf8, lemma_line_starts_step,
    lemma_run_ascii, lemma_run_end_bounds, lemma_run_no_line_starts, lemma_run_valid_utf8,
    line_starts_after, run_end, spec_line_starts,
};
use crate::token::{ExpressionBoundary, ExpressionToken, OperatorToken, Token};
use crate::tokenizer::{
    Tokenizer, break_emission, lemma_wf_after_pool_change, separator_emission, term_operator_emission, term_token_emission,
};
use crate::grouping::{close_ok, pop_to};
use crate::fixity::Fixity;
use crate::navigation::{fix, tree_wf};
use crate::source_layout::{comment_end, comment_start, ws_run_end, ws_run_start};
use vstd::prelude::*;
use vstd::slice::slice_subrange;
use vstd::string::StrSliceExecFns;
use vstd::utf8::{encode_utf8, valid_utf8};
use vstd::string::StringSliceAdditionalSpecFns;
use crate::binder::bound_form;

verus! {

/// Splits the source into runs and passes them to the tokenizer.
pub struct Sequencer<'p> {
    pub tokenizer: Tokenizer,
    pub scanner: Scanner<'p>,
    /// The indentation of the last non-blank line, in bytes.
    pub current_indent: usize,
    /// The text of that indentation when it is not only spaces.
    pub current_indent_whitespace: Option<WhitespaceIndex>,
}

/// Whether a run of operator characters is an assignment operator: one
/// that ends in a single `=`, other than `>=`, `<=` and `!=`.
pub open spec fn spec_is_assignment_operator(s: Seq<u8>) -> bool {
    let n = s.len();
    &&& n >= 1
    &&& s[n - 1] == 0x3d
    &&& (n < 2 || (s[n - 2] != 0x3d && (n > 2 || !(s[n - 2] == 0x21 || s[n - 2] == 0x3e || s[n - 2] == 0x3c))))
}

/// The first position in `k..n` where `a` and `b` differ, or `default`.
pub open spec fn first_difference(a: Seq<char>, b: Seq<char>, k: int, n: int, default: int) -> int
    decreases n - k,
{
    if k >= n {
        default
    } else if a[k] != b[k] {
        k
    } else {
        first_difference(a, b, k + 1, n, default)
    }
}

/// The first position in `k..n` where `a` holds something other than a
/// space, or `default`.
pub open spec fn first_non_space(a: Seq<char>, k: int, n: int, default: int) -> int
    decreases n - k,
{
    if k >= n {
        default
    } else if a[k] != ' ' {
        k
    } else {
        first_non_space(a, k + 1, n, default)
    }
}

pub open spec fn min(a: int, b: int) -> int {
    if a <= b {
        a
    } else {
        b
    }
}

/// How many characters of a line's indentation match the previous
/// indentation: both are given by their length and, when they hold more
/// than spaces, by their text.
pub open spec fn spec_matching_indent(indent: int, new: Option<Seq<char>>, current: Option<Seq<char>>) -> int {
    match (new, current) {
        (None, None) => indent,
        (Some(a), Some(b)) => first_difference(a, b, 0, min(a.len() as int, b.len() as int), indent),
        (Some(a), None) => first_non_space(a, 0, min(indent, a.len() as int), indent),
        (None, Some(b)) => first_non_space(b, 0, min(indent, b.len() as int), indent),
    }
}

/// Whether, reading the source from byte `i` with the open brackets `st`
/// (outermost first), every close bracket closes an open bracket: `)` the
/// innermost one, which must be `(`, and `}` the innermost `{` (and the
/// `(` inside it). Brackets in comments do not count; open brackets left at
/// the end are allowed.
pub open spec fn brackets_ok_from(buf: Seq<u8>, i: int, st: Seq<ExpressionBoundary>) -> bool
    decreases buf.len() - i,
{
    if 0 <= i < buf.len() && char_len_at(buf, i) > 0 {
        let n = i + char_len_at(buf, i);
        let t = char_type_at(buf, i);
        if t == CharType::OpenParen {
            brackets_ok_from(buf, n, st.push(ExpressionBoundary::Parentheses))
        } else if t == CharType::OpenCurly {
            brackets_ok_from(buf, n, st.push(ExpressionBoundary::CurlyBraces))
        } else if t == CharType::CloseParen {
            close_ok(st, ExpressionBoundary::Parentheses) && brackets_ok_from(
                buf,
                n,
                pop_to(st, ExpressionBoundary::Parentheses),
            )
        } else if t == CharType::CloseCurly {
            close_ok(st, ExpressionBoundary::CurlyBraces) && brackets_ok_from(
                buf,
                n,
                pop_to(st, ExpressionBoundary::CurlyBraces),
            )
        } else if t == CharType::Hash {
            let e = run_end(buf, n, CharClass::LineContent);
            if i < e <= buf.len() {
                brackets_ok_from(buf, e, st)
            } else {
                true
            }
        } else {
            brackets_ok_from(buf, n, st)
        }
    } else {
        true
    }
}

/// Every close bracket of the source closes an open bracket (see
/// `brackets_ok_from`).
pub open spec fn brackets_balanced(buf: Seq<u8>) -> bool {
    brackets_ok_from(buf, 0, Seq::<ExpressionBoundary>::empty())
}

/// Whether a class holds no brackets and no comment starts.
pub open spec fn class_has_no_brackets(class: CharClass) -> bool {
    match class {
        CharClass::Only(u) => !(u == CharType::OpenParen || u == CharType::OpenCurly || u == CharType::CloseParen || u
            == CharType::CloseCurly || u == CharType::Hash),
        CharClass::LineContent => false,
        _ => true,
    }
}

/// A run without brackets or comments changes nothing about the brackets.
pub proof fn lemma_run_no_brackets(buf: Seq<u8>, i: int, class: CharClass, st: Seq<ExpressionBoundary>)
    requires
        0 <= i <= buf.len(),
        class_has_no_brackets(class),
    ensures
        brackets_ok_from(buf, i, st) == brackets_ok_from(buf, run_end(buf, i, class), st),
    decreases buf.len() - i,
{
    if 0 <= i < buf.len() && crate::scanner::in_class(char_type_at(buf, i), class) && char_len_at(buf, i) > 0 {
        lemma_char_len_positive(buf, i);
        lemma_run_no_brackets(buf, i + char_len_at(buf, i), class, st);
    }
}

/// The source is small enough for every index the parser makes to fit.
pub open spec fn fits_limits(len: int) -> bool {
    &&& 12 * len + 24 <= usize::MAX
    &&& len + WELL_KNOWN_COUNT < u32::MAX
}

/// Identifier `i` of the AST's pool is the text whose UTF-8 bytes are
/// `bytes`.
pub open spec fn identifier_is(ast: Ast, i: IdentifierIndex, bytes: Seq<u8>) -> bool {
    &&& (i.0 as int) < interned(&ast.identifiers).len()
    &&& encode_utf8(interned(&ast.identifiers)[i.0 as int]) == bytes
}

/// Literal `l` of the AST's pool is the text whose UTF-8 bytes are `bytes`.
pub open spec fn literal_is(ast: Ast, l: usize, bytes: Seq<u8>) -> bool {
    &&& l < interned(&ast.literals).len()
    &&& encode_utf8(interned(&ast.literals)[l as int]) == bytes
}

/// The last token of the AST came from bytes `start..end`.
pub open spec fn last_range_is(ast: Ast, start: int, end: int) -> bool {
    &&& ast.token_ranges@.len() >= 1
    &&& ast.token_ranges@.last() == ByteRange { start: start as usize, end: end as usize }
}

/// From `old` to `new`, the whitespace runs recorded stay the same
/// (`w` is `None`), or one more is recorded: run `w`, starting at `start`,
/// whose text has the UTF-8 bytes `bytes`.
pub open spec fn whitespace_recorded(old: Ast, new: Ast, start: int, bytes: Seq<u8>, w: Option<WhitespaceIndex>) -> bool {
    match w {
        Some(w) => {
            &&& new.char_data.whitespace_ranges@ == old.char_data.whitespace_ranges@.push((w, start as usize))
            &&& w < interned(&new.char_data.whitespace_characters).len()
            &&& encode_utf8(interned(&new.char_data.whitespace_characters)[w as int]) == bytes
        },
        None => new.char_data.whitespace_ranges@ == old.char_data.whitespace_ranges@,
    }
}

/// Characters that can only start an operand.
pub open spec fn starts_operand(t: CharType) -> bool {
    t == CharType::Digit || t == CharType::Identifier || t == CharType::OpenParen || t == CharType::OpenCurly
        || t == CharType::Unsupported || t == CharType::InvalidUtf8
}

/// Characters that end a line.
pub open spec fn ends_line(t: CharType) -> bool {
    t == CharType::Newline || t == CharType::LineEnding || t == CharType::Eof
}

/// A term ends at byte `e`: whitespace, a close bracket or a separator
/// follows, or a colon that is not followed by an operand.
pub open spec fn term_ends_at(buf: Seq<u8>, e: int) -> bool {
    let t = char_type_at(buf, e);
    ||| t == CharType::Space || t == CharType::HorizontalWhitespace || ends_line(t)
    ||| t == CharType::CloseParen || t == CharType::CloseCurly
    ||| t == CharType::Separator
    ||| t == CharType::Colon && !starts_operand(char_type_at(buf, e + char_len_at(buf, e)))
}

/// The token an operator run `bytes` becomes: postfix when it ends the
/// open term, prefix when it starts a term, otherwise infix (an assignment
/// when it ends in a single `=`, whose operator is the text before it).
pub open spec fn operator_token_is(last: Token, ast: Ast, bytes: Seq<u8>, in_term: bool, ends: bool) -> bool {
    match last {
        Token::Operator(OperatorToken::PostfixOperator(i)) => in_term && ends && identifier_is(ast, i, bytes),
        Token::Expression(ExpressionToken::PrefixOperator(i)) => !in_term && !ends && identifier_is(ast, i, bytes),
        Token::Operator(OperatorToken::InfixAssignment(i)) => in_term != ends && spec_is_assignment_operator(bytes)
            && identifier_is(ast, i, bytes.drop_last()),
        Token::Operator(OperatorToken::InfixOperator(i)) => in_term != ends && !spec_is_assignment_operator(bytes)
            && identifier_is(ast, i, bytes),
        _ => false,
    }
}

/// Whitespace run `w` (its string in `pool`, where it starts) spells the
/// source bytes where it stands.
pub open spec fn whitespace_spells(w: (WhitespaceIndex, ByteIndex), pool: Seq<Seq<char>>, buf: Seq<u8>) -> bool {
    &&& w.0 < pool.len()
    &&& w.1 + encode_utf8(pool[w.0 as int]).len() <= buf.len()
    &&& buf.subrange(w.1 as int, w.1 + encode_utf8(pool[w.0 as int]).len()) == encode_utf8(pool[w.0 as int])
}

/// Comment `c` (its bytes, where it starts) spells the source bytes where
/// it stands.
pub open spec fn comment_spells(c: (Vec<u8>, ByteIndex), buf: Seq<u8>) -> bool {
    &&& c.1 + c.0@.len() <= buf.len()
    &&& buf.subrange(c.1 as int, c.1 + c.0@.len()) == c.0@
}

/// Every whitespace run and comment recorded in `cd` spells the source
/// bytes where it stands.
pub open spec fn char_data_spells(cd: CharData, buf: Seq<u8>) -> bool {
    &&& forall|i: int| 0 <= i < cd.whitespace_ranges@.len() ==> #[trigger] whitespace_spells(
        cd.whitespace_ranges@[i],
        interned(&cd.whitespace_characters),
        buf,
    )
    &&& forall|i: int| 0 <= i < cd.comments@.len() ==> #[trigger] comment_spells(cd.comments@[i], buf)
}

/// The whitespace runs and comments recorded are nonempty, in source order,
/// and end by byte `at`.
pub open spec fn char_data_before(cd: CharData, at: int) -> bool {
    let nw = cd.whitespace_ranges@.len();
    let nc = cd.comments@.len();
    &&& forall|w: int| 0 <= w < nw ==> ws_run_start(cd, w) < #[trigger] ws_run_end(cd, w) <= at
    &&& forall|v: int, w: int| 0 <= v < w < nw ==> #[trigger] ws_run_end(cd, v) <= #[trigger] ws_run_start(cd, w)
    &&& forall|c: int| 0 <= c < nc ==> comment_start(cd, c) < #[trigger] comment_end(cd, c) <= at
    &&& forall|b: int, c: int| 0 <= b < c < nc ==> #[trigger] comment_end(cd, b) <= #[trigger] comment_start(cd, c)
}

/// Recording line starts or growing other pools keeps the whitespace runs
/// and comments as they were.
pub proof fn lemma_char_data_before_kept(old: CharData, new: CharData, a: int, b: int)
    requires
        char_data_before(old, a),
        a <= b,
        new.whitespace_ranges == old.whitespace_ranges,
        new.whitespace_characters == old.whitespace_characters,
        new.comments == old.comments,
    ensures
        char_data_before(new, b),
{
    assert forall|w: int| 0 <= w < new.whitespace_ranges@.len() implies ws_run_start(new, w) < #[trigger] ws_run_end(new, w) <= b by {
        assert(ws_run_end(old, w) == ws_run_end(new, w));
    }
    assert forall|v: int, w: int| 0 <= v < w < new.whitespace_ranges@.len() implies #[trigger] ws_run_end(new, v) <= #[trigger] ws_run_start(new, w) by {
        assert(ws_run_end(old, v) == ws_run_end(new, v));
        assert(ws_run_start(old, w) == ws_run_start(new, w));
    }
    assert forall|c: int| 0 <= c < new.comments@.len() implies comment_start(new, c) < #[trigger] comment_end(new, c) <= b by {
        assert(comment_end(old, c) == comment_end(new, c));
    }
    assert forall|x: int, c: int| 0 <= x < c < new.comments@.len() implies #[trigger] comment_end(new, x) <= #[trigger] comment_start(new, c) by {
        assert(comment_end(old, x) == comment_end(new, x));
        assert(comment_start(old, c) == comment_start(new, c));
    }
}

/// The tokenizer's state and what it handed the grouper are as before.
pub open spec fn tokenizer_state_kept(old: Tokenizer, new: Tokenizer) -> bool {
    &&& new.grouper.received == old.grouper.received
    &&& new.in_term == old.in_term
    &&& new.prev_was_operator == old.prev_was_operator
    &&& new.at_line_start == old.at_line_start
    &&& new.spec_ast().fields == old.spec_ast().fields
}

/// The range from `start` to where the sequencer stands.
pub open spec fn run_range(start: ByteIndex, end: usize) -> ByteRange {
    ByteRange { start, end }
}

impl<'p> Sequencer<'p> {
    pub open spec fn spec_ast(&self) -> Ast {
        self.tokenizer.spec_ast()
    }

    pub open spec fn buf(&self) -> Seq<u8> {
        self.scanner.buffer@
    }

    /// What holds wherever the sequencer stands.
    pub open spec fn wf_core(&self) -> bool {
        let ast = self.spec_ast();
        &&& self.tokenizer.wf()
        &&& self.tokenizer.started()
        &&& self.scanner.wf()
        &&& line_starts_wf(ast.char_data.line_starts@)
        &&& fits_limits(self.buf().len() as int)
        &&& self.current_indent_whitespace matches Some(w) ==> w < interned(&ast.char_data.whitespace_characters).len()
        &&& ranges_within(ast.token_ranges@, self.scanner.index as int)
        &&& char_data_spells(ast.char_data, self.buf())
    }

    /// What holds when the text from byte `at` on is still to be handed on:
    /// the line starts before it are recorded, and the token list and the
    /// identifier pool are within bounds for what was read.
    pub open spec fn wf_at(&self, at: int) -> bool {
        let ast = self.spec_ast();
        &&& self.wf_core()
        &&& 0 <= at <= self.scanner.index
        &&& ast.char_data.line_starts@.last() <= at
        &&& ast.char_data.line_starts@ + line_starts_after(self.buf(), at) == spec_line_starts(self.buf())
        &&& self.tokenizer.budget() <= 12 * at + 12
        &&& interned(&ast.identifiers).len() <= WELL_KNOWN_COUNT + at
        &&& ast.char_data.whitespace_ranges@.len() > 0 ==> ast.char_data.whitespace_ranges@.last().1 < at
        &&& char_data_before(ast.char_data, at)
    }

    pub open spec fn wf(&self) -> bool {
        self.wf_at(self.scanner.index as int)
    }

    /// The brackets read so far allow the rest of the source to close its
    /// brackets, and the tokens so far form a tree under construction.
    pub open spec fn balanced_at(&self, at: int) -> bool {
        &&& brackets_ok_from(self.buf(), at, self.tokenizer.open_brackets())
        &&& self.tokenizer.tree_ok()
    }

    /// The scanner has just read the character of type `t` at `start`, the
    /// first of a run to hand on.
    pub open spec fn step_pre(&self, start: int, t: CharType) -> bool {
        &&& self.wf_at(start)
        &&& 0 <= start < self.buf().len()
        &&& self.scanner.index == start + char_len_at(self.buf(), start)
        &&& char_type_at(self.buf(), start) == t
    }

    /// What a step keeps of the state before it.
    pub open spec fn keeps(&self, old: &Sequencer<'p>) -> bool {
        &&& self.scanner.buffer == old.scanner.buffer
        &&& self.scanner.index >= old.scanner.index
        &&& self.spec_ast().source_open_error == old.spec_ast().source_open_error
        &&& self.spec_ast().char_data.size == old.spec_ast().char_data.size
        &&& interned(&old.spec_ast().identifiers).is_prefix_of(interned(&self.spec_ast().identifiers))
        &&& old.spec_ast().fields@.len() <= self.spec_ast().fields@.len()
        &&& forall|f: int| 0 <= f < old.spec_ast().fields@.len() ==> (#[trigger] self.spec_ast().fields@[f]).name == old.spec_ast().fields@[f].name
    }

    /// A sequencer that has not started: a fresh AST and a scanner at the
    /// start of the source.
    pub open spec fn is_fresh(&self) -> bool {
        let ast = self.spec_ast();
        &&& self.tokenizer.wf()
        &&& !self.tokenizer.started()
        &&& self.tokenizer.budget() == 0
        &&& self.scanner.wf()
        &&& self.scanner.index == 0
        &&& ast.char_data.line_starts@ == seq![0usize]
        &&& ast.char_data.whitespace_ranges@.len() == 0
        &&& ast.char_data.comments@.len() == 0
        &&& interned(&ast.identifiers).len() == WELL_KNOWN_COUNT
        &&& self.current_indent_whitespace is None
        &&& fits_limits(self.buf().len() as int)
        &&& self.tokenizer.tree_ok()
    }

    /// A sequencer over a fresh AST and a source.
    pub fn new(ast: Ast, buffer: &'p [u8]) -> (sequencer: Sequencer<'p>)
        requires
            ast.wf(),
            ast.tokens@.len() == 0,
            ast.blocks@.len() == 0,
            fields_named(&ast),
            interned(&ast.identifiers).len() == WELL_KNOWN_COUNT,
            ast.char_data.line_starts@ == seq![0usize],
            ast.char_data.whitespace_ranges@.len() == 0,
            ast.char_data.comments@.len() == 0,
            fits_limits(buffer@.len() as int),
        ensures
            sequencer.is_fresh(),
            sequencer.scanner.buffer == buffer,
            sequencer.current_indent == 0,
            sequencer.current_indent_whitespace is None,
            !sequencer.tokenizer.in_term,
            sequencer.tokenizer.prev_was_operator,
            sequencer.tokenizer.at_line_start,
            sequencer.spec_ast().tokens@.len() == 0,
            sequencer.spec_ast().fields == ast.fields,
            sequencer.spec_ast().literals == ast.literals,
            sequencer.spec_ast().raw_literals == ast.raw_literals,
            sequencer.spec_ast().source_open_error == ast.source_open_error,
            sequencer.spec_ast().char_data == ast.char_data,
            sequencer.spec_ast().identifiers == ast.identifiers,
    {
        let tokenizer = Tokenizer::new(ast);
        let scanner = Scanner::new(buffer);
        Sequencer { tokenizer, scanner, current_indent: 0, current_indent_whitespace: None }
    }

    pub fn ast(&self) -> (ast: &Ast)
        ensures
            *ast == self.spec_ast(),
    {
        self.tokenizer.ast()
    }

    pub fn ast_mut(&mut self) -> (ast: &mut Ast)
        ensures
            *ast == old(self).spec_ast(),
            final(self).tokenizer.grouper.binder.ast == *final(ast),
            final(self).tokenizer.grouper.binder.open_scopes == old(self).tokenizer.grouper.binder.open_scopes,
            final(self).tokenizer.grouper.binder.scope == old(self).tokenizer.grouper.binder.scope,
            final(self).tokenizer.grouper.open_expressions == old(self).tokenizer.grouper.open_expressions,
            final(self).tokenizer.in_term == old(self).tokenizer.in_term,
            final(self).tokenizer.prev_was_operator == old(self).tokenizer.prev_was_operator,
            final(self).tokenizer.at_line_start == old(self).tokenizer.at_line_start,
            final(self).scanner == old(self).scanner,
            final(self).current_indent == old(self).current_indent,
            final(self).current_indent_whitespace == old(self).current_indent_whitespace,
    {
        &mut self.tokenizer.grouper.binder.ast
    }

    /// Parses the whole source and returns the AST: its tokens, the start
    /// of every line, and the source's size.
    pub fn parse(self) -> (ast: Ast)
        requires
            self.is_fresh(),
        ensures
            ranges_within(ast.token_ranges@, self.buf().len() as int),
            brackets_balanced(self.buf()) ==> tree_wf(ast.tokens@),
            ast.tokens@.len() >= 1,
            fix(ast.tokens@.last()) == Fixity::Close,
            ast_consistent(&ast),
            ast.char_data.size == self.buf().len(),
            ast.char_data.line_starts@ == spec_line_starts(self.buf()),
            ast.source_open_error == self.spec_ast().source_open_error,
            interned(&self.spec_ast().identifiers).is_prefix_of(interned(&ast.identifiers)),
            self.spec_ast().fields@.len() <= ast.fields@.len(),
            forall|f: int| 0 <= f < self.spec_ast().fields@.len() ==> (#[trigger] ast.fields@[f]).name == self.spec_ast().fields@[f].name,
            char_data_spells(ast.char_data, self.buf()),
            char_data_before(ast.char_data, self.buf().len() as int),
            line_starts_wf(ast.char_data.line_starts@),
    {
        let ghost fresh = self;
        let mut s = self;
        let start = s.scanner.index;
        s.tokenizer.on_source_start(start);
        proof {
            assert(s.spec_ast().char_data.line_starts@ + line_starts_after(s.buf(), 0) =~= spec_line_starts(s.buf()));
        }
        s.indent_of_line(start);
        loop
            invariant
                s.wf(),
                s.keeps(&fresh),
                s.scanner.buffer == fresh.scanner.buffer,
                brackets_balanced(fresh.buf()) ==> s.balanced_at(s.scanner.index as int),
            ensures
                s.wf(),
                s.keeps(&fresh),
                s.scanner.index == s.buf().len(),
                brackets_balanced(fresh.buf()) ==> s.balanced_at(s.scanner.index as int),
            decreases s.buf().len() - s.scanner.index,
        {
            let start = s.scanner.index;
            let ghost before = s;
            let char_type = s.scanner.next();
            proof {
                if start < s.buf().len() {
                    lemma_char_len_positive(s.buf(), start as int);
                }
            }
            match char_type {
                CharType::Digit => s.integer(start),
                CharType::Identifier => s.identifier(start),
                CharType::Operator => s.operator(start),
                CharType::Separator => s.separator(start),
                CharType::Colon => s.colon(start),
                CharType::OpenParen => s.bracket(start, ExpressionBoundary::Parentheses, true),
                CharType::CloseParen => s.bracket(start, ExpressionBoundary::Parentheses, false),
                CharType::OpenCurly => s.bracket(start, ExpressionBoundary::CurlyBraces, true),
                CharType::CloseCurly => s.bracket(start, ExpressionBoundary::CurlyBraces, false),
                CharType::Hash => s.comment(start),
                CharType::Newline => s.newline(start),
                CharType::LineEnding => s.line_ending(start),
                CharType::Space => s.space(start),
                CharType::HorizontalWhitespace => s.horizontal_whitespace(start),
                CharType::Unsupported => s.unsupported(start),
                CharType::InvalidUtf8 => s.invalid_utf8(start),
                CharType::Eof => {
                    break;
                },
            }
            proof {
                assert(interned(&fresh.spec_ast().identifiers).is_prefix_of(interned(&s.spec_ast().identifiers))) by {
                    let a = interned(&fresh.spec_ast().identifiers);
                    let b = interned(&before.spec_ast().identifiers);
                    let c = interned(&s.spec_ast().identifiers);
                    assert forall|k: int| 0 <= k < a.len() implies a[k] == c[k] by {
                        assert(a[k] == b[k]);
                    }
                }
                assert forall|f: int| 0 <= f < fresh.spec_ast().fields@.len() implies (#[trigger] s.spec_ast().fields@[f]).name
                    == fresh.spec_ast().fields@[f].name by {
                    assert(before.spec_ast().fields@[f].name == fresh.spec_ast().fields@[f].name);
                }
            }
        }
        let size = s.scanner.index;
        let ghost before_size = s;
        s.tokenizer.grouper.binder.ast.char_data.size = size;
        proof {
            lemma_wf_after_pool_change(&before_size.tokenizer, &s.tokenizer);
            assert(line_starts_after(s.buf(), size as int) =~= Seq::<usize>::empty());
            assert(s.spec_ast().char_data.line_starts@ =~= spec_line_starts(s.buf()));
            let cd = s.spec_ast().char_data;
            let old_cd = before_size.spec_ast().char_data;
            assert forall|i: int| 0 <= i < cd.whitespace_ranges@.len() implies #[trigger] whitespace_spells(
                cd.whitespace_ranges@[i],
                interned(&cd.whitespace_characters),
                s.buf(),
            ) by {
                assert(whitespace_spells(old_cd.whitespace_ranges@[i], interned(&old_cd.whitespace_characters), s.buf()));
            }
            assert forall|i: int| 0 <= i < cd.comments@.len() implies #[trigger] comment_spells(cd.comments@[i], s.buf()) by {
                assert(comment_spells(old_cd.comments@[i], s.buf()));
            }
            lemma_char_data_before_kept(old_cd, cd, size as int, size as int);
        }
        s.tokenizer.on_source_end(size)
    }

    /// The range from `start` to the scanner.
    fn range(&self, start: ByteIndex) -> (r: ByteRange)
        requires
            start <= self.scanner.index,
        ensures
            r.start == start,
            r.end == self.scanner.index,
    {
        ByteRange { start, end: self.scanner.index }
    }

    /// The text from `start` to the scanner.
    fn text(&self, start: ByteIndex) -> (s: &'p str)
        requires
            self.scanner.wf(),
            start <= self.scanner.index,
            valid_utf8(self.buf().subrange(start as int, self.scanner.index as int)),
        ensures
            s.spec_bytes() == self.buf().subrange(start as int, self.scanner.index as int),
    {
        let bytes = slice_subrange(self.scanner.buffer, start, self.scanner.index);
        match utf8_str(bytes) {
            Some(s) => s,
            None => {
                proof {
                    assert(false);
                }
                ""
            },
        }
    }

    /// Interns the text from `start` to the scanner as an identifier.
    fn intern_identifier(&mut self, start: ByteIndex, end: ByteIndex) -> (identifier: IdentifierIndex)
        requires
            old(self).wf_core(),
            start <= end <= old(self).scanner.index,
            valid_utf8(old(self).buf().subrange(start as int, end as int)),
            interned(&old(self).spec_ast().identifiers).len() + 1 < u32::MAX,
        ensures
            tokenizer_state_kept(old(self).tokenizer, final(self).tokenizer),
            final(self).tokenizer.tree_ok() == old(self).tokenizer.tree_ok(),
            final(self).tokenizer.open_brackets() == old(self).tokenizer.open_brackets(),
            final(self).wf_core(),
            identifier_is(final(self).spec_ast(), identifier, old(self).buf().subrange(start as int, end as int)),
            interned(&final(self).spec_ast().identifiers).len() <= interned(&old(self).spec_ast().identifiers).len() + 1,
            interned(&old(self).spec_ast().identifiers).is_prefix_of(interned(&final(self).spec_ast().identifiers)),
            final(self).tokenizer.budget() == old(self).tokenizer.budget(),
            final(self).spec_ast().char_data == old(self).spec_ast().char_data,
            final(self).spec_ast().source_open_error == old(self).spec_ast().source_open_error,
            final(self).spec_ast().literals == old(self).spec_ast().literals,
            final(self).scanner == old(self).scanner,
            final(self).tokenizer.in_term == old(self).tokenizer.in_term,
            final(self).tokenizer.prev_was_operator == old(self).tokenizer.prev_was_operator,
            final(self).current_indent_whitespace == old(self).current_indent_whitespace,
    {
        let bytes = slice_subrange(self.scanner.buffer, start, end);
        let text = match utf8_str(bytes) {
            Some(s) => s,
            None => {
                proof {
                    assert(false);
                }
                ""
            },
        };
        let ghost before = self.tokenizer;
        let identifier = self.tokenizer.grouper.binder.ast.intern_identifier(text);
        proof {
            lemma_wf_after_pool_change(&before, &self.tokenizer);
        }
        identifier
    }

    /// Interns the text from `start` to the scanner as a literal.
    fn intern_literal(&mut self, start: ByteIndex) -> (literal: usize)
        requires
            old(self).wf_core(),
            start <= old(self).scanner.index,
            valid_utf8(old(self).buf().subrange(start as int, old(self).scanner.index as int)),
        ensures
            tokenizer_state_kept(old(self).tokenizer, final(self).tokenizer),
            final(self).tokenizer.tree_ok() == old(self).tokenizer.tree_ok(),
            final(self).tokenizer.open_brackets() == old(self).tokenizer.open_brackets(),
            final(self).wf_core(),
            literal_is(final(self).spec_ast(), literal, old(self).buf().subrange(start as int, old(self).scanner.index as int)),
            final(self).tokenizer.budget() == old(self).tokenizer.budget(),
            final(self).spec_ast().char_data == old(self).spec_ast().char_data,
            final(self).spec_ast().source_open_error == old(self).spec_ast().source_open_error,
            final(self).spec_ast().identifiers == old(self).spec_ast().identifiers,
            final(self).scanner == old(self).scanner,
            final(self).tokenizer.in_term == old(self).tokenizer.in_term,
            final(self).current_indent_whitespace == old(self).current_indent_whitespace,
    {
        let text = self.text(start);
        let ghost before = self.tokenizer;
        let literal = self.tokenizer.grouper.binder.ast.intern_literal(text);
        proof {
            lemma_wf_after_pool_change(&before, &self.tokenizer);
        }
        literal
    }

    /// Records the whitespace from `start` to the scanner in the source
    /// data.
    fn store_whitespace(&mut self, start: ByteIndex) -> (index: WhitespaceIndex)
        requires
            old(self).wf_core(),
            start < old(self).scanner.index,
            old(self).spec_ast().char_data.whitespace_ranges@.len() > 0 ==> old(self).spec_ast().char_data.whitespace_ranges@.last().1 < start,
            valid_utf8(old(self).buf().subrange(start as int, old(self).scanner.index as int)),
            char_data_before(old(self).spec_ast().char_data, start as int),
        ensures
            tokenizer_state_kept(old(self).tokenizer, final(self).tokenizer),
            char_data_before(final(self).spec_ast().char_data, final(self).scanner.index as int),
            final(self).current_indent == old(self).current_indent,
            final(self).tokenizer.tree_ok() == old(self).tokenizer.tree_ok(),
            final(self).tokenizer.open_brackets() == old(self).tokenizer.open_brackets(),
            final(self).wf_core(),
            whitespace_recorded(
                old(self).spec_ast(),
                final(self).spec_ast(),
                start as int,
                old(self).buf().subrange(start as int, old(self).scanner.index as int),
                Some(index),
            ),
            final(self).spec_ast().char_data.comments == old(self).spec_ast().char_data.comments,
            final(self).tokenizer.budget() == old(self).tokenizer.budget(),
            final(self).spec_ast().char_data.line_starts == old(self).spec_ast().char_data.line_starts,
            final(self).spec_ast().char_data.size == old(self).spec_ast().char_data.size,
            final(self).spec_ast().source_open_error == old(self).spec_ast().source_open_error,
            final(self).spec_ast().identifiers == old(self).spec_ast().identifiers,
            final(self).scanner == old(self).scanner,
            final(self).tokenizer.in_term == old(self).tokenizer.in_term,
            final(self).current_indent_whitespace == old(self).current_indent_whitespace,
    {
        let text = self.text(start);
        let ghost before = self.tokenizer;
        let index = self.tokenizer.grouper.binder.ast.char_data.append_whitespace(text, start);
        proof {
            lemma_wf_after_pool_change(&before, &self.tokenizer);
            let old_cd = before.spec_ast().char_data;
            let cd = self.spec_ast().char_data;
            let pool = interned(&cd.whitespace_characters);
            assert forall|i: int| 0 <= i < cd.whitespace_ranges@.len() implies #[trigger] whitespace_spells(
                cd.whitespace_ranges@[i],
                pool,
                self.buf(),
            ) by {
                if i < old_cd.whitespace_ranges@.len() {
                    assert(cd.whitespace_ranges@[i] == old_cd.whitespace_ranges@[i]);
                    assert(whitespace_spells(old_cd.whitespace_ranges@[i], interned(&old_cd.whitespace_characters), self.buf()));
                    let w = cd.whitespace_ranges@[i].0 as int;
                    assert(pool[w] == interned(&old_cd.whitespace_characters)[w]);
                }
            }
            assert forall|i: int| 0 <= i < cd.comments@.len() implies #[trigger] comment_spells(cd.comments@[i], self.buf()) by {
                assert(cd.comments@[i] == old_cd.comments@[i]);
            }
            if let Some(w) = self.current_indent_whitespace {
                assert(interned(&before.spec_ast().char_data.whitespace_characters)[w as int] == interned(
                    &self.spec_ast().char_data.whitespace_characters,
                )[w as int]);
            }
            let at = self.scanner.index as int;
            let nw = old_cd.whitespace_ranges@.len() as int;
            assert forall|v: int| 0 <= v < nw implies #[trigger] ws_run_end(cd, v) == ws_run_end(old_cd, v) by {
                assert(whitespace_spells(old_cd.whitespace_ranges@[v], interned(&old_cd.whitespace_characters), self.buf()));
                assert(cd.whitespace_ranges@[v] == old_cd.whitespace_ranges@[v]);
                let id = cd.whitespace_ranges@[v].0 as int;
                assert(pool[id] == interned(&old_cd.whitespace_characters)[id]);
            }
            assert(ws_run_end(cd, nw) == at);
            assert forall|w: int| 0 <= w < cd.whitespace_ranges@.len() implies ws_run_start(cd, w) < #[trigger] ws_run_end(cd, w) <= at by {
                if w < nw {
                    assert(ws_run_end(old_cd, w) <= start);
                    assert(ws_run_start(cd, w) == ws_run_start(old_cd, w));
                }
            }
            assert forall|v: int, w: int| 0 <= v < w < cd.whitespace_ranges@.len() implies #[trigger] ws_run_end(cd, v)
                <= #[trigger] ws_run_start(cd, w) by {
                assert(ws_run_end(old_cd, v) <= start);
                if w < nw {
                    assert(ws_run_end(old_cd, v) <= ws_run_start(old_cd, w));
                    assert(ws_run_start(cd, w) == ws_run_start(old_cd, w));
                }
            }
            assert forall|c: int| 0 <= c < cd.comments@.len() implies comment_start(cd, c) < #[trigger] comment_end(cd, c) <= at by {
                assert(comment_end(old_cd, c) == comment_end(cd, c));
            }
            assert forall|x: int, c: int| 0 <= x < c < cd.comments@.len() implies #[trigger] comment_end(cd, x)
                <= #[trigger] comment_start(cd, c) by {
                assert(comment_end(old_cd, x) == comment_end(cd, x));
                assert(comment_start(old_cd, c) == comment_start(cd, c));
            }
        }
        index
    }

    /// A run of digits: an integer literal, or an error if identifier
    /// characters follow the digits.
    fn integer(&mut self, start: ByteIndex)
        requires
            old(self).step_pre(start as int, CharType::Digit),
        ensures
            final(self).spec_ast().tokens@.last() matches Token::Expression(e) && final(self).tokenizer.grouper.received@ == old(self).tokenizer.grouper.received@ + term_token_emission(
                old(self).tokenizer,
                e,
                run_range(start, final(self).scanner.index),
            ),
            final(self).scanner.index == run_end(
                old(self).buf(),
                run_end(old(self).buf(), old(self).scanner.index as int, CharClass::Only(CharType::Digit)),
                CharClass::IdentifierChars,
            ),
            last_range_is(final(self).spec_ast(), start as int, final(self).scanner.index as int),
            match final(self).spec_ast().tokens@.last() {
                Token::Expression(ExpressionToken::IntegerLiteral(l)) => final(self).scanner.index == run_end(
                    old(self).buf(),
                    old(self).scanner.index as int,
                    CharClass::Only(CharType::Digit),
                ) && literal_is(final(self).spec_ast(), l, old(self).buf().subrange(start as int, final(self).scanner.index as int)),
                Token::Expression(ExpressionToken::ErrorTerm(code, l)) => final(self).scanner.index > run_end(
                    old(self).buf(),
                    old(self).scanner.index as int,
                    CharClass::Only(CharType::Digit),
                ) && code == ErrorCode::IdentifierStartsWithNumber && literal_is(
                    final(self).spec_ast(),
                    l,
                    old(self).buf().subrange(start as int, final(self).scanner.index as int),
                ),
                _ => false,
            },
            old(self).balanced_at(start as int) ==> final(self).balanced_at(final(self).scanner.index as int),
            final(self).wf(),
            final(self).keeps(old(self)),
    {
        let ghost buf = self.buf();
        let ghost after_first = self.scanner.index as int;
        self.scanner.next_while(CharType::Digit);
        let ghost after_digits = self.scanner.index as int;
        let identifier_follows = self.scanner.next_while_identifier();
        proof {
            lemma_run_end_bounds(buf, after_first, CharClass::Only(CharType::Digit));
            lemma_run_end_bounds(buf, after_digits, CharClass::IdentifierChars);
            lemma_line_starts_step(buf, start as int);
            lemma_run_no_line_starts(buf, after_first, CharClass::Only(CharType::Digit));
            lemma_run_no_brackets(buf, after_first, CharClass::Only(CharType::Digit), self.tokenizer.open_brackets());
            lemma_run_no_line_starts(buf, after_digits, CharClass::IdentifierChars);
            lemma_run_no_brackets(buf, after_digits, CharClass::IdentifierChars, self.tokenizer.open_brackets());
            assert(buf.subrange(start as int, start as int) =~= Seq::<u8>::empty());
            lemma_char_valid_utf8(buf, start as int, start as int);
            lemma_run_valid_utf8(buf, start as int, after_first, CharClass::Only(CharType::Digit));
            lemma_run_valid_utf8(buf, start as int, after_digits, CharClass::IdentifierChars);
        }
        let literal = self.intern_literal(start);
        let token = if identifier_follows {
            ExpressionToken::ErrorTerm(ErrorCode::IdentifierStartsWithNumber, literal)
        } else {
            ExpressionToken::IntegerLiteral(literal)
        };
        let range = self.range(start);
        self.tokenizer.on_term_token(token, range);
    }

    /// A run of identifier characters: an identifier.
    fn identifier(&mut self, start: ByteIndex)
        requires
            old(self).step_pre(start as int, CharType::Identifier),
        ensures
            exists|i: IdentifierIndex|
                #[trigger] identifier_is(final(self).spec_ast(), i, old(self).buf().subrange(start as int, final(self).scanner.index as int))
                    && final(self).tokenizer.grouper.received@ == old(self).tokenizer.grouper.received@ + term_token_emission(
                    old(self).tokenizer,
                    ExpressionToken::RawIdentifier(i),
                    run_range(start, final(self).scanner.index),
                ),
            final(self).scanner.index == run_end(old(self).buf(), old(self).scanner.index as int, CharClass::IdentifierChars),
            last_range_is(final(self).spec_ast(), start as int, final(self).scanner.index as int),
            match final(self).spec_ast().tokens@.last() {
                Token::Expression(ExpressionToken::RawIdentifier(i)) => identifier_is(
                    final(self).spec_ast(),
                    i,
                    old(self).buf().subrange(start as int, final(self).scanner.index as int),
                ),
                Token::Expression(ExpressionToken::FieldReference(f)) => f < final(self).spec_ast().fields@.len()
                    && identifier_is(
                    final(self).spec_ast(),
                    final(self).spec_ast().fields@[f as int].name,
                    old(self).buf().subrange(start as int, final(self).scanner.index as int),
                ),
                _ => false,
            },
            old(self).balanced_at(start as int) ==> final(self).balanced_at(final(self).scanner.index as int),
            final(self).wf(),
            final(self).keeps(old(self)),
    {
        let ghost buf = self.buf();
        let ghost after_first = self.scanner.index as int;
        self.scanner.next_while_identifier();
        proof {
            lemma_run_end_bounds(buf, after_first, CharClass::IdentifierChars);
            lemma_line_starts_step(buf, start as int);
            lemma_run_no_line_starts(buf, after_first, CharClass::IdentifierChars);
            lemma_run_no_brackets(buf, after_first, CharClass::IdentifierChars, self.tokenizer.open_brackets());
            assert(buf.subrange(start as int, start as int) =~= Seq::<u8>::empty());
            lemma_char_valid_utf8(buf, start as int, start as int);
            lemma_run_valid_utf8(buf, start as int, after_first, CharClass::IdentifierChars);
        }
        let end = self.scanner.index;
        let identifier = self.intern_identifier(start, end);
        let range = self.range(start);
        self.tokenizer.on_term_token(ExpressionToken::RawIdentifier(identifier), range);
        proof {
            assert(identifier_is(self.spec_ast(), identifier, buf.subrange(start as int, self.scanner.index as int)));
        }
    }

    /// A run of operator characters: a postfix operator if it ends a term
    /// (`a? + 2`), a prefix operator if it starts one (`+1`), an infix
    /// operator otherwise (`1+2`, `1 + 2`); an infix operator ending in a
    /// single `=` is an assignment.
    fn operator(&mut self, start: ByteIndex)
        requires
            old(self).step_pre(start as int, CharType::Operator),
        ensures
            match final(self).spec_ast().tokens@.last() {
                Token::Operator(op) => final(self).tokenizer.grouper.received@ == old(self).tokenizer.grouper.received@ + if op is PostfixOperator || old(self).tokenizer.in_term {
                    term_operator_emission(old(self).tokenizer, op, run_range(start, final(self).scanner.index))
                } else {
                    separator_emission(old(self).tokenizer, op, run_range(start, final(self).scanner.index))
                },
                Token::Expression(e) => final(self).tokenizer.grouper.received@ == old(self).tokenizer.grouper.received@ + term_token_emission(
                    old(self).tokenizer,
                    e,
                    run_range(start, final(self).scanner.index),
                ),
            },
            final(self).scanner.index == run_end(old(self).buf(), old(self).scanner.index as int, CharClass::Only(CharType::Operator)),
            last_range_is(final(self).spec_ast(), start as int, final(self).scanner.index as int),
            operator_token_is(
                final(self).spec_ast().tokens@.last(),
                final(self).spec_ast(),
                old(self).buf().subrange(start as int, final(self).scanner.index as int),
                old(self).tokenizer.in_term,
                term_ends_at(old(self).buf(), final(self).scanner.index as int),
            ),
            old(self).balanced_at(start as int) ==> final(self).balanced_at(final(self).scanner.index as int),
            final(self).wf(),
            final(self).keeps(old(self)),
    {
        let ghost buf = self.buf();
        let ghost after_first = self.scanner.index as int;
        self.scanner.next_while(CharType::Operator);
        let end = self.scanner.index;
        proof {
            lemma_run_end_bounds(buf, after_first, CharClass::Only(CharType::Operator));
            lemma_line_starts_step(buf, start as int);
            lemma_run_no_line_starts(buf, after_first, CharClass::Only(CharType::Operator));
            lemma_run_no_brackets(buf, after_first, CharClass::Only(CharType::Operator), self.tokenizer.open_brackets());
            lemma_run_ascii(buf, after_first, CharClass::Only(CharType::Operator));
            assert(buf[start as int] < 0x80);
            lemma_ascii_valid_utf8(buf, start as int, end as int);
            lemma_ascii_valid_utf8(buf, start as int, end - 1);
        }
        let next = self.scanner.peek();
        let term_is_about_to_end = next.is_whitespace() || next.is_close() || next.is_separator() || (next
            == CharType::Colon && !self.scanner.peek_at(1).is_always_right_operand());
        let in_term = self.tokenizer.in_term;
        let range = self.range(start);
        proof {
            assert(term_is_about_to_end == term_ends_at(buf, end as int));
            assert(buf.subrange(start as int, end - 1) =~= buf.subrange(start as int, end as int).drop_last());
        }
        if in_term && term_is_about_to_end {
            // The term is about to end: a postfix operator ("a? + 2").
            let operator = self.intern_identifier(start, end);
            self.tokenizer.on_term_operator_token(OperatorToken::PostfixOperator(operator), range);
        } else if !in_term && !term_is_about_to_end {
            // Something follows and no term is open: a prefix operator ("+1").
            let operator = self.intern_identifier(start, end);
            self.tokenizer.on_term_token(ExpressionToken::PrefixOperator(operator), range);
        } else {
            // An infix operator: inside the term ("1+2") or between terms
            // ("1 + 2").
            let bytes = slice_subrange(self.scanner.buffer, start, end);
            let token = if is_assignment_operator(bytes) {
                let operator = self.intern_identifier(start, end - 1);
                OperatorToken::InfixAssignment(operator)
            } else {
                let operator = self.intern_identifier(start, end);
                OperatorToken::InfixOperator(operator)
            };
            if in_term {
                self.tokenizer.on_term_operator_token(token, range);
            } else {
                self.tokenizer.on_separator(token, range);
            }
        }
    }

    /// `;` or `,`: an infix operator between terms.
    fn separator(&mut self, start: ByteIndex)
        requires
            old(self).step_pre(start as int, CharType::Separator),
        ensures
            final(self).spec_ast().tokens@.last() matches Token::Operator(op) && final(self).tokenizer.grouper.received@ == old(self).tokenizer.grouper.received@ + separator_emission(
                old(self).tokenizer,
                op,
                run_range(start, final(self).scanner.index),
            ),
            final(self).scanner.index == old(self).scanner.index,
            last_range_is(final(self).spec_ast(), start as int, final(self).scanner.index as int),
            final(self).spec_ast().tokens@.last() matches Token::Operator(OperatorToken::InfixOperator(i)) && identifier_is(
                final(self).spec_ast(),
                i,
                old(self).buf().subrange(start as int, final(self).scanner.index as int),
            ),
            old(self).balanced_at(start as int) ==> final(self).balanced_at(final(self).scanner.index as int),
            final(self).wf(),
            final(self).keeps(old(self)),
    {
        let ghost buf = self.buf();
        proof {
            lemma_line_starts_step(buf, start as int);
            assert(buf.subrange(start as int, start as int) =~= Seq::<u8>::empty());
            lemma_char_valid_utf8(buf, start as int, start as int);
        }
        let end = self.scanner.index;
        let operator = self.intern_identifier(start, end);
        let range = self.range(start);
        self.tokenizer.on_separator(OperatorToken::InfixOperator(operator), range);
    }

    /// `:`: a prefix operator when an operand follows right after it and it
    /// starts a term or follows an operator (`:a`, `1+:a`); an infix
    /// operator between terms otherwise (`a:b`, `a: b`, `a:`).
    fn colon(&mut self, start: ByteIndex)
        requires
            old(self).step_pre(start as int, CharType::Colon),
        ensures
            match final(self).spec_ast().tokens@.last() {
                Token::Operator(op) => final(self).tokenizer.grouper.received@ == old(self).tokenizer.grouper.received@ + separator_emission(old(self).tokenizer, op, run_range(start, final(self).scanner.index)),
                Token::Expression(e) => final(self).tokenizer.grouper.received@ == old(self).tokenizer.grouper.received@ + term_token_emission(old(self).tokenizer, e, run_range(start, final(self).scanner.index)),
            },
            final(self).scanner.index == old(self).scanner.index,
            last_range_is(final(self).spec_ast(), start as int, final(self).scanner.index as int),
            if (!old(self).tokenizer.in_term || old(self).tokenizer.prev_was_operator) && starts_operand(
                char_type_at(old(self).buf(), old(self).scanner.index as int),
            ) {
                final(self).spec_ast().tokens@.last() matches Token::Expression(ExpressionToken::PrefixOperator(i))
                    && identifier_is(final(self).spec_ast(), i, old(self).buf().subrange(start as int, final(self).scanner.index as int))
            } else {
                final(self).spec_ast().tokens@.last() matches Token::Operator(OperatorToken::InfixOperator(i))
                    && identifier_is(final(self).spec_ast(), i, old(self).buf().subrange(start as int, final(self).scanner.index as int))
            },
            old(self).balanced_at(start as int) ==> final(self).balanced_at(final(self).scanner.index as int),
            final(self).wf(),
            final(self).keeps(old(self)),
    {
        let ghost buf = self.buf();
        proof {
            lemma_line_starts_step(buf, start as int);
            assert(buf.subrange(start as int, start as int) =~= Seq::<u8>::empty());
            lemma_char_valid_utf8(buf, start as int, start as int);
        }
        let end = self.scanner.index;
        let operator = self.intern_identifier(start, end);
        let range = self.range(start);
        if (!self.tokenizer.in_term || self.tokenizer.prev_was_operator) && self.scanner.peek().is_always_right_operand() {
            self.tokenizer.on_term_token(ExpressionToken::PrefixOperator(operator), range);
        } else {
            self.tokenizer.on_separator(OperatorToken::InfixOperator(operator), range);
        }
    }

    /// `(`, `{`, `)` or `}`.
    fn bracket(&mut self, start: ByteIndex, boundary: ExpressionBoundary, open: bool)
        requires
            old(self).wf_at(start as int),
            0 <= start < old(self).buf().len(),
            old(self).scanner.index == start + char_len_at(old(self).buf(), start as int),
            !is_line_end(char_type_at(old(self).buf(), start as int)),
            boundary == ExpressionBoundary::Parentheses || boundary == ExpressionBoundary::CurlyBraces,
            char_type_at(old(self).buf(), start as int) == if open {
                if boundary == ExpressionBoundary::Parentheses {
                    CharType::OpenParen
                } else {
                    CharType::OpenCurly
                }
            } else {
                if boundary == ExpressionBoundary::Parentheses {
                    CharType::CloseParen
                } else {
                    CharType::CloseCurly
                }
            },
        ensures
            final(self).tokenizer.grouper.received@ == old(self).tokenizer.grouper.received@ + if open {
                term_token_emission(
                    old(self).tokenizer,
                    ExpressionToken::Open { boundary, delta: 0, error: None },
                    run_range(start, old(self).scanner.index),
                )
            } else {
                separator_emission(
                    old(self).tokenizer,
                    OperatorToken::Close { boundary, delta: 0, error: None },
                    run_range(start, old(self).scanner.index),
                )
            },
            old(self).balanced_at(start as int) ==> final(self).balanced_at(final(self).scanner.index as int),
            final(self).wf(),
            final(self).keeps(old(self)),
    {
        let ghost buf = self.buf();
        proof {
            lemma_line_starts_step(buf, start as int);
        }
        let range = self.range(start);
        if open {
            self.tokenizer.on_open(boundary, range);
        } else {
            self.tokenizer.on_close(boundary, range);
        }
    }

    /// `#` up to the end of the line: a comment.
    fn comment(&mut self, start: ByteIndex)
        requires
            old(self).step_pre(start as int, CharType::Hash),
        ensures
            final(self).tokenizer.grouper.received@ == old(self).tokenizer.grouper.received@ + break_emission(old(self).tokenizer, start),
            old(self).balanced_at(start as int) ==> final(self).balanced_at(final(self).scanner.index as int),
            final(self).wf(),
            final(self).keeps(old(self)),
    {
        let ghost buf = self.buf();
        let ghost after_first = self.scanner.index as int;
        self.scanner.next_until_eol();
        proof {
            lemma_run_end_bounds(buf, after_first, CharClass::LineContent);
            lemma_line_starts_step(buf, start as int);
            lemma_run_no_line_starts(buf, after_first, CharClass::LineContent);
        }
        let bytes = slice_subrange(self.scanner.buffer, start, self.scanner.index);
        let ghost before = self.tokenizer;
        self.tokenizer.grouper.binder.ast.char_data.append_comment(bytes, start);
        proof {
            lemma_wf_after_pool_change(&before, &self.tokenizer);
            let old_cd = before.spec_ast().char_data;
            let cd = self.spec_ast().char_data;
            assert forall|i: int| 0 <= i < cd.comments@.len() implies #[trigger] comment_spells(cd.comments@[i], buf) by {
                if i < old_cd.comments@.len() {
                    assert(cd.comments@[i] == cd.comments@.take(old_cd.comments@.len() as int)[i]);
                    assert(comment_spells(old_cd.comments@[i], buf));
                }
            }
            let at = self.scanner.index as int;
            let nc = old_cd.comments@.len() as int;
            assert forall|c: int| 0 <= c < nc implies #[trigger] comment_end(cd, c) == comment_end(old_cd, c) by {
                assert(cd.comments@[c] == cd.comments@.take(nc)[c]);
            }
            assert(comment_end(cd, nc) == at);
            assert forall|w: int| 0 <= w < cd.whitespace_ranges@.len() implies ws_run_start(cd, w) < #[trigger] ws_run_end(cd, w)
                <= at by {
                assert(ws_run_end(old_cd, w) == ws_run_end(cd, w));
            }
            assert forall|v: int, w: int| 0 <= v < w < cd.whitespace_ranges@.len() implies #[trigger] ws_run_end(cd, v)
                <= #[trigger] ws_run_start(cd, w) by {
                assert(ws_run_end(old_cd, v) == ws_run_end(cd, v));
                assert(ws_run_start(old_cd, w) == ws_run_start(cd, w));
            }
            assert forall|c: int| 0 <= c < cd.comments@.len() implies comment_start(cd, c) < #[trigger] comment_end(cd, c) <= at by {
                if c < nc {
                    assert(comment_end(old_cd, c) <= start);
                    assert(cd.comments@[c] == cd.comments@.take(nc)[c]);
                }
            }
            assert forall|x: int, c: int| 0 <= x < c < cd.comments@.len() implies #[trigger] comment_end(cd, x)
                <= #[trigger] comment_start(cd, c) by {
                assert(comment_end(old_cd, x) <= start);
                assert(cd.comments@[x] == cd.comments@.take(nc)[x]);
                if c < nc {
                    assert(comment_end(old_cd, x) <= comment_start(old_cd, c));
                    assert(cd.comments@[c] == cd.comments@.take(nc)[c]);
                }
            }
        }
        let range = self.range(start);
        self.tokenizer.on_comment(range);
    }

    /// `\n`: ends the line.
    fn newline(&mut self, start: ByteIndex)
        requires
            old(self).step_pre(start as int, CharType::Newline),
        ensures
            final(self).tokenizer.grouper.received@ == old(self).tokenizer.grouper.received@ + break_emission(old(self).tokenizer, start),
            old(self).balanced_at(start as int) ==> final(self).balanced_at(final(self).scanner.index as int),
            final(self).wf(),
            final(self).keeps(old(self)),
    {
        let ghost buf = self.buf();
        proof {
            lemma_line_starts_step(buf, start as int);
        }
        let range = self.range(start);
        self.tokenizer.on_line_ending(range);
        proof {
            let starts = self.spec_ast().char_data.line_starts@;
            let i = self.scanner.index;
            assert(starts.push(i) + line_starts_after(buf, i as int) =~= starts + line_starts_after(buf, start as int));
        }
        self.line_start();
    }

    /// `\r\n` or `\r`: ends the line; its text is recorded.
    fn line_ending(&mut self, start: ByteIndex)
        requires
            old(self).step_pre(start as int, CharType::LineEnding),
        ensures
            final(self).tokenizer.grouper.received@ == old(self).tokenizer.grouper.received@ + break_emission(old(self).tokenizer, start),
            old(self).balanced_at(start as int) ==> final(self).balanced_at(final(self).scanner.index as int),
            final(self).wf(),
            final(self).keeps(old(self)),
    {
        let ghost buf = self.buf();
        proof {
            lemma_line_starts_step(buf, start as int);
            assert(buf.subrange(start as int, start as int) =~= Seq::<u8>::empty());
            lemma_char_valid_utf8(buf, start as int, start as int);
        }
        self.store_whitespace(start);
        let range = self.range(start);
        self.tokenizer.on_line_ending(range);
        proof {
            let starts = self.spec_ast().char_data.line_starts@;
            let i = self.scanner.index;
            assert(starts.push(i) + line_starts_after(buf, i as int) =~= starts + line_starts_after(buf, start as int));
        }
        self.line_start();
    }

    /// A line starts at the scanner: records its start, then reads its
    /// indentation.
    fn line_start(&mut self)
        requires
            old(self).wf_core(),
            old(self).spec_ast().char_data.line_starts@.last() < old(self).scanner.index,
            old(self).spec_ast().char_data.line_starts@.push(old(self).scanner.index) + line_starts_after(
                old(self).buf(),
                old(self).scanner.index as int,
            ) == spec_line_starts(old(self).buf()),
            old(self).tokenizer.budget() <= 12 * old(self).scanner.index + 12,
            interned(&old(self).spec_ast().identifiers).len() <= WELL_KNOWN_COUNT + old(self).scanner.index,
            old(self).spec_ast().char_data.whitespace_ranges@.len() > 0 ==> old(self).spec_ast().char_data.whitespace_ranges@.last().1
                < old(self).scanner.index,
            char_data_before(old(self).spec_ast().char_data, old(self).scanner.index as int),
        ensures
            tokenizer_state_kept(old(self).tokenizer, final(self).tokenizer),
            old(self).balanced_at(old(self).scanner.index as int) ==> final(self).balanced_at(final(self).scanner.index as int),
            final(self).wf(),
            final(self).keeps(old(self)),
    {
        let start = self.scanner.index;
        let ghost before = self.tokenizer;
        self.tokenizer.grouper.binder.ast.char_data.line_starts.push(start);
        proof {
            let starts = self.spec_ast().char_data.line_starts@;
            assert(line_starts_wf(starts)) by {
                assert forall|i: int, j: int| 0 <= i < j < starts.len() implies starts[i] < starts[j] by {
                    if j == starts.len() - 1 {
                        assert(starts[i] <= before.spec_ast().char_data.line_starts@.last());
                    }
                }
            }
            lemma_wf_after_pool_change(&before, &self.tokenizer);
            lemma_char_data_before_kept(before.spec_ast().char_data, self.spec_ast().char_data, start as int, start as int);
        }
        self.indent_of_line(start);
    }

    /// Reads the indentation at the start of a line (at `start`, the
    /// scanner); unless the line is blank, hands it to the tokenizer and
    /// remembers it.
    fn indent_of_line(&mut self, start: ByteIndex)
        requires
            old(self).wf(),
            start == old(self).scanner.index,
        ensures
            tokenizer_state_kept(old(self).tokenizer, final(self).tokenizer),
            final(self).scanner.index == run_end(
                old(self).buf(),
                run_end(old(self).buf(), start as int, CharClass::Only(CharType::Space)),
                CharClass::HorizontalSpace,
            ),
            final(self).scanner.index > run_end(old(self).buf(), start as int, CharClass::Only(CharType::Space))
                ==> final(self).spec_ast().char_data.whitespace_ranges@.len() >= 1 && whitespace_recorded(
                old(self).spec_ast(),
                final(self).spec_ast(),
                start as int,
                old(self).buf().subrange(start as int, final(self).scanner.index as int),
                Some(final(self).spec_ast().char_data.whitespace_ranges@.last().0),
            ),
            final(self).scanner.index == run_end(old(self).buf(), start as int, CharClass::Only(CharType::Space))
                ==> whitespace_recorded(
                old(self).spec_ast(),
                final(self).spec_ast(),
                start as int,
                old(self).buf().subrange(start as int, final(self).scanner.index as int),
                None,
            ),
            !ends_line(char_type_at(old(self).buf(), final(self).scanner.index as int)) ==> {
                &&& final(self).current_indent == final(self).scanner.index - start
                &&& final(self).current_indent_whitespace == if final(self).scanner.index > run_end(
                    old(self).buf(),
                    start as int,
                    CharClass::Only(CharType::Space),
                ) {
                    Some(final(self).spec_ast().char_data.whitespace_ranges@.last().0)
                } else {
                    None::<WhitespaceIndex>
                }
            },
            ends_line(char_type_at(old(self).buf(), final(self).scanner.index as int)) ==> {
                &&& final(self).current_indent == old(self).current_indent
                &&& final(self).current_indent_whitespace == old(self).current_indent_whitespace
            },
            old(self).balanced_at(start as int) ==> final(self).balanced_at(final(self).scanner.index as int),
            final(self).wf(),
            final(self).keeps(old(self)),
    {
        proof {
            assert(self.buf().subrange(start as int, start as int) =~= Seq::<u8>::empty());
        }
        let indent_whitespace = self.read_space(start);
        if !self.scanner.peek().ends_line() {
            let indent = self.scanner.index - start;
            let matching = self.matching_indent(indent, indent_whitespace);
            self.tokenizer.on_line_start(start, indent, matching);
            self.current_indent = indent;
            self.current_indent_whitespace = indent_whitespace;
        }
    }

    /// How many bytes of the indentation `indent` (with its text, if it has
    /// more than spaces) match the previous line's indentation.
    fn matching_indent(&self, indent: usize, indent_whitespace: Option<WhitespaceIndex>) -> (matching: usize)
        requires
            self.wf_core(),
            indent_whitespace matches Some(w) ==> w < interned(&self.spec_ast().char_data.whitespace_characters).len(),
        ensures
            matching == spec_matching_indent(
                indent as int,
                match indent_whitespace {
                    Some(w) => Some(interned(&self.spec_ast().char_data.whitespace_characters)[w as int]),
                    None => None,
                },
                match self.current_indent_whitespace {
                    Some(w) => Some(interned(&self.spec_ast().char_data.whitespace_characters)[w as int]),
                    None => None,
                },
            ),
    {
        match (indent_whitespace, self.current_indent_whitespace) {
            (None, None) => indent,
            (Some(new), Some(current)) => {
                let a = self.tokenizer.ast().whitespace_string(new);
                let b = self.tokenizer.ast().whitespace_string(current);
                let a_len = a.unicode_len();
                let b_len = b.unicode_len();
                let n = if a_len <= b_len {
                    a_len
                } else {
                    b_len
                };
                let mut k: usize = 0;
                while k < n
                    invariant
                        k <= n,
                        n as int == min(a@.len() as int, b@.len() as int),
                        a@ == interned(&self.spec_ast().char_data.whitespace_characters)[new as int],
                        b@ == interned(&self.spec_ast().char_data.whitespace_characters)[current as int],
                        indent_whitespace == Some(new),
                        self.current_indent_whitespace == Some(current),
                        first_difference(a@, b@, 0, n as int, indent as int) == first_difference(
                            a@,
                            b@,
                            k as int,
                            n as int,
                            indent as int,
                        ),
                    decreases n - k,
                {
                    if a.get_char(k) != b.get_char(k) {
                        proof {
                            assert(first_difference(a@, b@, k as int, n as int, indent as int) == k);
                        }
                        return k;
                    }
                    k = k + 1;
                }
                indent
            },
            (Some(new), None) => {
                let a = self.tokenizer.ast().whitespace_string(new);
                let a_len = a.unicode_len();
                let n = if indent <= a_len {
                    indent
                } else {
                    a_len
                };
                first_non_space_position(a, n, indent)
            },
            (None, Some(current)) => {
                let b = self.tokenizer.ast().whitespace_string(current);
                let b_len = b.unicode_len();
                let n = if indent <= b_len {
                    indent
                } else {
                    b_len
                };
                first_non_space_position(b, n, indent)
            },
        }
    }

    /// Reads spaces and, if other horizontal whitespace follows them, the
    /// rest of the whitespace, whose text (from `start`) is then recorded.
    fn read_space(&mut self, start: ByteIndex) -> (whitespace: Option<WhitespaceIndex>)
        requires
            old(self).wf_at(start as int),
            valid_utf8(old(self).buf().subrange(start as int, old(self).scanner.index as int)),
            line_starts_after(old(self).buf(), start as int) == line_starts_after(old(self).buf(), old(self).scanner.index as int),
        ensures
            tokenizer_state_kept(old(self).tokenizer, final(self).tokenizer),
            final(self).scanner.index == run_end(
                old(self).buf(),
                run_end(old(self).buf(), old(self).scanner.index as int, CharClass::Only(CharType::Space)),
                CharClass::HorizontalSpace,
            ),
            whitespace is Some <==> final(self).scanner.index > run_end(
                old(self).buf(),
                old(self).scanner.index as int,
                CharClass::Only(CharType::Space),
            ),
            whitespace_recorded(
                old(self).spec_ast(),
                final(self).spec_ast(),
                start as int,
                old(self).buf().subrange(start as int, final(self).scanner.index as int),
                whitespace,
            ),
            final(self).current_indent == old(self).current_indent,
            final(self).current_indent_whitespace == old(self).current_indent_whitespace,
            brackets_ok_from(old(self).buf(), old(self).scanner.index as int, old(self).tokenizer.open_brackets()) == brackets_ok_from(
                final(self).buf(),
                final(self).scanner.index as int,
                final(self).tokenizer.open_brackets(),
            ),
            final(self).tokenizer.tree_ok() == old(self).tokenizer.tree_ok(),
            final(self).tokenizer.open_brackets() == old(self).tokenizer.open_brackets(),
            final(self).wf_at(final(self).scanner.index as int),
            final(self).keeps(old(self)),
            line_starts_after(final(self).buf(), start as int) == line_starts_after(final(self).buf(), final(self).scanner.index as int),
            final(self).tokenizer.budget() == old(self).tokenizer.budget(),
            whitespace matches Some(w) ==> w < interned(&final(self).spec_ast().char_data.whitespace_characters).len(),
    {
        let ghost buf = self.buf();
        let ghost i0 = self.scanner.index as int;
        self.scanner.next_while(CharType::Space);
        let ghost i1 = self.scanner.index as int;
        let more = self.scanner.next_while_horizontal_whitespace();
        proof {
            lemma_run_end_bounds(buf, i0, CharClass::Only(CharType::Space));
            lemma_run_end_bounds(buf, i1, CharClass::HorizontalSpace);
            lemma_run_no_line_starts(buf, i0, CharClass::Only(CharType::Space));
            lemma_run_no_brackets(buf, i0, CharClass::Only(CharType::Space), self.tokenizer.open_brackets());
            lemma_run_no_line_starts(buf, i1, CharClass::HorizontalSpace);
            lemma_run_no_brackets(buf, i1, CharClass::HorizontalSpace, self.tokenizer.open_brackets());
            lemma_run_valid_utf8(buf, start as int, i0, CharClass::Only(CharType::Space));
            lemma_run_valid_utf8(buf, start as int, i1, CharClass::HorizontalSpace);
        }
        if more {
            let index = self.store_whitespace(start);
            Some(index)
        } else {
            None
        }
    }

    /// A run of spaces (and any horizontal whitespace after them).
    fn space(&mut self, start: ByteIndex)
        requires
            old(self).step_pre(start as int, CharType::Space),
        ensures
            final(self).tokenizer.grouper.received@ == old(self).tokenizer.grouper.received@ + break_emission(old(self).tokenizer, start),
            final(self).scanner.index == run_end(
                old(self).buf(),
                run_end(old(self).buf(), old(self).scanner.index as int, CharClass::Only(CharType::Space)),
                CharClass::HorizontalSpace,
            ),
            final(self).scanner.index > run_end(old(self).buf(), old(self).scanner.index as int, CharClass::Only(CharType::Space))
                ==> final(self).spec_ast().char_data.whitespace_ranges@.len() >= 1 && whitespace_recorded(
                old(self).spec_ast(),
                final(self).spec_ast(),
                start as int,
                old(self).buf().subrange(start as int, final(self).scanner.index as int),
                Some(final(self).spec_ast().char_data.whitespace_ranges@.last().0),
            ),
            final(self).scanner.index == run_end(old(self).buf(), old(self).scanner.index as int, CharClass::Only(CharType::Space))
                ==> whitespace_recorded(
                old(self).spec_ast(),
                final(self).spec_ast(),
                start as int,
                old(self).buf().subrange(start as int, final(self).scanner.index as int),
                None,
            ),
            !final(self).tokenizer.in_term,
            old(self).balanced_at(start as int) ==> final(self).balanced_at(final(self).scanner.index as int),
            final(self).wf(),
            final(self).keeps(old(self)),
    {
        let ghost buf = self.buf();
        proof {
            lemma_line_starts_step(buf, start as int);
            assert(buf.subrange(start as int, start as int) =~= Seq::<u8>::empty());
            lemma_char_valid_utf8(buf, start as int, start as int);
        }
        self.read_space(start);
        let range = self.range(start);
        self.tokenizer.on_space(range);
    }

    /// A run of horizontal whitespace other than spaces; its text is
    /// recorded.
    fn horizontal_whitespace(&mut self, start: ByteIndex)
        requires
            old(self).step_pre(start as int, CharType::HorizontalWhitespace),
        ensures
            final(self).tokenizer.grouper.received@ == old(self).tokenizer.grouper.received@ + break_emission(old(self).tokenizer, start),
            final(self).scanner.index == run_end(old(self).buf(), old(self).scanner.index as int, CharClass::HorizontalSpace),
            final(self).spec_ast().char_data.whitespace_ranges@.len() >= 1,
            whitespace_recorded(
                old(self).spec_ast(),
                final(self).spec_ast(),
                start as int,
                old(self).buf().subrange(start as int, final(self).scanner.index as int),
                Some(final(self).spec_ast().char_data.whitespace_ranges@.last().0),
            ),
            !final(self).tokenizer.in_term,
            old(self).balanced_at(start as int) ==> final(self).balanced_at(final(self).scanner.index as int),
            final(self).wf(),
            final(self).keeps(old(self)),
    {
        let ghost buf = self.buf();
        let ghost after_first = self.scanner.index as int;
        self.scanner.next_while_horizontal_whitespace();
        proof {
            lemma_run_end_bounds(buf, after_first, CharClass::HorizontalSpace);
            lemma_line_starts_step(buf, start as int);
            lemma_run_no_line_starts(buf, after_first, CharClass::HorizontalSpace);
            lemma_run_no_brackets(buf, after_first, CharClass::HorizontalSpace, self.tokenizer.open_brackets());
            assert(buf.subrange(start as int, start as int) =~= Seq::<u8>::empty());
            lemma_char_valid_utf8(buf, start as int, start as int);
            lemma_run_valid_utf8(buf, start as int, after_first, CharClass::HorizontalSpace);
        }
        self.store_whitespace(start);
        let range = self.range(start);
        self.tokenizer.on_space(range);
    }

    /// A run of valid characters the language does not support: an error
    /// term holding their text.
    fn unsupported(&mut self, start: ByteIndex)
        requires
            old(self).step_pre(start as int, CharType::Unsupported),
        ensures
            final(self).spec_ast().tokens@.last() matches Token::Expression(e) && final(self).tokenizer.grouper.received@ == old(self).tokenizer.grouper.received@ + term_token_emission(
                old(self).tokenizer,
                e,
                run_range(start, final(self).scanner.index),
            ),
            final(self).scanner.index == run_end(old(self).buf(), old(self).scanner.index as int, CharClass::Only(CharType::Unsupported)),
            last_range_is(final(self).spec_ast(), start as int, final(self).scanner.index as int),
            final(self).spec_ast().tokens@.last() matches Token::Expression(ExpressionToken::ErrorTerm(code, l))
                && code == ErrorCode::UnsupportedCharacters && literal_is(
                final(self).spec_ast(),
                l,
                old(self).buf().subrange(start as int, final(self).scanner.index as int),
            ),
            old(self).balanced_at(start as int) ==> final(self).balanced_at(final(self).scanner.index as int),
            final(self).wf(),
            final(self).keeps(old(self)),
    {
        let ghost buf = self.buf();
        let ghost after_first = self.scanner.index as int;
        self.scanner.next_while(CharType::Unsupported);
        proof {
            lemma_run_end_bounds(buf, after_first, CharClass::Only(CharType::Unsupported));
            lemma_line_starts_step(buf, start as int);
            lemma_run_no_line_starts(buf, after_first, CharClass::Only(CharType::Unsupported));
            lemma_run_no_brackets(buf, after_first, CharClass::Only(CharType::Unsupported), self.tokenizer.open_brackets());
            assert(buf.subrange(start as int, start as int) =~= Seq::<u8>::empty());
            lemma_char_valid_utf8(buf, start as int, start as int);
            lemma_run_valid_utf8(buf, start as int, after_first, CharClass::Only(CharType::Unsupported));
        }
        let literal = self.intern_literal(start);
        let range = self.range(start);
        self.tokenizer.on_term_token(ExpressionToken::ErrorTerm(ErrorCode::UnsupportedCharacters, literal), range);
    }

    /// A run of bytes that are not valid UTF-8: an error term holding the
    /// bytes.
    fn invalid_utf8(&mut self, start: ByteIndex)
        requires
            old(self).step_pre(start as int, CharType::InvalidUtf8),
        ensures
            final(self).spec_ast().tokens@.last() matches Token::Expression(e) && final(self).tokenizer.grouper.received@ == old(self).tokenizer.grouper.received@ + term_token_emission(
                old(self).tokenizer,
                e,
                run_range(start, final(self).scanner.index),
            ),
            final(self).scanner.index == run_end(old(self).buf(), old(self).scanner.index as int, CharClass::Only(CharType::InvalidUtf8)),
            last_range_is(final(self).spec_ast(), start as int, final(self).scanner.index as int),
            final(self).spec_ast().tokens@.last() matches Token::Expression(ExpressionToken::RawErrorTerm(code, r))
                && code == ErrorCode::InvalidUtf8 && r < final(self).spec_ast().raw_literals@.len()
                && final(self).spec_ast().raw_literals@[r as int]@ == old(self).buf().subrange(start as int, final(self).scanner.index as int),
            old(self).balanced_at(start as int) ==> final(self).balanced_at(final(self).scanner.index as int),
            final(self).wf(),
            final(self).keeps(old(self)),
    {
        let ghost buf = self.buf();
        let ghost after_first = self.scanner.index as int;
        self.scanner.next_while(CharType::InvalidUtf8);
        proof {
            lemma_run_end_bounds(buf, after_first, CharClass::Only(CharType::InvalidUtf8));
            lemma_line_starts_step(buf, start as int);
            lemma_run_no_line_starts(buf, after_first, CharClass::Only(CharType::InvalidUtf8));
            lemma_run_no_brackets(buf, after_first, CharClass::Only(CharType::InvalidUtf8), self.tokenizer.open_brackets());
        }
        let bytes = slice_subrange(self.scanner.buffer, start, self.scanner.index);
        let raw = vstd::slice::slice_to_vec(bytes);
        let ghost before = self.tokenizer;
        let index = self.tokenizer.grouper.binder.ast.push_raw_literal(raw);
        proof {
            lemma_wf_after_pool_change(&before, &self.tokenizer);
        }
        let range = self.range(start);
        self.tokenizer.on_term_token(ExpressionToken::RawErrorTerm(ErrorCode::InvalidUtf8, index), range);
    }
}

/// The first position below `n` where `a` holds something other than a
/// space, or `default`.
fn first_non_space_position(a: &str, n: usize, default: usize) -> (p: usize)
    requires
        n <= a@.len(),
    ensures
        p == first_non_space(a@, 0, n as int, default as int),
{
    let mut k: usize = 0;
    while k < n
        invariant
            k <= n <= a@.len(),
            first_non_space(a@, 0, n as int, default as int) == first_non_space(a@, k as int, n as int, default as int),
        decreases n - k,
    {
        if a.get_char(k) != ' ' {
            proof {
                assert(first_non_space(a@, k as int, n as int, default as int) == k);
            }
            return k;
        }
        k = k + 1;
    }
    default
}

/// Whether a run of operator characters is an assignment operator: it ends
/// in a single `=` and is not `>=`, `<=` or `!=`.
pub fn is_assignment_operator(slice: &[u8]) -> (b: bool)
    requires
        slice@.len() >= 1,
    ensures
        b == spec_is_assignment_operator(slice@),
{
    let n = slice.len();
    if slice[n - 1] != 0x3d {
        return false;
    }
    if n < 2 {
        return true;
    }
    let prev_ch = slice[n - 2];
    if prev_ch == 0x3d {
        return false;
    }
    if n > 2 {
        return true;
    }
    !(prev_ch == 0x21 || prev_ch == 0x3e || prev_ch == 0x3c)
}

} // verus!
