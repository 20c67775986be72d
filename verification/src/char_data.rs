use crate::decimal::{decimal_string, spec_decimal};
use crate::indices::{ByteIndex, ByteRange, WhitespaceIndex};
use crate::interner::{Interner, all_distinct, intern, interned, interner_new};
use vstd::prelude::*;

verus! {

/// Data about the original source beyond its tokens: enough, together with
/// the tokens, to reconstruct it.
pub struct CharData {
    /// Size of the source in bytes.
    pub size: ByteIndex,
    /// Beginning index of each line, in increasing order; the first line
    /// starts at 0.
    pub line_starts: Vec<ByteIndex>,
    /// The distinct runs of whitespace found in the source, other than runs
    /// of spaces and single newlines.
    pub whitespace_characters: Interner,
    /// Each such whitespace run, with where it starts, in source order.
    pub whitespace_ranges: Vec<(WhitespaceIndex, ByteIndex)>,
    /// Each comment (from `#` up to the line ending, not valid UTF-8
    /// necessarily), with where it starts, in source order.
    pub comments: Vec<(Vec<u8>, ByteIndex)>,
}

/// A 1-based line and column.
#[derive(Debug, Copy, Clone, PartialEq, Eq, Structural)]
pub struct LineColumn {
    pub line: usize,
    pub column: usize,
}

/// An inclusive range of line/column positions; `end` is `None` for an
/// empty range.
#[derive(Debug, Copy, Clone, PartialEq, Eq, Structural)]
pub struct LineColumnRange {
    pub start: LineColumn,
    pub end: Option<LineColumn>,
}

/// Line starts are strictly increasing and the first line starts at 0.
pub open spec fn line_starts_wf(starts: Seq<ByteIndex>) -> bool {
    &&& starts.len() >= 1
    &&& starts[0] == 0
    &&& forall|i: int, j: int| 0 <= i < j < starts.len() ==> starts[i] < starts[j]
}

/// `lc` is the line and column of byte `index`: the line is the last one
/// starting at or before `index`, and the column counts from 1 at its start.
pub open spec fn is_location_of(starts: Seq<ByteIndex>, index: int, lc: LineColumn) -> bool {
    &&& 1 <= lc.line <= starts.len()
    &&& starts[lc.line - 1] <= index
    &&& (lc.line == starts.len() || index < starts[lc.line as int])
    &&& lc.column == index + 1 - starts[lc.line - 1]
}

/// The byte index that a line and column designate.
pub open spec fn spec_byte_index(starts: Seq<ByteIndex>, lc: LineColumn) -> int {
    starts[lc.line - 1] + lc.column - 1
}

/// A line and column that designates a byte of its own line (or of the
/// last line, which has no end).
pub open spec fn is_valid_location(starts: Seq<ByteIndex>, lc: LineColumn) -> bool {
    &&& 1 <= lc.line <= starts.len()
    &&& lc.column >= 1
    &&& (lc.line == starts.len() || spec_byte_index(starts, lc) < starts[lc.line as int])
}

impl CharData {
    pub open spec fn wf(&self) -> bool {
        &&& line_starts_wf(self.line_starts@)
        &&& all_distinct(interned(&self.whitespace_characters))
    }

    /// Empty character data: a single line starting at 0.
    pub fn new() -> (data: CharData)
        ensures
            data.wf(),
            data.size == 0,
            data.line_starts@ == seq![0usize],
            interned(&data.whitespace_characters).len() == 0,
            data.whitespace_ranges@.len() == 0,
            data.comments@.len() == 0,
    {
        let mut line_starts = Vec::new();
        line_starts.push(0);
        CharData {
            size: 0,
            line_starts,
            whitespace_characters: interner_new(),
            whitespace_ranges: Vec::new(),
            comments: Vec::new(),
        }
    }

    /// Records a run of whitespace starting at `start` and returns the index
    /// of its text in the whitespace pool. The run is not empty, it starts
    /// after the runs recorded before it, and `start` is below `u32::MAX`.
    pub fn append_whitespace(&mut self, whitespace: &str, start: ByteIndex) -> (index: WhitespaceIndex)
        requires
            old(self).wf(),
            whitespace@.len() > 0,
            old(self).whitespace_ranges@.len() > 0 ==> old(self).whitespace_ranges@.last().1 < start,
            start < u32::MAX,
        ensures
            final(self).wf(),
            final(self).size == old(self).size,
            final(self).line_starts == old(self).line_starts,
            final(self).comments == old(self).comments,
            final(self).whitespace_ranges@ == old(self).whitespace_ranges@.push((index, start)),
            interned(&final(self).whitespace_characters)[index as int] == whitespace@,
            index < interned(&final(self).whitespace_characters).len(),
            interned(&old(self).whitespace_characters).is_prefix_of(interned(&final(self).whitespace_characters)),
    {
        let index = intern(&mut self.whitespace_characters, whitespace);
        self.whitespace_ranges.push((index, start));
        index
    }

    /// Records a comment starting at `start`.
    pub fn append_comment(&mut self, bytes: &[u8], start: ByteIndex)
        ensures
            final(self).size == old(self).size,
            final(self).line_starts == old(self).line_starts,
            final(self).whitespace_characters == old(self).whitespace_characters,
            final(self).whitespace_ranges == old(self).whitespace_ranges,
            final(self).comments@.len() == old(self).comments@.len() + 1,
            final(self).comments@.take(old(self).comments@.len() as int) == old(self).comments@,
            final(self).comments@.last().0@ == bytes@,
            final(self).comments@.last().1 == start,
    {
        let mut copy: Vec<u8> = Vec::new();
        let mut i: usize = 0;
        while i < bytes.len()
            invariant
                0 <= i <= bytes.len(),
                copy@ == bytes@.take(i as int),
            decreases bytes.len() - i,
        {
            copy.push(bytes[i]);
            i = i + 1;
            assert(copy@ =~= bytes@.take(i as int));
        }
        assert(copy@ =~= bytes@);
        self.comments.push((copy, start));
        assert(self.comments@.take(old(self).comments@.len() as int) =~= old(self).comments@);
    }

    /// The line and column of a byte index.
    pub fn location(&self, index: ByteIndex) -> (lc: LineColumn)
        requires
            line_starts_wf(self.line_starts@),
            index < usize::MAX,
        ensures
            is_location_of(self.line_starts@, index as int, lc),
    {
        // Binary search for the number of line starts at or before index.
        let starts = &self.line_starts;
        let mut lo: usize = 0;
        let mut hi: usize = starts.len();
        while lo < hi
            invariant
                0 <= lo <= hi <= starts@.len(),
                line_starts_wf(starts@),
                forall|k: int| 0 <= k < lo ==> starts@[k] <= index,
                forall|k: int| hi <= k < starts@.len() ==> starts@[k] > index,
            decreases hi - lo,
        {
            let mid = lo + (hi - lo) / 2;
            if starts[mid] <= index {
                lo = mid + 1;
            } else {
                hi = mid;
            }
        }
        assert(starts@[0] <= index);
        let line = lo;
        let column = index - starts[line - 1] + 1;
        LineColumn { line, column }
    }

    /// The line/column range of a byte range.
    pub fn range(&self, range: &ByteRange) -> (r: LineColumnRange)
        requires
            line_starts_wf(self.line_starts@),
            range.start <= range.end,
            range.end < usize::MAX,
        ensures
            is_location_of(self.line_starts@, range.start as int, r.start),
            range.start == range.end <==> r.end is None,
            r.end matches Some(end) ==> is_location_of(self.line_starts@, range.end - 1, end),
    {
        let start = self.location(range.start);
        if range.start == range.end {
            LineColumnRange { start, end: None }
        } else {
            let end = Some(self.location(range.end - 1));
            LineColumnRange { start, end }
        }
    }

    /// The byte index a line and column designate.
    pub fn byte_index(&self, location: LineColumn) -> (index: ByteIndex)
        requires
            1 <= location.line <= self.line_starts@.len(),
            location.column >= 1,
            self.line_starts@[location.line - 1] + location.column - 1 <= usize::MAX,
        ensures
            index == spec_byte_index(self.line_starts@, location),
    {
        self.line_starts[location.line - 1] + (location.column - 1)
    }

    /// The byte range a line/column range designates.
    pub fn byte_range(&self, range: LineColumnRange) -> (r: ByteRange)
        requires
            1 <= range.start.line <= self.line_starts@.len(),
            range.start.column >= 1,
            self.line_starts@[range.start.line - 1] + range.start.column - 1 <= usize::MAX,
            range.end matches Some(end) ==> {
                &&& 1 <= end.line <= self.line_starts@.len()
                &&& end.column >= 1
                &&& self.line_starts@[end.line - 1] + end.column < usize::MAX
            },
        ensures
            r.start == spec_byte_index(self.line_starts@, range.start),
            r.end == match range.end {
                Some(end) => spec_byte_index(self.line_starts@, end) + 1,
                None => r.start as int,
            },
    {
        let start = self.byte_index(range.start);
        match range.end {
            Some(end) => {
                let last = self.byte_index(end);
                ByteRange { start, end: last + 1 }
            },
            None => ByteRange { start, end: start },
        }
    }
}

impl LineColumn {
    pub fn new(line: usize, column: usize) -> (lc: LineColumn)
        ensures
            lc.line == line,
            lc.column == column,
    {
        LineColumn { line, column }
    }

    /// Orders positions by line, then by column.
    pub fn partial_cmp(&self, other: &LineColumn) -> (o: Option<core::cmp::Ordering>)
        ensures
            o == Some(if self.line < other.line || (self.line == other.line && self.column < other.column) {
                core::cmp::Ordering::Less
            } else if self.line == other.line && self.column == other.column {
                core::cmp::Ordering::Equal
            } else {
                core::cmp::Ordering::Greater
            }),
    {
        if self.line < other.line {
            Some(core::cmp::Ordering::Less)
        } else if self.line > other.line {
            Some(core::cmp::Ordering::Greater)
        } else if self.column < other.column {
            Some(core::cmp::Ordering::Less)
        } else if self.column > other.column {
            Some(core::cmp::Ordering::Greater)
        } else {
            Some(core::cmp::Ordering::Equal)
        }
    }
}

impl LineColumnRange {
    pub fn new(start: LineColumn, end: LineColumn) -> (r: LineColumnRange)
        ensures
            r.start == start,
            r.end == Some(end),
    {
        LineColumnRange { start, end: Some(end) }
    }

    pub fn zero_width(start: LineColumn) -> (r: LineColumnRange)
        ensures
            r.start == start,
            r.end is None,
    {
        LineColumnRange { start, end: None }
    }

    /// The range as messages show it: `line:column` for a single byte,
    /// `line:column-column` within a line, `line:column-line:column`
    /// across lines, and `line:column<0>` for an empty range.
    pub fn to_string(&self) -> (s: String)
        ensures
            s@ == spec_range_text(*self),
    {
        let mut s = decimal_string(self.start.line);
        s.append(":");
        let column = decimal_string(self.start.column);
        s.append(column.as_str());
        match self.end {
            Some(end) => {
                if self.start.line == end.line {
                    if self.start.column != end.column {
                        s.append("-");
                        let end_column = decimal_string(end.column);
                        s.append(end_column.as_str());
                    }
                } else {
                    s.append("-");
                    let end_line = decimal_string(end.line);
                    s.append(end_line.as_str());
                    s.append(":");
                    let end_column = decimal_string(end.column);
                    s.append(end_column.as_str());
                }
            },
            None => {
                s.append("<0>");
            },
        }
        s
    }
}

/// The text of a line/column range (see [`LineColumnRange::to_string`]).
pub open spec fn spec_range_text(r: LineColumnRange) -> Seq<char> {
    let start = spec_decimal(r.start.line as nat) + ":"@ + spec_decimal(r.start.column as nat);
    match r.end {
        Some(end) => if r.start.line == end.line {
            if r.start.column == end.column {
                start
            } else {
                start + "-"@ + spec_decimal(end.column as nat)
            }
        } else {
            start + "-"@ + spec_decimal(end.line as nat) + ":"@ + spec_decimal(end.column as nat)
        },
        None => start + "<0>"@,
    }
}

/// A byte index has exactly one line and column.
pub proof fn lemma_location_unique(starts: Seq<ByteIndex>, index: int, a: LineColumn, b: LineColumn)
    requires
        line_starts_wf(starts),
        is_location_of(starts, index, a),
        is_location_of(starts, index, b),
    ensures
        a == b,
{
    if a.line < b.line {
        assert(starts[a.line as int] <= starts[b.line - 1]);
    } else if b.line < a.line {
        assert(starts[b.line as int] <= starts[a.line - 1]);
    }
}

/// Converting a byte index to a line and column and back gives the byte
/// index again; converting a valid line and column to a byte index and back
/// gives the line and column again.
pub proof fn lemma_location_round_trip(starts: Seq<ByteIndex>, index: int, lc: LineColumn)
    requires
        line_starts_wf(starts),
    ensures
        is_location_of(starts, index, lc) ==> spec_byte_index(starts, lc) == index,
        is_valid_location(starts, lc) ==> is_location_of(starts, spec_byte_index(starts, lc), lc),
{
}

} // verus!
