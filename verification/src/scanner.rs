//! Classification of source bytes into characters and character types.
use vstd::prelude::*;
use vstd::utf8::*;

verus! {

/// The type of a source character, which decides what kind of run it
/// belongs to.
#[derive(Debug, Copy, Clone, PartialEq, Eq, Structural)]
pub enum CharType {
    Digit,
    Identifier,
    Operator,
    Separator,
    Colon,
    OpenParen,
    CloseParen,
    OpenCurly,
    CloseCurly,
    Hash,
    Newline,
    LineEnding,
    Space,
    HorizontalWhitespace,
    Unsupported,
    InvalidUtf8,
    Eof,
}

/// The type of an ASCII byte.
pub open spec fn ascii_char_type(b: u8) -> CharType {
    if 0x30 <= b <= 0x39 {
        CharType::Digit
    } else if (0x61 <= b <= 0x7a) || (0x41 <= b <= 0x5a) || b == 0x5f {
        CharType::Identifier
    } else if b == 0x2b || b == 0x2d || b == 0x2a || b == 0x2f || b == 0x3d || b == 0x21 || b == 0x24
        || b == 0x25 || b == 0x5e || b == 0x26 || b == 0x3c || b == 0x3e || b == 0x3f || b == 0x2e
        || b == 0x7e || b == 0x5c || b == 0x40 || b == 0x7c {
        CharType::Operator
    } else if b == 0x3b || b == 0x2c {
        CharType::Separator
    } else if b == 0x3a {
        CharType::Colon
    } else if b == 0x28 {
        CharType::OpenParen
    } else if b == 0x29 {
        CharType::CloseParen
    } else if b == 0x7b {
        CharType::OpenCurly
    } else if b == 0x7d {
        CharType::CloseCurly
    } else if b == 0x23 {
        CharType::Hash
    } else if b == 0x0a {
        CharType::Newline
    } else if b == 0x0d {
        CharType::LineEnding
    } else if b == 0x20 {
        CharType::Space
    } else if b == 0x09 || b == 0x0b || b == 0x0c {
        CharType::HorizontalWhitespace
    } else {
        CharType::Unsupported
    }
}

/// The type of the character starting at byte `i`.
pub open spec fn char_type_at(buf: Seq<u8>, i: int) -> CharType {
    if i >= buf.len() {
        CharType::Eof
    } else if buf[i] < 0x80 {
        ascii_char_type(buf[i])
    } else if valid_first_scalar(buf.subrange(i, buf.len() as int)) {
        CharType::Unsupported
    } else {
        CharType::InvalidUtf8
    }
}

/// An ASCII letter.
pub open spec fn is_ascii_letter(b: u8) -> bool {
    (('a' as u8) <= b <= ('z' as u8)) || (('A' as u8) <= b <= ('Z' as u8))
}

/// How source characters are read. Identifiers are made of ASCII letters,
/// digits and `_` (a run starting with a letter or `_`): a letter or `_` is
/// an identifier character wherever it stands; a digit is a digit; a space
/// is a space, `\n` a newline and `\r` a line ending; tab, vertical tab and
/// form feed are other horizontal whitespace; each bracket, `#`, `:`, `;`
/// and `,` has its own kind; and a character outside ASCII is never an
/// identifier, digit, operator or whitespace character.
pub proof fn law_character_kinds(buf: Seq<u8>, i: int)
    requires
        0 <= i < buf.len(),
    ensures
        (is_ascii_letter(buf[i]) || buf[i] == ('_' as u8)) ==> char_type_at(buf, i) == CharType::Identifier,
        char_type_at(buf, i) == CharType::Identifier ==> is_ascii_letter(buf[i]) || buf[i] == ('_' as u8),
        (char_type_at(buf, i) == CharType::Digit) <==> (('0' as u8) <= buf[i] <= ('9' as u8)),
        (char_type_at(buf, i) == CharType::Space) <==> buf[i] == (' ' as u8),
        (char_type_at(buf, i) == CharType::Newline) <==> buf[i] == ('\n' as u8),
        (char_type_at(buf, i) == CharType::LineEnding) <==> buf[i] == ('\r' as u8),
        (char_type_at(buf, i) == CharType::HorizontalWhitespace) <==> (buf[i] == 9 || buf[i] == 11 || buf[i] == 12),
        (char_type_at(buf, i) == CharType::OpenParen) <==> buf[i] == ('(' as u8),
        (char_type_at(buf, i) == CharType::CloseParen) <==> buf[i] == (')' as u8),
        (char_type_at(buf, i) == CharType::OpenCurly) <==> buf[i] == ('{' as u8),
        (char_type_at(buf, i) == CharType::CloseCurly) <==> buf[i] == ('}' as u8),
        (char_type_at(buf, i) == CharType::Hash) <==> buf[i] == ('#' as u8),
        (char_type_at(buf, i) == CharType::Colon) <==> buf[i] == (':' as u8),
        (char_type_at(buf, i) == CharType::Separator) <==> (buf[i] == (';' as u8) || buf[i] == (',' as u8)),
        (('+' as u8) == buf[i] || ('-' as u8) == buf[i] || ('*' as u8) == buf[i] || ('/' as u8) == buf[i] || ('=' as u8) == buf[i] || ('<' as u8) == buf[i]
            || ('>' as u8) == buf[i] || ('.' as u8) == buf[i] || ('!' as u8) == buf[i] || ('&' as u8) == buf[i] || ('|' as u8) == buf[i])
            ==> char_type_at(buf, i) == CharType::Operator,
        buf[i] >= 0x80 ==> (char_type_at(buf, i) == CharType::Unsupported || char_type_at(buf, i) == CharType::InvalidUtf8),
{
}

/// The length in bytes of the character starting at byte `i` (a `\r\n`
/// line ending counts as one character; an invalid byte is a character of
/// its own).
pub open spec fn char_len_at(buf: Seq<u8>, i: int) -> int {
    if i >= buf.len() {
        0
    } else if buf[i] < 0x80 {
        if buf[i] == 0x0d && i + 1 < buf.len() && buf[i + 1] == 0x0a {
            2
        } else {
            1
        }
    } else if valid_first_scalar(buf.subrange(i, buf.len() as int)) {
        length_of_first_scalar(buf.subrange(i, buf.len() as int))
    } else {
        1
    }
}

proof fn lemma_width2(b0: u8, b1: u8)
    by (bit_vector)
    requires
        0xc0 <= b0 <= 0xdf,
        0x80 <= b1 <= 0xbf,
    ensures
        ((((b0 & 0x1f) as u32) << 6) | ((b1 & 0x3f) as u32)) >= 0x80 <==> b0 >= 0xc2,
        ((((b0 & 0x1f) as u32) << 6) | ((b1 & 0x3f) as u32)) < 0xd800,
{
}

proof fn lemma_width3(b0: u8, b1: u8, b2: u8)
    by (bit_vector)
    requires
        0xe0 <= b0 <= 0xef,
        0x80 <= b1 <= 0xbf,
        0x80 <= b2 <= 0xbf,
    ensures
        ((((b0 & 0x0f) as u32) << 12) | (((b1 & 0x3f) as u32) << 6) | ((b2 & 0x3f) as u32)) >= 0x800
            <==> (b0 != 0xe0 || b1 >= 0xa0),
        (0xd800 <= ((((b0 & 0x0f) as u32) << 12) | (((b1 & 0x3f) as u32) << 6) | ((b2 & 0x3f) as u32))
            <= 0xdfff) <==> (b0 == 0xed && b1 >= 0xa0),
{
}

proof fn lemma_width4(b0: u8, b1: u8, b2: u8, b3: u8)
    by (bit_vector)
    requires
        0xf0 <= b0 <= 0xf7,
        0x80 <= b1 <= 0xbf,
        0x80 <= b2 <= 0xbf,
        0x80 <= b3 <= 0xbf,
    ensures
        (0x10000 <= ((((b0 & 0x07) as u32) << 18) | (((b1 & 0x3f) as u32) << 12) | (((b2 & 0x3f) as u32) << 6)
            | ((b3 & 0x3f) as u32)) <= 0x10ffff) <==> ((b0 != 0xf0 || b1 >= 0x90) && b0 <= 0xf4 && (b0
            != 0xf4 || b1 <= 0x8f)),
{
}

fn is_continuation(b: u8) -> (r: bool)
    ensures
        r == is_continuation_byte(b),
{
    0x80 <= b && b <= 0xbf
}

/// The length of the UTF-8 encoded scalar starting at byte `i` (a non-ASCII
/// byte), or 0 if no valid one starts there.
fn scalar_len(buf: &[u8], i: usize) -> (n: usize)
    requires
        i < buf@.len(),
        buf@[i as int] >= 0x80,
    ensures
        n > 0 <==> valid_first_scalar(buf@.subrange(i as int, buf@.len() as int)),
        n > 0 ==> n == length_of_first_scalar(buf@.subrange(i as int, buf@.len() as int)),
{
    let ghost s = buf@.subrange(i as int, buf@.len() as int);
    let len = buf.len();
    let b0 = buf[i];
    if 0xc0 <= b0 && b0 <= 0xdf {
        if len - i > 1 && is_continuation(buf[i + 1]) {
            proof {
                lemma_width2(b0, buf@[i + 1]);
                assert(s[1] == buf@[i + 1]);
            }
            if b0 >= 0xc2 {
                2
            } else {
                0
            }
        } else {
            0
        }
    } else if 0xe0 <= b0 && b0 <= 0xef {
        if len - i > 2 && is_continuation(buf[i + 1]) && is_continuation(buf[i + 2]) {
            let b1 = buf[i + 1];
            proof {
                lemma_width3(b0, b1, buf@[i + 2]);
                assert(s[1] == buf@[i + 1] && s[2] == buf@[i + 2]);
            }
            if (b0 != 0xe0 || b1 >= 0xa0) && !(b0 == 0xed && b1 >= 0xa0) {
                3
            } else {
                0
            }
        } else {
            0
        }
    } else if 0xf0 <= b0 && b0 <= 0xf7 {
        if len - i > 3 && is_continuation(buf[i + 1]) && is_continuation(buf[i + 2]) && is_continuation(
            buf[i + 3],
        ) {
            let b1 = buf[i + 1];
            proof {
                lemma_width4(b0, b1, buf@[i + 2], buf@[i + 3]);
                assert(s[1] == buf@[i + 1] && s[2] == buf@[i + 2] && s[3] == buf@[i + 3]);
            }
            if (b0 != 0xf0 || b1 >= 0x90) && b0 <= 0xf4 && (b0 != 0xf4 || b1 <= 0x8f) {
                4
            } else {
                0
            }
        } else {
            0
        }
    } else {
        0
    }
}

fn ascii_type(b: u8) -> (t: CharType)
    ensures
        t == ascii_char_type(b),
{
    if 0x30 <= b && b <= 0x39 {
        CharType::Digit
    } else if (0x61 <= b && b <= 0x7a) || (0x41 <= b && b <= 0x5a) || b == 0x5f {
        CharType::Identifier
    } else if b == 0x2b || b == 0x2d || b == 0x2a || b == 0x2f || b == 0x3d || b == 0x21 || b == 0x24
        || b == 0x25 || b == 0x5e || b == 0x26 || b == 0x3c || b == 0x3e || b == 0x3f || b == 0x2e
        || b == 0x7e || b == 0x5c || b == 0x40 || b == 0x7c {
        CharType::Operator
    } else if b == 0x3b || b == 0x2c {
        CharType::Separator
    } else if b == 0x3a {
        CharType::Colon
    } else if b == 0x28 {
        CharType::OpenParen
    } else if b == 0x29 {
        CharType::CloseParen
    } else if b == 0x7b {
        CharType::OpenCurly
    } else if b == 0x7d {
        CharType::CloseCurly
    } else if b == 0x23 {
        CharType::Hash
    } else if b == 0x0a {
        CharType::Newline
    } else if b == 0x0d {
        CharType::LineEnding
    } else if b == 0x20 {
        CharType::Space
    } else if b == 0x09 || b == 0x0b || b == 0x0c {
        CharType::HorizontalWhitespace
    } else {
        CharType::Unsupported
    }
}

/// The type and length of the character starting at byte `i`.
pub fn char_at(buf: &[u8], i: usize) -> (r: (CharType, usize))
    ensures
        r.0 == char_type_at(buf@, i as int),
        r.1 == char_len_at(buf@, i as int),
        i < buf@.len() ==> 1 <= r.1 <= buf@.len() - i,
        i >= buf@.len() ==> r.1 == 0,
{
    if i >= buf.len() {
        return (CharType::Eof, 0);
    }
    let b = buf[i];
    if b < 0x80 {
        if b == 0x0d && i + 1 < buf.len() && buf[i + 1] == 0x0a {
            (CharType::LineEnding, 2)
        } else {
            (ascii_type(b), 1)
        }
    } else {
        let n = scalar_len(buf, i);
        if n > 0 {
            (CharType::Unsupported, n)
        } else {
            (CharType::InvalidUtf8, 1)
        }
    }
}

impl CharType {
    /// Whitespace, line endings and the end of the source end a term.
    pub fn is_whitespace(self) -> (b: bool)
        ensures
            b == (self == CharType::Space || self == CharType::HorizontalWhitespace || self == CharType::Newline
                || self == CharType::LineEnding || self == CharType::Eof),
    {
        matches!(self, CharType::Space | CharType::HorizontalWhitespace | CharType::Newline | CharType::LineEnding | CharType::Eof)
    }

    pub fn is_close(self) -> (b: bool)
        ensures
            b == (self == CharType::CloseParen || self == CharType::CloseCurly),
    {
        matches!(self, CharType::CloseParen | CharType::CloseCurly)
    }

    pub fn is_separator(self) -> (b: bool)
        ensures
            b == (self == CharType::Separator),
    {
        matches!(self, CharType::Separator)
    }

    /// Characters that can only start an operand.
    pub fn is_always_right_operand(self) -> (b: bool)
        ensures
            b == (self == CharType::Digit || self == CharType::Identifier || self == CharType::OpenParen
                || self == CharType::OpenCurly || self == CharType::Unsupported || self == CharType::InvalidUtf8),
    {
        matches!(self, CharType::Digit | CharType::Identifier | CharType::OpenParen | CharType::OpenCurly | CharType::Unsupported | CharType::InvalidUtf8)
    }

    /// Characters that end a line (and so a comment).
    pub fn ends_line(self) -> (b: bool)
        ensures
            b == (self == CharType::Newline || self == CharType::LineEnding || self == CharType::Eof),
    {
        matches!(self, CharType::Newline | CharType::LineEnding | CharType::Eof)
    }
}

/// Reads a source buffer one character at a time.
pub struct Scanner<'p> {
    pub buffer: &'p [u8],
    pub index: usize,
}

impl<'p> Scanner<'p> {
    /// The scanner is at a position inside (or at the end of) its buffer.
    pub open spec fn wf(&self) -> bool {
        self.index <= self.buffer@.len()
    }

    pub fn new(buffer: &'p [u8]) -> (s: Self)
        ensures
            s.buffer == buffer,
            s.index == 0,
            s.wf(),
    {
        Scanner { buffer, index: 0 }
    }

    /// Consumes the next character and returns its type.
    pub fn next(&mut self) -> (t: CharType)
        requires
            old(self).wf(),
        ensures
            final(self).wf(),
            final(self).buffer == old(self).buffer,
            t == char_type_at(old(self).buffer@, old(self).index as int),
            final(self).index == old(self).index + char_len_at(old(self).buffer@, old(self).index as int),
    {
        let _len = self.buffer.len();
        let (t, n) = char_at(self.buffer, self.index);
        self.index = self.index + n;
        t
    }

    /// The type of the next character.
    pub fn peek(&self) -> (t: CharType)
        requires
            self.wf(),
        ensures
            t == char_type_at(self.buffer@, self.index as int),
    {
        char_at(self.buffer, self.index).0
    }

    /// The type of the character after the next one.
    pub fn peek_at(&self, n: usize) -> (t: CharType)
        requires
            self.wf(),
            n == 1,
        ensures
            t == char_type_at(self.buffer@, self.index + char_len_at(self.buffer@, self.index as int)),
    {
        let _len = self.buffer.len();
        let (_, len) = char_at(self.buffer, self.index);
        char_at(self.buffer, self.index + len).0
    }

    /// Consumes characters while they are of the given type; tells whether
    /// any was consumed.
    pub fn next_while(&mut self, char_type: CharType) -> (consumed: bool)
        requires
            old(self).wf(),
        ensures
            final(self).wf(),
            final(self).buffer == old(self).buffer,
            final(self).index == run_end(old(self).buffer@, old(self).index as int, CharClass::Only(char_type)),
            consumed == (final(self).index > old(self).index),
    {
        self.advance_while(CharClass::Only(char_type))
    }

    /// Consumes identifier characters (letters, `_` and digits); tells
    /// whether any was consumed.
    pub fn next_while_identifier(&mut self) -> (consumed: bool)
        requires
            old(self).wf(),
        ensures
            final(self).wf(),
            final(self).buffer == old(self).buffer,
            final(self).index == run_end(old(self).buffer@, old(self).index as int, CharClass::IdentifierChars),
            consumed == (final(self).index > old(self).index),
    {
        self.advance_while(CharClass::IdentifierChars)
    }

    /// Consumes spaces and other horizontal whitespace; tells whether any
    /// was consumed.
    pub fn next_while_horizontal_whitespace(&mut self) -> (consumed: bool)
        requires
            old(self).wf(),
        ensures
            final(self).wf(),
            final(self).buffer == old(self).buffer,
            final(self).index == run_end(old(self).buffer@, old(self).index as int, CharClass::HorizontalSpace),
            consumed == (final(self).index > old(self).index),
    {
        self.advance_while(CharClass::HorizontalSpace)
    }

    /// Consumes everything up to the next line ending or the end of the
    /// source.
    pub fn next_until_eol(&mut self) -> (consumed: bool)
        requires
            old(self).wf(),
        ensures
            final(self).wf(),
            final(self).buffer == old(self).buffer,
            final(self).index == run_end(old(self).buffer@, old(self).index as int, CharClass::LineContent),
            consumed == (final(self).index > old(self).index),
    {
        self.advance_while(CharClass::LineContent)
    }

    /// Consumes characters while they are in the given class.
    fn advance_while(&mut self, class: CharClass) -> (consumed: bool)
        requires
            old(self).wf(),
        ensures
            final(self).wf(),
            final(self).buffer == old(self).buffer,
            final(self).index == run_end(old(self).buffer@, old(self).index as int, class),
            consumed == (final(self).index > old(self).index),
    {
        let start = self.index;
        let _len = self.buffer.len();
        loop
            invariant
                self.wf(),
                self.buffer == old(self).buffer,
                start == old(self).index,
                start <= self.index,
                _len == self.buffer@.len(),
                run_end(self.buffer@, self.index as int, class) == run_end(self.buffer@, start as int, class),
            ensures
                run_end(self.buffer@, self.index as int, class) == self.index,
            decreases self.buffer@.len() - self.index,
        {
            let (t, n) = char_at(self.buffer, self.index);
            if self.index >= _len || !class.contains(t) {
                break;
            }
            let ghost before = self.index;
            self.index = self.index + n;
            assert(run_end(self.buffer@, before as int, class) == run_end(self.buffer@, self.index as int, class));
        }
        self.index > start
    }
}

/// A class of characters that a run is made of.
#[derive(Debug, Copy, Clone)]
pub enum CharClass {
    /// Characters of one type.
    Only(CharType),
    /// Letters, `_` and digits.
    IdentifierChars,
    /// Spaces and other horizontal whitespace.
    HorizontalSpace,
    /// Anything but a line ending.
    LineContent,
}

/// Whether characters of type `t` belong to `class`.
pub open spec fn in_class(t: CharType, class: CharClass) -> bool {
    match class {
        CharClass::Only(u) => t == u,
        CharClass::IdentifierChars => t == CharType::Identifier || t == CharType::Digit,
        CharClass::HorizontalSpace => t == CharType::Space || t == CharType::HorizontalWhitespace,
        CharClass::LineContent => !(t == CharType::Newline || t == CharType::LineEnding || t == CharType::Eof),
    }
}

impl CharClass {
    pub fn contains(self, t: CharType) -> (b: bool)
        ensures
            b == in_class(t, self),
    {
        match self {
            CharClass::Only(u) => t == u,
            CharClass::IdentifierChars => t == CharType::Identifier || t == CharType::Digit,
            CharClass::HorizontalSpace => t == CharType::Space || t == CharType::HorizontalWhitespace,
            CharClass::LineContent => !(t == CharType::Newline || t == CharType::LineEnding || t == CharType::Eof),
        }
    }
}

/// A character of positive length starts at every byte inside the buffer.
pub proof fn lemma_char_len_positive(buf: Seq<u8>, i: int)
    requires
        0 <= i < buf.len(),
    ensures
        1 <= char_len_at(buf, i) <= buf.len() - i,
{
    if buf[i] >= 0x80 && valid_first_scalar(buf.subrange(i, buf.len() as int)) {
        let s = buf.subrange(i, buf.len() as int);
        assert(length_of_first_scalar(s) <= s.len());
    }
}

/// Where a run of characters of the class starting at byte `i` ends.
pub open spec fn run_end(buf: Seq<u8>, i: int, class: CharClass) -> int
    decreases buf.len() - i,
{
    if 0 <= i < buf.len() && in_class(char_type_at(buf, i), class) && char_len_at(buf, i) > 0 {
        run_end(buf, i + char_len_at(buf, i), class)
    } else {
        i
    }
}

/// A run ends inside the buffer, after its start.
pub proof fn lemma_run_end_bounds(buf: Seq<u8>, i: int, class: CharClass)
    requires
        0 <= i <= buf.len(),
    ensures
        i <= run_end(buf, i, class) <= buf.len(),
    decreases buf.len() - i,
{
    if 0 <= i < buf.len() && in_class(char_type_at(buf, i), class) && char_len_at(buf, i) > 0 {
        lemma_char_len_positive(buf, i);
        lemma_run_end_bounds(buf, i + char_len_at(buf, i), class);
    }
}

/// Whether a character type ends a line.
pub open spec fn is_line_end(t: CharType) -> bool {
    t == CharType::Newline || t == CharType::LineEnding
}

/// The starts of the lines after the first, for the text read from byte
/// `i` on: the byte after each line ending.
pub open spec fn line_starts_after(buf: Seq<u8>, i: int) -> Seq<usize>
    decreases buf.len() - i,
{
    if 0 <= i < buf.len() && char_len_at(buf, i) > 0 {
        let n = i + char_len_at(buf, i);
        (if is_line_end(char_type_at(buf, i)) { seq![n as usize] } else { Seq::<usize>::empty() })
            + line_starts_after(buf, n)
    } else {
        Seq::<usize>::empty()
    }
}

/// The start of every line of a source: 0, and the byte after each line
/// ending.
pub open spec fn spec_line_starts(buf: Seq<u8>) -> Seq<usize> {
    seq![0usize] + line_starts_after(buf, 0)
}

/// Whether a class holds no line ending.
pub open spec fn class_has_no_line_end(class: CharClass) -> bool {
    match class {
        CharClass::Only(u) => !is_line_end(u),
        _ => true,
    }
}

/// A run without line endings starts no line.
pub proof fn lemma_run_no_line_starts(buf: Seq<u8>, i: int, class: CharClass)
    requires
        0 <= i <= buf.len(),
        class_has_no_line_end(class),
    ensures
        line_starts_after(buf, i) == line_starts_after(buf, run_end(buf, i, class)),
    decreases buf.len() - i,
{
    if 0 <= i < buf.len() && in_class(char_type_at(buf, i), class) && char_len_at(buf, i) > 0 {
        let n = i + char_len_at(buf, i);
        lemma_char_len_positive(buf, i);
        lemma_run_no_line_starts(buf, n, class);
        assert(line_starts_after(buf, i) =~= line_starts_after(buf, n));
    }
}

/// Whether a class holds only valid UTF-8 characters.
pub open spec fn class_is_text(class: CharClass) -> bool {
    match class {
        CharClass::Only(u) => u != CharType::InvalidUtf8,
        CharClass::LineContent => false,
        _ => true,
    }
}

/// Valid UTF-8 text followed by a character that is not an invalid byte
/// is valid UTF-8 text.
pub proof fn lemma_char_valid_utf8(buf: Seq<u8>, s: int, i: int)
    requires
        0 <= s <= i < buf.len(),
        valid_utf8(buf.subrange(s, i)),
        char_type_at(buf, i) != CharType::InvalidUtf8,
    ensures
        valid_utf8(buf.subrange(s, i + char_len_at(buf, i))),
{
    let t = buf.subrange(s, buf.len() as int);
    let k = i - s;
    assert(t.subrange(0, k) =~= buf.subrange(s, i));
    assert(t.subrange(k, t.len() as int) =~= buf.subrange(i, buf.len() as int));
    let b = buf[i];
    if b < 0x80 {
        assert(valid_first_scalar(buf.subrange(i, buf.len() as int))) by {
            assert((b & 0x7f) as u32 <= 0x7f) by (bit_vector);
            assert(b & 0x80 == 0) by (bit_vector)
                requires b < 0x80;
        }
        partial_valid_utf8_extend(t, k);
        assert(t.subrange(0, k + 1) =~= buf.subrange(s, i + 1));
        if b == 0x0d && i + 1 < buf.len() && buf[i + 1] == 0x0a {
            let b1 = buf[i + 1];
            assert(t.subrange(k + 1, t.len() as int) =~= buf.subrange(i + 1, buf.len() as int));
            assert(valid_first_scalar(buf.subrange(i + 1, buf.len() as int))) by {
                assert((b1 & 0x7f) as u32 <= 0x7f) by (bit_vector);
                assert(b1 & 0x80 == 0) by (bit_vector)
                    requires b1 < 0x80;
            }
            partial_valid_utf8_extend(t, k + 1);
            assert(t.subrange(0, k + 2) =~= buf.subrange(s, i + 2));
        }
    } else {
        partial_valid_utf8_extend(t, k);
        let n = length_of_first_scalar(buf.subrange(i, buf.len() as int));
        assert(t.subrange(0, k + n) =~= buf.subrange(s, i + n));
    }
}

/// Valid UTF-8 text followed by a run of text characters is valid UTF-8
/// text.
pub proof fn lemma_run_valid_utf8(buf: Seq<u8>, s: int, i: int, class: CharClass)
    requires
        0 <= s <= i <= buf.len(),
        valid_utf8(buf.subrange(s, i)),
        class_is_text(class),
    ensures
        valid_utf8(buf.subrange(s, run_end(buf, i, class))),
    decreases buf.len() - i,
{
    if 0 <= i < buf.len() && in_class(char_type_at(buf, i), class) && char_len_at(buf, i) > 0 {
        lemma_char_len_positive(buf, i);
        lemma_char_valid_utf8(buf, s, i);
        lemma_run_valid_utf8(buf, s, i + char_len_at(buf, i), class);
    }
}

/// The line starts after byte `i`: those of its character, then those of
/// the rest.
pub proof fn lemma_line_starts_step(buf: Seq<u8>, i: int)
    requires
        0 <= i < buf.len(),
    ensures
        line_starts_after(buf, i) == (if is_line_end(char_type_at(buf, i)) {
            seq![(i + char_len_at(buf, i)) as usize]
        } else {
            Seq::<usize>::empty()
        }) + line_starts_after(buf, i + char_len_at(buf, i)),
{
    lemma_char_len_positive(buf, i);
}

/// Whether a class holds only single-byte ASCII characters.
pub open spec fn class_is_ascii(class: CharClass) -> bool {
    match class {
        CharClass::Only(u) => !(u == CharType::Unsupported || u == CharType::InvalidUtf8 || u == CharType::LineEnding
            || u == CharType::Eof),
        CharClass::IdentifierChars | CharClass::HorizontalSpace => true,
        CharClass::LineContent => false,
    }
}

/// A run of single-byte ASCII characters is made of bytes below 0x80.
pub proof fn lemma_run_ascii(buf: Seq<u8>, i: int, class: CharClass)
    requires
        0 <= i <= buf.len(),
        class_is_ascii(class),
    ensures
        forall|k: int| i <= k < run_end(buf, i, class) ==> buf[k] < 0x80,
    decreases buf.len() - i,
{
    if 0 <= i < buf.len() && in_class(char_type_at(buf, i), class) && char_len_at(buf, i) > 0 {
        lemma_char_len_positive(buf, i);
        lemma_run_ascii(buf, i + char_len_at(buf, i), class);
        assert(buf[i] < 0x80);
        assert(char_len_at(buf, i) == 1);
    }
}

/// Bytes below 0x80 are valid UTF-8.
pub proof fn lemma_ascii_valid_utf8(buf: Seq<u8>, s: int, e: int)
    requires
        0 <= s <= e <= buf.len(),
        forall|k: int| s <= k < e ==> buf[k] < 0x80,
    ensures
        valid_utf8(buf.subrange(s, e)),
{
    let t = buf.subrange(s, buf.len() as int);
    assert(t.subrange(0, 0) =~= Seq::<u8>::empty());
    assert(forall|k: int| 0 <= k < e - s ==> #[trigger] t[k] == buf[s + k]);
    partial_valid_utf8_extend_ascii_block(t, 0, e - s);
    assert(t.subrange(0, e - s) =~= buf.subrange(s, e));
}

} // verus!
