//! The source reader: hands out a text one character at a time and keeps
//! track of the line and the column.
use crate::text::to_chars;
use vstd::prelude::*;

verus! {

/// What the reader hands out: a character, the end of a line, or the end of
/// the input.
#[derive(Clone, Copy, Debug, PartialEq, Eq, Structural)]
pub enum CharType {
    Char(char),
    Eol,
    Eof,
}

/// The number of line feeds in `s`.
pub open spec fn line_feeds(s: Seq<char>) -> nat
    decreases s.len(),
{
    if s.len() == 0 {
        0
    } else {
        line_feeds(s.drop_last()) + if s.last() == '\n' {
            1nat
        } else {
            0nat
        }
    }
}

/// The number of characters of `s` after its last line feed.
pub open spec fn tail_length(s: Seq<char>) -> nat
    decreases s.len(),
{
    if s.len() == 0 || s.last() == '\n' {
        0
    } else {
        tail_length(s.drop_last()) + 1
    }
}

/// The mathematical content of a [`CharReader`].
pub struct ReaderView {
    /// The text that is read.
    pub source: Seq<char>,
    /// The number of characters consumed, line feeds included.
    pub pos: int,
    /// Whether a line is open: a character of it was handed out, and its end was not.
    pub in_line: bool,
    /// The number of the current line, from 1; 0 before the first line.
    pub line: int,
    /// The number of characters handed out of the current line.
    pub column: int,
}

/// The reader at the start of `source`.
pub open spec fn reader_at_start(source: Seq<char>) -> ReaderView {
    ReaderView { source, pos: 0, in_line: false, line: 0, column: 0 }
}

/// Whether the last character consumed belongs to a line that its line feed
/// has not closed.
pub open spec fn inside_line(source: Seq<char>, pos: int) -> bool {
    0 < pos <= source.len() && source[pos - 1] != '\n'
}

/// Whether the line and the column of `r` are those of its position: the
/// line is the number of lines begun, the column is the number of characters
/// consumed of the current line, or the length of the line that just ended.
pub open spec fn positioned(r: ReaderView) -> bool {
    &&& 0 <= r.pos <= r.source.len()
    &&& r.in_line ==> inside_line(r.source, r.pos)
    &&& inside_line(r.source, r.pos) && r.pos < r.source.len() ==> r.in_line
    &&& r.line == line_feeds(r.source.take(r.pos)) + if inside_line(r.source, r.pos) {
        1int
    } else {
        0int
    }
    &&& r.column == if 0 < r.pos && !inside_line(r.source, r.pos) {
        tail_length(r.source.take(r.pos - 1))
    } else {
        tail_length(r.source.take(r.pos))
    }
}

/// What the reader hands out next, and the reader after that.
///
/// A character other than a line feed is handed out as it is and counts one
/// column; the first one of a line starts that line at column 1. A line feed
/// ends the line; so does the end of the input while a line is open. After
/// that the end of the input is handed out, again and again.
pub open spec fn stepped(r: ReaderView) -> (CharType, ReaderView) {
    if r.pos < r.source.len() {
        let c = r.source[r.pos];
        let line = if r.in_line {
            r.line
        } else {
            r.line + 1
        };
        if c == '\n' {
            (
                CharType::Eol,
                ReaderView {
                    pos: r.pos + 1,
                    in_line: false,
                    line,
                    column: if r.in_line {
                        r.column
                    } else {
                        0
                    },
                    ..r
                },
            )
        } else {
            (
                CharType::Char(c),
                ReaderView {
                    pos: r.pos + 1,
                    in_line: true,
                    line,
                    column: if r.in_line {
                        r.column + 1
                    } else {
                        1
                    },
                    ..r
                },
            )
        }
    } else if r.in_line {
        (CharType::Eol, ReaderView { in_line: false, ..r })
    } else {
        (CharType::Eof, r)
    }
}

/// A step keeps the line and the column those of the position.
pub proof fn lemma_stepped_positioned(r: ReaderView)
    requires
        positioned(r),
    ensures
        positioned(stepped(r).1),
{
    if r.pos < r.source.len() {
        let read = r.source.take(r.pos);
        let more = r.source.take(r.pos + 1);
        assert(more.drop_last() == read);
        assert(more.last() == r.source[r.pos]);
        assert(line_feeds(more) == line_feeds(read) + if r.source[r.pos] == '\n' {
            1nat
        } else {
            0nat
        });
        if r.pos > 0 {
            assert(read.drop_last() == r.source.take(r.pos - 1));
            assert(read.last() == r.source[r.pos - 1]);
            assert(!inside_line(r.source, r.pos) ==> tail_length(read) == 0);
        } else {
            assert(tail_length(read) == 0);
        }
        assert(stepped(r).1.pos == r.pos + 1);
        assert(r.source.take(r.pos + 1 - 1) == read);
    }
}

/// The end of the input is final: once it was handed out, the reader stays
/// as it is and hands it out again.
pub proof fn lemma_end_is_final(r: ReaderView)
    requires
        stepped(r).0 == CharType::Eof,
    ensures
        stepped(r).1 == r,
        stepped(stepped(r).1).0 == CharType::Eof,
{
}

/// Reads a text character by character.
#[derive(Clone, Debug)]
pub struct CharReader {
    source: Vec<char>,
    pos: usize,
    in_line: bool,
    line: usize,
    column: usize,
}

impl View for CharReader {
    type V = ReaderView;

    closed spec fn view(&self) -> ReaderView {
        ReaderView {
            source: self.source@,
            pos: self.pos as int,
            in_line: self.in_line,
            line: self.line as int,
            column: self.column as int,
        }
    }
}

/// The line and the column never exceed the number of characters consumed.
proof fn lemma_position_bounds(s: Seq<char>)
    ensures
        line_feeds(s) + tail_length(s) <= s.len(),
        s.len() > 0 && s.last() != '\n' ==> line_feeds(s) + tail_length(s) < s.len() + 1,
        s.len() > 0 && s.last() != '\n' ==> line_feeds(s) < s.len(),
    decreases s.len(),
{
    if s.len() > 0 {
        lemma_position_bounds(s.drop_last());
    }
}

impl CharReader {
    /// Whether the reader is in a state that reading leads to.
    pub closed spec fn wf(&self) -> bool {
        positioned(self@)
    }

    /// The line and the column of a reader are those of its position.
    pub proof fn lemma_positioned(&self)
        requires
            self.wf(),
        ensures
            positioned(self@),
    {
    }

    /// A reader at the start of `source`.
    pub fn new(source: &str) -> (r: Self)
        ensures
            r.wf(),
            r@ == reader_at_start(source@),
    {
        let r = CharReader { source: to_chars(source), pos: 0, in_line: false, line: 0, column: 0 };
        assert(r.source@.take(0).len() == 0);
        r
    }

    /// The number of the current line, from 1; 0 before the first line.
    pub fn line(&self) -> (r: usize)
        ensures
            r == self@.line,
    {
        self.line
    }

    /// The number of characters handed out of the current line.
    pub fn column(&self) -> (r: usize)
        ensures
            r == self@.column,
    {
        self.column
    }

    /// Hands out the next character, the end of the line, or the end of the input.
    pub fn next(&mut self) -> (r: CharType)
        requires
            old(self).wf(),
        ensures
            final(self).wf(),
            (r, final(self)@) == stepped(old(self)@),
    {
        proof {
            lemma_stepped_positioned(self@);
            lemma_position_bounds(self.source@.take(self.pos as int));
            if self.pos > 0 {
                lemma_position_bounds(self.source@.take(self.pos - 1));
            }
        }
        if self.pos < self.source.len() {
            let c = self.source[self.pos];
            self.pos += 1;
            if !self.in_line {
                self.line += 1;
                self.column = 0;
            }
            if c == '\n' {
                self.in_line = false;
                CharType::Eol
            } else {
                self.in_line = true;
                self.column += 1;
                CharType::Char(c)
            }
        } else if self.in_line {
            self.in_line = false;
            CharType::Eol
        } else {
            CharType::Eof
        }
    }
}

} // verus!
