//! Plain buffer values: coordinates, distances, visible line ranges and tokens.

use vstd::prelude::*;

verus! {

/// A coordinate in the buffer's line/column space.
#[derive(Clone, Copy, Debug, PartialEq, Eq, Hash, Structural)]
pub struct Position {
    pub line: usize,
    pub offset: usize,
}

/// Number of newline characters in `s`.
pub open spec fn newline_count(s: Seq<char>) -> nat
    decreases s.len(),
{
    if s.len() == 0 {
        0
    } else {
        newline_count(s.drop_last()) + if s.last() == '\n' { 1nat } else { 0nat }
    }
}

/// Number of characters after the last newline of `s` (all of them if it has none).
pub open spec fn trailing_len(s: Seq<char>) -> nat
    decreases s.len(),
{
    if s.len() == 0 {
        0
    } else if s.last() == '\n' {
        0
    } else {
        trailing_len(s.drop_last()) + 1
    }
}

pub proof fn lemma_counts_bounded(s: Seq<char>)
    ensures
        newline_count(s) + trailing_len(s) <= s.len(),
    decreases s.len(),
{
    if s.len() > 0 {
        lemma_counts_bounded(s.drop_last());
    }
}

/// `n` (a sum of counts), or the largest `usize` where `n` is larger.
pub open spec fn saturate(n: int) -> usize {
    if n > usize::MAX {
        usize::MAX
    } else {
        n as usize
    }
}

/// The position reached from `p` by moving over the text `s`; each coordinate
/// stops at the largest `usize`.
pub open spec fn advance(p: Position, s: Seq<char>) -> Position {
    if newline_count(s) > 0 {
        Position { line: saturate(p.line + newline_count(s)), offset: saturate(trailing_len(s) as int) }
    } else {
        Position { line: p.line, offset: saturate(p.offset + trailing_len(s)) }
    }
}

/// A line/offset delta covering a span of text.
#[derive(Clone, Copy, Debug, PartialEq, Eq, Structural)]
pub struct Distance {
    pub lines: usize,
    pub offset: usize,
}

impl Distance {
    /// The distance spanned by `s`: its newlines, and the length of its last line.
    pub fn from_str(s: &str) -> (d: Distance)
        ensures
            d.lines == newline_count(s@),
            d.offset == trailing_len(s@),
    {
        let n = s.unicode_len();
        let mut lines: usize = 0;
        let mut offset: usize = 0;
        let mut i: usize = 0;
        while i < n
            invariant
                n == s@.len(),
                i <= n,
                lines == newline_count(s@.take(i as int)),
                offset == trailing_len(s@.take(i as int)),
            decreases n - i,
        {
            let c = s.get_char(i);
            proof {
                assert(s@.take(i + 1).drop_last() =~= s@.take(i as int));
                lemma_counts_bounded(s@.take(i + 1));
            }
            if c == '\n' {
                lines = lines + 1;
                offset = 0;
            } else {
                offset = offset + 1;
            }
            i = i + 1;
        }
        assert(s@.take(n as int) =~= s@);
        Distance { lines, offset }
    }
}

impl Position {
    /// Moves this position over `d`: a distance with newlines moves down that
    /// many lines and restarts the column at the distance's offset; one without
    /// moves along the line. Each coordinate stops at the largest `usize`.
    pub fn add(&mut self, d: &Distance)
        ensures
            d.lines > 0 ==> *final(self) == (Position {
                line: saturate(old(self).line + d.lines),
                offset: d.offset,
            }),
            d.lines == 0 ==> *final(self) == (Position {
                line: old(self).line,
                offset: saturate(old(self).offset + d.offset),
            }),
    {
        if d.lines > 0 {
            self.line = self.line.saturating_add(d.lines);
            self.offset = d.offset;
        } else {
            self.offset = self.offset.saturating_add(d.offset);
        }
    }
}

/// A span of lines from `start` (included) to `end` (excluded).
#[derive(Clone, Copy, Debug, PartialEq, Eq, Structural)]
pub struct LineRange {
    pub start: usize,
    pub end: usize,
}

impl LineRange {
    pub open spec fn spec_includes(self, line: nat) -> bool {
        self.start <= line && line < self.end
    }

    pub fn new(start: usize, end: usize) -> (r: LineRange)
        ensures
            r.start == start,
            r.end == end,
    {
        LineRange { start, end }
    }

    /// Whether `line` lies in this range.
    pub fn includes(&self, line: usize) -> (r: bool)
        ensures
            r == self.spec_includes(line as nat),
    {
        self.start <= line && line < self.end
    }
}

/// The lexical category of a token.
#[derive(Clone, Copy, Debug, PartialEq, Eq, Structural)]
pub enum Category {
    Keyword,
    Identifier,
    Text,
    Whitespace,
    Comment,
    String,
    Brace,
    Bracket,
    Parenthesis,
    Operator,
    Integer,
    Boolean,
    Literal,
}

/// A lexeme with its category.
#[derive(Clone, Debug)]
pub struct Token {
    pub lexeme: String,
    pub category: Category,
}

impl View for Token {
    type V = (Seq<char>, Category);

    open spec fn view(&self) -> (Seq<char>, Category) {
        (self.lexeme@, self.category)
    }
}

impl PartialEq for Token {
    fn eq(&self, o: &Token) -> (r: bool) {
        self.lexeme == o.lexeme && self.category == o.category
    }
}

impl vstd::std_specs::cmp::PartialEqSpecImpl for Token {
    open spec fn obeys_eq_spec() -> bool {
        true
    }

    open spec fn eq_spec(&self, o: &Token) -> bool {
        self.lexeme@ == o.lexeme@ && self.category == o.category
    }
}

/// What the tagging pass reads from a buffer: its whole token stream and the
/// cursor's position.
pub struct Buffer {
    pub tokens: Vec<Token>,
    pub cursor: Position,
}

} // verus!
