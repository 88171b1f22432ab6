use vstd::prelude::*;

use crate::text::{
    chars_of_str, decimal, push_repeat, push_str, repeat_char, string_from_chars, usize_to_string,
};

verus! {

/// A half-open range `start..end` of character offsets into a source buffer.
#[derive(Debug, Clone, Copy, PartialEq, Eq, Structural)]
pub struct Span {
    pub start: usize,
    pub end: usize,
}

/// A value together with the span of source text it came from.
#[derive(Debug, Clone)]
pub struct Spanned<T> {
    pub data: T,
    pub span: Span,
}

impl Span {
    /// Whether `offset` lies inside the span.
    pub open spec fn spec_contains(self, offset: int) -> bool {
        self.start <= offset < self.end
    }

    pub fn contains(&self, offset: usize) -> (r: bool)
        ensures
            r == self.spec_contains(offset as int),
    {
        self.start <= offset && offset < self.end
    }

    /// The smallest span that covers both spans.
    pub open spec fn spec_merge(self, other: Span) -> Span {
        Span {
            start: if self.start <= other.start { self.start } else { other.start },
            end: if self.end >= other.end { self.end } else { other.end },
        }
    }

    pub fn merge(self, other: Span) -> (r: Span)
        ensures
            r == self.spec_merge(other),
    {
        Span {
            start: if self.start <= other.start { self.start } else { other.start },
            end: if self.end >= other.end { self.end } else { other.end },
        }
    }

    /// Pairs `data` with this span.
    pub fn attach<T>(self, data: T) -> (r: Spanned<T>)
        ensures
            r.data == data,
            r.span == self,
    {
        Spanned { data, span: self }
    }
}

impl<T> Spanned<T> {
    pub fn contains(&self, offset: usize) -> (r: bool)
        ensures
            r == self.span.spec_contains(offset as int),
    {
        self.span.contains(offset)
    }
}

/// Number of line breaks among the first `i` characters of `s`.
pub open spec fn newlines_before(s: Seq<char>, i: int) -> nat
    decreases i,
{
    if i <= 0 {
        0
    } else {
        newlines_before(s, i - 1) + if s[i - 1] == '\n' { 1nat } else { 0nat }
    }
}

/// Offset where the line holding offset `i` starts: just after the last line
/// break before `i`, or 0.
pub open spec fn line_start(s: Seq<char>, i: int) -> int
    decreases i,
{
    if i <= 0 {
        0
    } else if s[i - 1] == '\n' {
        i
    } else {
        line_start(s, i - 1)
    }
}

/// Offset where the line holding offset `i` ends: the first line break at or
/// after `i`, or the end of the text.
pub open spec fn line_end(s: Seq<char>, i: int) -> int
    decreases s.len() - i,
{
    if i >= s.len() {
        s.len() as int
    } else if s[i] == '\n' {
        i
    } else {
        line_end(s, i + 1)
    }
}

/// Row, column and line bounds of an offset.
#[derive(Debug, Clone, Copy)]
pub struct Position {
    pub row: usize,
    pub col: usize,
    pub line_start: usize,
    pub line_end: usize,
}

/// The position that `index_to_position` gives for offset `i` of `s`.
pub open spec fn position_of(s: Seq<char>, i: int) -> (usize, usize, usize, usize) {
    (
        newlines_before(s, i) as usize,
        (i - line_start(s, i)) as usize,
        line_start(s, i) as usize,
        line_end(s, i) as usize,
    )
}

/// A named text held as a sequence of characters.
pub struct Source {
    pub name: String,
    pub buffer: Vec<char>,
}

impl View for Source {
    type V = Seq<char>;

    open spec fn view(&self) -> Seq<char> {
        self.buffer@
    }
}

pub proof fn lemma_line_start_bounds(s: Seq<char>, i: int)
    requires
        0 <= i <= s.len(),
    ensures
        0 <= line_start(s, i) <= i,
        forall|k: int| line_start(s, i) <= k < i ==> s[k] != '\n',
        line_start(s, i) > 0 ==> s[line_start(s, i) - 1] == '\n',
    decreases i,
{
    if i > 0 && s[i - 1] != '\n' {
        lemma_line_start_bounds(s, i - 1);
    }
}

pub proof fn lemma_line_end_bounds(s: Seq<char>, i: int)
    requires
        0 <= i <= s.len(),
    ensures
        i <= line_end(s, i) <= s.len(),
        forall|k: int| i <= k < line_end(s, i) ==> s[k] != '\n',
        line_end(s, i) < s.len() ==> s[line_end(s, i)] == '\n',
    decreases s.len() - i,
{
    if i < s.len() && s[i] != '\n' {
        lemma_line_end_bounds(s, i + 1);
    }
}

pub proof fn lemma_newlines_bound(s: Seq<char>, i: int)
    ensures
        newlines_before(s, i) <= if i <= 0 { 0 } else { i },
    decreases i,
{
    if i > 0 {
        lemma_newlines_bound(s, i - 1);
    }
}

/// Offset where line `r` starts when the scan begins at offset `i` on the
/// line counted as row 0: just after the `r`-th line break from `i`, or the end
/// of the text when there are fewer line breaks.
pub open spec fn row_start_from(s: Seq<char>, i: int, r: nat) -> int
    decreases s.len() - i,
{
    if r == 0 {
        i
    } else if i >= s.len() {
        s.len() as int
    } else if s[i] == '\n' {
        row_start_from(s, i + 1, (r - 1) as nat)
    } else {
        row_start_from(s, i + 1, r)
    }
}

/// Offset where line `r` of the text starts.
pub open spec fn row_start(s: Seq<char>, r: nat) -> int {
    row_start_from(s, 0, r)
}

/// The offset at row `row` and column `col`: the column is kept within the
/// line, and a row past the last line gives the end of the text.
pub open spec fn index_at(s: Seq<char>, row: nat, col: nat) -> int {
    let start = row_start(s, row);
    let end = line_end(s, start);
    if start + col <= end {
        start + col
    } else {
        end
    }
}

/// Scanning `r` line breaks on from the start of the line holding `i` reaches
/// the start of the line `r` rows further down.
proof fn lemma_row_start_from_line(s: Seq<char>, i: int, k: int)
    requires
        0 <= i <= k <= s.len(),
        forall|j: int| i <= j < k ==> s[j] != '\n',
    ensures
        row_start_from(s, i, 0) == i,
        forall|r: nat| r > 0 ==> #[trigger] row_start_from(s, i, r) == row_start_from(s, k, r),
    decreases k - i,
{
    if i < k {
        lemma_row_start_from_line(s, i + 1, k);
        assert forall|r: nat| r > 0 implies #[trigger] row_start_from(s, i, r) == row_start_from(s, k, r) by {
            assert(row_start_from(s, i, r) == row_start_from(s, i + 1, r));
        }
    }
}

/// The line of row `newlines_before(s, i)` is the line that holds `i`.
pub proof fn lemma_row_start_of_offset(s: Seq<char>, i: int)
    requires
        0 <= i <= s.len(),
    ensures
        row_start(s, newlines_before(s, i)) == line_start(s, i),
    decreases i,
{
    lemma_line_start_bounds(s, i);
    let ls = line_start(s, i);
    if ls == 0 {
        lemma_no_newlines_before(s, i);
        assert(newlines_before(s, i) == 0);
    } else {
        // the line break just before the line holding `i`
        let b = ls - 1;
        assert(s[b] == '\n');
        lemma_row_start_of_offset(s, b);
        lemma_line_start_bounds(s, b);
        if line_start(s, b) == 0 {
            lemma_no_newlines_before(s, b);
        }
        lemma_newlines_same_line(s, ls, i);
        assert(newlines_before(s, ls) == newlines_before(s, b) + 1);
        lemma_row_start_after_break(s, newlines_before(s, b), line_start(s, b), b);
    }
}

/// No line break comes before an offset on the first line.
proof fn lemma_no_newlines_before(s: Seq<char>, i: int)
    requires
        0 <= i <= s.len(),
        line_start(s, i) == 0,
    ensures
        newlines_before(s, i) == 0,
    decreases i,
{
    if i > 0 {
        assert(s[i - 1] != '\n');
        lemma_no_newlines_before(s, i - 1);
    }
}

/// Offsets on one line have as many line breaks before them.
proof fn lemma_newlines_same_line(s: Seq<char>, a: int, b: int)
    requires
        0 <= a <= b <= s.len(),
        forall|j: int| a <= j < b ==> s[j] != '\n',
    ensures
        newlines_before(s, a) == newlines_before(s, b),
    decreases b - a,
{
    if a < b {
        lemma_newlines_same_line(s, a, b - 1);
    }
}

/// One row further down than the line holding the line break `b` starts just
/// after `b`.
proof fn lemma_row_start_after_break(s: Seq<char>, r: nat, ls: int, b: int)
    requires
        0 <= ls <= b < s.len(),
        s[b] == '\n',
        forall|j: int| ls <= j < b ==> s[j] != '\n',
        row_start(s, r) == ls,
        ls == 0 || s[ls - 1] == '\n',
        ls == 0 ==> r == 0,
    ensures
        row_start(s, r + 1) == b + 1,
    decreases r,
{
    lemma_row_start_from_line(s, ls, b);
    assert(row_start_from(s, b, 1) == row_start_from(s, b + 1, 0));
    lemma_row_start_shift(s, 0, r);
    assert(row_start_from(s, row_start(s, r), 1) == row_start(s, r + 1));
}

/// Scanning `r + 1` line breaks is scanning `r` of them and then one more.
proof fn lemma_row_start_shift(s: Seq<char>, i: int, r: nat)
    requires
        0 <= i <= s.len(),
    ensures
        row_start_from(s, row_start_from(s, i, r), 1) == row_start_from(s, i, r + 1)
            || row_start_from(s, i, r) == s.len(),
    decreases s.len() - i, r,
{
    if r > 0 && i < s.len() {
        if s[i] == '\n' {
            lemma_row_start_shift(s, i + 1, (r - 1) as nat);
        } else {
            lemma_row_start_shift(s, i + 1, r);
        }
    } else if r == 0 {
    } else {
    }
}

/// Offsets on one line share the end of that line.
pub proof fn lemma_line_end_same_line(s: Seq<char>, a: int, b: int)
    requires
        0 <= a <= b <= s.len(),
        forall|j: int| a <= j < b ==> s[j] != '\n',
    ensures
        line_end(s, a) == line_end(s, b),
    decreases b - a,
{
    if a < b {
        lemma_line_end_same_line(s, a + 1, b);
    }
}

proof fn lemma_row_start_from_inside(s: Seq<char>, i: int, r: nat)
    requires
        0 <= i <= s.len(),
    ensures
        i <= row_start_from(s, i, r) <= s.len(),
    decreases s.len() - i,
{
    if r > 0 && i < s.len() {
        if s[i] == '\n' {
            lemma_row_start_from_inside(s, i + 1, (r - 1) as nat);
        } else {
            lemma_row_start_from_inside(s, i + 1, r);
        }
    }
}

/// Every row and column name an offset of the text.
pub proof fn lemma_index_at_inside(s: Seq<char>, row: nat, col: nat)
    ensures
        0 <= row_start(s, row) <= index_at(s, row, col) <= line_end(s, row_start(s, row)) <= s.len(),
{
    lemma_row_start_from_inside(s, 0, row);
    lemma_line_end_bounds(s, row_start(s, row));
}

/// The lines that show where a span starts in the text `s` of source `name`:
/// the file, row and column (counted from 1), the line, and carets under the
/// part of the line that the span covers (one at least). A span starting past
/// the end is shown at the end.
pub open spec fn span_text(s: Seq<char>, name: Seq<char>, span: Span) -> Seq<char> {
    let a = if span.start <= s.len() { span.start as int } else { s.len() as int };
    let ls = line_start(s, a);
    let le = line_end(s, a);
    let e = if span.end <= a { a } else if span.end >= le { le } else { span.end as int };
    let n = if e - a >= 1 { e - a } else { 1 };
    " --> "@ + name + ":"@ + decimal(newlines_before(s, a) + 1int) + ":"@ + decimal(a - ls + 1)
        + "\n"@ + "  | "@ + s.subrange(ls, le) + "\n"@ + "  | "@ + repeat_char(' ', (a - ls) as nat)
        + repeat_char('^', n as nat) + "\n"@
}

/// Going from an offset to its row and column and back gives the offset.
pub proof fn law_position_round_trip(s: Seq<char>, i: int)
    requires
        0 <= i <= s.len(),
        s.len() <= usize::MAX,
    ensures
        index_at(s, position_of(s, i).0 as nat, position_of(s, i).1 as nat) == i,
{
    lemma_line_start_bounds(s, i);
    lemma_line_end_bounds(s, i);
    lemma_newlines_bound(s, i);
    lemma_row_start_of_offset(s, i);
    lemma_line_end_same_line(s, line_start(s, i), i);
}

impl Source {
    pub fn new(name: String, text: &str) -> (r: Source)
        ensures
            r@ == text@,
            r.name == name,
    {
        Source { name, buffer: chars_of_str(text) }
    }

    pub fn empty(name: String) -> (r: Source)
        ensures
            r@ == Seq::<char>::empty(),
            r.name == name,
    {
        Source { name, buffer: Vec::new() }
    }

    pub fn len(&self) -> (r: usize)
        ensures
            r == self@.len(),
    {
        self.buffer.len()
    }

    pub fn char_at(&self, i: usize) -> (c: char)
        requires
            i < self@.len(),
        ensures
            c == self@[i as int],
    {
        self.buffer[i]
    }

    /// The text between offsets `start` and `end`.
    pub fn substring(&self, start: usize, end: usize) -> (r: String)
        requires
            start <= end <= self@.len(),
        ensures
            r@ == self@.subrange(start as int, end as int),
    {
        let mut chars: Vec<char> = Vec::new();
        let mut i = start;
        while i < end
            invariant
                start <= i <= end,
                end <= self.buffer@.len(),
                chars@ == self@.subrange(start as int, i as int),
            decreases end - i,
        {
            chars.push(self.buffer[i]);
            i += 1;
            assert(chars@ =~= self@.subrange(start as int, i as int));
        }
        string_from_chars(&chars)
    }

    /// The whole text.
    pub fn content(&self) -> (r: String)
        ensures
            r@ == self@,
    {
        string_from_chars(&self.buffer)
    }

    /// Inserts `c` before offset `index`.
    pub fn insert(&mut self, index: usize, c: char)
        requires
            index <= old(self)@.len(),
        ensures
            final(self)@ == old(self)@.insert(index as int, c),
            final(self).name == old(self).name,
    {
        self.buffer.insert(index, c);
    }

    /// Removes the character at offset `index`.
    pub fn remove(&mut self, index: usize)
        requires
            index < old(self)@.len(),
        ensures
            final(self)@ == old(self)@.remove(index as int),
            final(self).name == old(self).name,
    {
        self.buffer.remove(index);
    }

    /// Removes the text inside `span`.
    pub fn remove_span(&mut self, span: Span)
        requires
            span.start <= span.end <= old(self)@.len(),
        ensures
            final(self)@ == old(self)@.subrange(0, span.start as int) + old(self)@.subrange(
                span.end as int,
                old(self)@.len() as int,
            ),
            final(self).name == old(self).name,
    {
        let ghost s0 = self@;
        let mut n = span.end - span.start;
        while n > 0
            invariant
                span.start + n <= self@.len(),
                self@ == s0.subrange(0, span.start as int) + s0.subrange(
                    span.end - n,
                    s0.len() as int,
                ),
                span.start <= span.end <= s0.len(),
                n <= span.end - span.start,
                self.name == old(self).name,
            decreases n,
        {
            self.buffer.remove(span.start);
            n -= 1;
            assert(self@ =~= s0.subrange(0, span.start as int) + s0.subrange(
                span.end - n,
                s0.len() as int,
            ));
        }
    }

    /// Appends `text` at the end.
    pub fn append(&mut self, text: &str)
        ensures
            final(self)@ == old(self)@ + text@,
            final(self).name == old(self).name,
    {
        let mut more = chars_of_str(text);
        self.buffer.append(&mut more);
    }

    /// Number of lines: one more than the number of line breaks.
    pub fn line_count(&self) -> (r: usize)
        requires
            self@.len() < usize::MAX,
        ensures
            r == newlines_before(self@, self@.len() as int) + 1,
    {
        let mut count: usize = 1;
        let mut i: usize = 0;
        while i < self.buffer.len()
            invariant
                i <= self@.len(),
                self@.len() < usize::MAX,
                count == newlines_before(self@, i as int) + 1,
            decreases self@.len() - i,
        {
            proof {
                lemma_newlines_bound(self@, i as int);
            }
            if self.buffer[i] == '\n' {
                count += 1;
            }
            i += 1;
        }
        count
    }

    /// Row, column and line bounds of offset `index`.
    pub fn index_to_position(&self, index: usize) -> (r: Position)
        requires
            index <= self@.len(),
        ensures
            (r.row, r.col, r.line_start, r.line_end) == position_of(self@, index as int),
            r.row == newlines_before(self@, index as int),
            r.col == index - line_start(self@, index as int),
            r.line_start == line_start(self@, index as int),
            r.line_end == line_end(self@, index as int),
    {
        let ghost s = self@;
        // start of the line
        let mut start = index;
        while start > 0 && self.buffer[start - 1] != '\n'
            invariant
                start <= index <= s.len(),
                s == self@,
                line_start(s, start as int) == line_start(s, index as int),
            decreases start,
        {
            start -= 1;
        }
        // end of the line
        let mut end = index;
        while end < self.buffer.len() && self.buffer[end] != '\n'
            invariant
                index <= end <= s.len(),
                s == self@,
                line_end(s, end as int) == line_end(s, index as int),
            decreases s.len() - end,
        {
            end += 1;
        }
        // row: line breaks before the offset
        let mut row: usize = 0;
        let mut i: usize = 0;
        while i < index
            invariant
                i <= index <= s.len(),
                s == self@,
                row == newlines_before(s, i as int),
            decreases index - i,
        {
            proof {
                lemma_newlines_bound(s, i as int);
            }
            if self.buffer[i] == '\n' {
                row += 1;
            }
            i += 1;
        }
        proof {
            lemma_line_start_bounds(s, index as int);
            lemma_line_end_bounds(s, index as int);
            lemma_newlines_bound(s, index as int);
        }
        Position { row, col: index - start, line_start: start, line_end: end }
    }

    /// The offset at row `row` and column `col`, the column kept within the line.
    pub fn position_to_index(&self, row: usize, col: usize) -> (r: usize)
        ensures
            r == index_at(self@, row as nat, col as nat),
    {
        let ghost s = self@;
        let n = self.buffer.len();
        let mut i: usize = 0;
        let mut left = row;
        while left > 0 && i < n
            invariant
                s == self@,
                n == s.len(),
                i <= n,
                row_start_from(s, i as int, left as nat) == row_start(s, row as nat),
            decreases n - i,
        {
            if self.buffer[i] == '\n' {
                left -= 1;
            }
            i += 1;
        }
        let start = i;
        let mut end = start;
        while end < n && self.buffer[end] != '\n'
            invariant
                s == self@,
                n == s.len(),
                start <= end <= n,
                line_end(s, end as int) == line_end(s, start as int),
            decreases n - end,
        {
            end += 1;
        }
        proof {
            lemma_line_end_bounds(s, start as int);
        }
        if col <= end - start {
            start + col
        } else {
            end
        }
    }

    /// The start and end offsets of every line, in order.
    pub fn lines(&self) -> (r: Vec<(usize, usize)>)
        ensures
            r@.len() == newlines_before(self@, self@.len() as int) + 1,
            forall|k: int|
                0 <= k < r@.len() ==> #[trigger] r@[k] == (
                    row_start(self@, k as nat) as usize,
                    line_end(self@, row_start(self@, k as nat)) as usize,
                ),
    {
        let ghost s = self@;
        let n = self.buffer.len();
        let mut out: Vec<(usize, usize)> = Vec::new();
        let mut start: usize = 0;
        let mut i: usize = 0;
        while i < n
            invariant
                s == self@,
                n == s.len(),
                start <= i <= n,
                out@.len() == newlines_before(s, i as int),
                start as int == row_start(s, out@.len() as nat),
                start == 0 || s[start - 1] == '\n',
                start == 0 ==> out@.len() == 0,
                forall|j: int| start <= j < i ==> s[j] != '\n',
                forall|k: int|
                    0 <= k < out@.len() ==> #[trigger] out@[k] == (
                        row_start(s, k as nat) as usize,
                        line_end(s, row_start(s, k as nat)) as usize,
                    ),
            decreases n - i,
        {
            proof {
                lemma_newlines_bound(s, i as int);
            }
            if self.buffer[i] == '\n' {
                proof {
                    lemma_line_end_same_line(s, start as int, i as int);
                    lemma_row_start_after_break(s, out@.len() as nat, start as int, i as int);
                }
                out.push((start, i));
                start = i + 1;
            }
            i += 1;
        }
        proof {
            lemma_line_end_same_line(s, start as int, n as int);
        }
        out.push((start, n));
        out
    }

    /// Shows where `span` starts: file, row and column, the line, and carets
    /// under the spanned part of it.
    pub fn print_span(&self, span: Span) -> (r: String)
        requires
            self@.len() < usize::MAX,
        ensures
            r@ == span_text(self@, self.name@, span),
    {
        let len = self.buffer.len();
        let a = if span.start <= len { span.start } else { len };
        let pos = self.index_to_position(a);
        proof {
            lemma_line_start_bounds(self@, a as int);
            lemma_line_end_bounds(self@, a as int);
            lemma_newlines_bound(self@, a as int);
        }
        let e = if span.end <= a {
            a
        } else if span.end >= pos.line_end {
            pos.line_end
        } else {
            span.end
        };
        let n = if e - a >= 1 { e - a } else { 1 };
        let mut out = " --> ".to_owned();
        push_str(&mut out, self.name.as_str());
        push_str(&mut out, ":");
        push_str(&mut out, usize_to_string(pos.row + 1).as_str());
        push_str(&mut out, ":");
        push_str(&mut out, usize_to_string(pos.col + 1).as_str());
        push_str(&mut out, "\n");
        push_str(&mut out, "  | ");
        push_str(&mut out, self.substring(pos.line_start, pos.line_end).as_str());
        push_str(&mut out, "\n");
        push_str(&mut out, "  | ");
        push_repeat(&mut out, ' ', pos.col);
        push_repeat(&mut out, '^', n);
        push_str(&mut out, "\n");
        out
    }
}

} // verus!
