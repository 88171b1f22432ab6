use vstd::prelude::*;

use crate::editor::{
    pad, pad_spec, token_color, token_color_spec, tokens_of, BasePane, Color, Diagnostic, Editor,
    EditorContext, EditorPane,
};
use crate::lexer::Token;
use crate::source::{line_end, line_start, newlines_before, row_start, Source, Span, Spanned};
use crate::text::{chars_of_str, decimal, push_repeat, push_str, repeat_char, usize_to_string};

verus! {

// ---------------------------------------------------------------------------
// What the screen shows, computed; the terminal only prints it.
// ---------------------------------------------------------------------------

/// The header of the diagnostics: the number of errors.
pub open spec fn diagnostics_header(n: int) -> Seq<char> {
    " "@ + decimal(n) + " error"@ + if n == 1 { Seq::<char>::empty() } else { "s"@ }
}

/// The line of a diagnostic: where its span starts (kept within the text),
/// counted from 1, and its message.
pub open spec fn diagnostic_line(s: Seq<char>, start: int, message: Seq<char>) -> Seq<char> {
    let a = if start <= s.len() { start } else { s.len() as int };
    "  "@ + decimal(newlines_before(s, a) + 1int) + ":"@ + decimal(a - line_start(s, a) + 1) + " — "@
        + message
}

impl EditorContext {
    /// The rows of the diagnostics area, each fitted to `cols`: none when
    /// there is no room, else the header and then a line for each error that
    /// fits.
    pub fn diagnostic_rows(&self, cols: usize, rows: usize) -> (r: Vec<String>)
        requires
            self.source@.len() < usize::MAX,
        ensures
            rows == 0 ==> r@.len() == 0,
            rows > 0 ==> {
                let n = self.output.errors@.len();
                let shown = if n <= rows - 1 { n as int } else { rows - 1 };
                &&& r@.len() == shown + 1
                &&& r@[0]@ == pad_spec(diagnostics_header(n as int), cols as nat)
                &&& forall|k: int|
                    0 <= k < shown ==> (#[trigger] r@[k + 1])@ == pad_spec(
                        diagnostic_line(
                            self.source@,
                            self.output.errors@[k].span.start as int,
                            self.output.errors@[k].message@,
                        ),
                        cols as nat,
                    )
            },
    {
        let mut out: Vec<String> = Vec::new();
        if rows == 0 {
            return out;
        }
        let n = self.output.errors.len();
        let mut header = " ".to_owned();
        push_str(&mut header, usize_to_string(n).as_str());
        push_str(&mut header, " error");
        if n != 1 {
            push_str(&mut header, "s");
        }
        out.push(pad(header.as_str(), cols));
        let len = self.source.len();
        let mut k: usize = 0;
        while k < n && k < rows - 1
            invariant
                k <= n,
                n == self.output.errors@.len(),
                len == self.source@.len(),
                rows > 0,
                k <= rows - 1,
                self.source@.len() < usize::MAX,
                out@.len() == k + 1,
                out@[0]@ == pad_spec(diagnostics_header(n as int), cols as nat),
                forall|j: int|
                    0 <= j < k ==> (#[trigger] out@[j + 1])@ == pad_spec(
                        diagnostic_line(
                            self.source@,
                            self.output.errors@[j].span.start as int,
                            self.output.errors@[j].message@,
                        ),
                        cols as nat,
                    ),
            decreases n - k,
        {
            let diag = &self.output.errors[k];
            let a = if diag.span.start <= len { diag.span.start } else { len };
            let pos = self.source.index_to_position(a);
            proof {
                crate::source::lemma_newlines_bound(self.source@, a as int);
                crate::source::lemma_line_start_bounds(self.source@, a as int);
            }
            let mut line = "  ".to_owned();
            push_str(&mut line, usize_to_string(pos.row + 1).as_str());
            push_str(&mut line, ":");
            push_str(&mut line, usize_to_string(pos.col + 1).as_str());
            push_str(&mut line, " — ");
            push_str(&mut line, diag.message.as_str());
            out.push(pad(line.as_str(), cols));
            k += 1;
        }
        out
    }
}

/// The label of pane `i` in the tab bar.
pub open spec fn pane_label_text(ed: Editor, i: int) -> Seq<char> {
    if i == 0 {
        "Editor"@
    } else if i == 1 {
        "Logs"@
    } else {
        ed.text_panes@[i - 2].label@
    }
}

/// The tab of pane `i`: its number from 1 and its label.
pub open spec fn tab_label(ed: Editor, i: int) -> Seq<char> {
    " "@ + decimal(i + 1) + "-"@ + pane_label_text(ed, i) + " "@
}

/// The tab bar from pane `i` on, where `at` columns are taken: each tab, cut
/// to what is left of the width, and a bar between tabs, until the width is
/// used up; the rest is filled. Each piece tells whether it is the active
/// tab.
pub open spec fn tab_pieces(ed: Editor, cols: int, i: int, at: int) -> Seq<(Seq<char>, bool)>
    decreases 2 + ed.text_panes@.len() - i,
{
    if i < 0 || i >= 2 + ed.text_panes@.len() {
        seq![(pad_spec(Seq::empty(), (cols - at) as nat), false)]
    } else {
        let l0 = tab_label(ed, i);
        let l = if at + l0.len() > cols { pad_spec(l0, (cols - at) as nat) } else { l0 };
        let next = at + l.len() + 1;
        seq![(l, i == ed.active)] + if next >= cols {
            Seq::empty()
        } else {
            seq![("│"@, false)] + tab_pieces(ed, cols, i + 1, next)
        }
    }
}

/// The pieces of text of the tab bar, each with whether it is the active tab.
pub open spec fn tab_bar_spec(ed: Editor, cols: int) -> Seq<(Seq<char>, bool)> {
    seq![("  │"@, false)] + tab_pieces(ed, cols, 0, 3)
}

/// A piece of the tab bar.
pub struct TabPiece {
    pub text: String,
    pub active: bool,
}

pub open spec fn piece_views(p: Seq<TabPiece>) -> Seq<(Seq<char>, bool)> {
    p.map_values(|t: TabPiece| (t.text@, t.active))
}

proof fn lemma_piece_views_push(p: Seq<TabPiece>, t: TabPiece)
    ensures
        piece_views(p.push(t)) == piece_views(p) + seq![(t.text@, t.active)],
{
    assert(piece_views(p.push(t)) =~= piece_views(p) + seq![(t.text@, t.active)]);
}

fn push_piece(pieces: &mut Vec<TabPiece>, text: String, active: bool)
    ensures
        piece_views(final(pieces)@) == piece_views(old(pieces)@) + seq![(text@, active)],
{
    let t = TabPiece { text, active };
    proof {
        lemma_piece_views_push(pieces@, t);
    }
    pieces.push(t);
}

impl Editor {
    /// The tab bar of a terminal `cols` wide.
    #[verifier::loop_isolation(false)]
    pub fn tab_bar(&self, cols: usize) -> (r: Vec<TabPiece>)
        requires
            cols >= 3,
            self.text_panes@.len() + 3 < usize::MAX,
        ensures
            piece_views(r@) == tab_bar_spec(*self, cols as int),
    {
        let count = 2 + self.text_panes.len();
        let mut pieces: Vec<TabPiece> = Vec::new();
        push_piece(&mut pieces, "  │".to_owned(), false);
        let ghost head = piece_views(pieces@);
        let mut at: usize = 3;
        let mut i: usize = 0;
        while i < count
            invariant
                count == 2 + self.text_panes@.len(),
                i <= count,
                at <= cols,
                i > 0 ==> at < cols,
                piece_views(pieces@) + tab_pieces(*self, cols as int, i as int, at as int) == head
                    + tab_pieces(*self, cols as int, 0, 3),
            decreases count - i,
        {
            let ghost before = piece_views(pieces@);
            let mut label = " ".to_owned();
            push_str(&mut label, usize_to_string(i + 1).as_str());
            push_str(&mut label, "-");
            push_str(&mut label, self.pane_label(i));
            push_str(&mut label, " ");
            let width = crate::text::chars_of_str(label.as_str()).len();
            assert(label@ == tab_label(*self, i as int));
            if width > cols - at {
                label = pad(label.as_str(), cols - at);
            }
            let taken = crate::text::chars_of_str(label.as_str()).len();
            let active = i == self.active;
            push_piece(&mut pieces, label, active);
            if taken >= cols - at || taken + 1 >= cols - at {
                assert(piece_views(pieces@) =~= head + tab_pieces(*self, cols as int, 0, 3));
                return pieces;
            }
            at = at + taken + 1;
            push_piece(&mut pieces, "│".to_owned(), false);
            assert(piece_views(pieces@) + tab_pieces(*self, cols as int, i + 1, at as int) =~= before
                + tab_pieces(*self, cols as int, i as int, (at - taken - 1) as int));
            i += 1;
        }
        push_piece(&mut pieces, pad("", cols - at), false);
        proof {
            reveal_strlit("");
        }
        assert(piece_views(pieces@) =~= head + tab_pieces(*self, cols as int, 0, 3));
        pieces
    }
}


/// The gutter of a row: its number right-aligned in three columns, and a space.
pub open spec fn gutter_text(n: int) -> Seq<char> {
    let d = decimal(n);
    (if d.len() < 3 { repeat_char(' ', (3 - d.len()) as nat) } else { Seq::<char>::empty() }) + d
        + " "@
}

/// The first `w` characters of `t`, filled out with spaces to `w`.
pub open spec fn fitted(t: Seq<char>, w: nat) -> Seq<char> {
    let m = if t.len() <= w { t.len() } else { w };
    t.take(m as int) + repeat_char(' ', (w - m) as nat)
}

/// The text of line `r`.
pub open spec fn line_text(s: Seq<char>, r: nat) -> Seq<char> {
    s.subrange(row_start(s, r), line_end(s, row_start(s, r)))
}

/// How many lines a view of `rows` rows shows from line `scroll` on, of a
/// text with `lines` lines.
pub open spec fn visible_count(lines: int, scroll: int, rows: int) -> int {
    if scroll >= lines {
        0
    } else if lines - scroll <= rows {
        lines - scroll
    } else {
        rows
    }
}

/// Columns left for text once the gutter is taken.
pub open spec fn text_cols(cols: int) -> int {
    if cols >= 4 { cols - 4 } else { 0 }
}

/// One row of a read-only pane.
pub struct TextRow {
    pub gutter: String,
    pub text: String,
    pub current: bool,
}

fn gutter(n: usize) -> (r: String)
    ensures
        r@ == gutter_text(n as int),
{
    let d = usize_to_string(n);
    let width = chars_of_str(d.as_str()).len();
    let mut out = String::new();
    if width < 3 {
        push_repeat(&mut out, ' ', 3 - width);
    }
    push_str(&mut out, d.as_str());
    push_str(&mut out, " ");
    assert(out@ =~= gutter_text(n as int));
    out
}

fn fit_text(source: &Source, start: usize, end: usize, w: usize) -> (r: String)
    requires
        start <= end <= source@.len(),
    ensures
        r@ == fitted(source@.subrange(start as int, end as int), w as nat),
{
    let m = if end - start <= w { end - start } else { w };
    let mut out = source.substring(start, start + m);
    push_repeat(&mut out, ' ', w - m);
    assert(source@.subrange(start as int, end as int).take(m as int) =~= source@.subrange(
        start as int,
        start + m,
    ));
    out
}

impl BasePane {
    /// The rows shown from the first row on: the line number, the line cut
    /// and filled to the width left by the gutter, and whether the cursor is
    /// on it.
    #[verifier::loop_isolation(false)]
    pub fn visible_rows(&self, source: &Source, rows: usize, cols: usize) -> (r: Vec<TextRow>)
        requires
            self.cursor <= source@.len() < usize::MAX,
        ensures
            r@.len() == visible_count(
                newlines_before(source@, source@.len() as int) + 1int,
                self.scroll_row as int,
                rows as int,
            ),
            forall|k: int|
                0 <= k < r@.len() ==> {
                    &&& (#[trigger] r@[k]).gutter@ == gutter_text(self.scroll_row + k + 1)
                    &&& r@[k].text@ == fitted(
                        line_text(source@, (self.scroll_row + k) as nat),
                        text_cols(cols as int) as nat,
                    )
                    &&& r@[k].current == (self.scroll_row + k == newlines_before(
                        source@,
                        self.cursor as int,
                    ))
                },
    {
        let w = if cols >= 4 { cols - 4 } else { 0 };
        let cursor_row = source.index_to_position(self.cursor).row;
        let lines = source.lines();
        let mut out: Vec<TextRow> = Vec::new();
        let mut i = self.scroll_row;
        while i < lines.len() && out.len() < rows
            invariant
                lines@.len() == newlines_before(source@, source@.len() as int) + 1,
                forall|k: int|
                    0 <= k < lines@.len() ==> #[trigger] lines@[k] == (
                        row_start(source@, k as nat) as usize,
                        line_end(source@, row_start(source@, k as nat)) as usize,
                    ),
                self.scroll_row <= i,
                self.scroll_row >= lines@.len() ==> i == self.scroll_row,
                self.scroll_row < lines@.len() ==> i <= lines@.len(),
                out@.len() == i - self.scroll_row,
                out@.len() <= rows,
                forall|k: int|
                    0 <= k < out@.len() ==> {
                        &&& (#[trigger] out@[k]).gutter@ == gutter_text(self.scroll_row + k + 1)
                        &&& out@[k].text@ == fitted(
                            line_text(source@, (self.scroll_row + k) as nat),
                            w as nat,
                        )
                        &&& out@[k].current == (self.scroll_row + k == cursor_row)
                    },
            decreases lines@.len() - i,
        {
            let (start, end) = lines[i];
            proof {
                crate::source::lemma_index_at_inside(source@, i as nat, 0);
            }
            let row = TextRow {
                gutter: gutter(i + 1),
                text: fit_text(source, start, end, w),
                current: i == cursor_row,
            };
            let ghost prev = out@;
            out.push(row);
            assert(out@[out@.len() - 1] == row);
            assert(forall|k: int| 0 <= k < prev.len() ==> out@[k] == prev[k]);
            i += 1;
        }
        out
    }
}


// ---------------------------------------------------------------------------
// The editing pane's rows
// ---------------------------------------------------------------------------

/// A character on screen with its colours; `None` keeps the terminal's own.
#[derive(Debug, Clone, Copy, PartialEq, Eq, Structural)]
pub struct Cell {
    pub ch: char,
    pub fg: Option<Color>,
    pub bg: Option<Color>,
}

/// Index of the first token, from the `i`-th on, whose span holds `o`, or -1.
pub open spec fn covering_from(toks: Seq<Spanned<Token>>, o: int, i: int) -> int
    decreases toks.len() - i,
{
    if i < 0 || i >= toks.len() {
        -1
    } else if toks[i].span.start <= o < toks[i].span.end {
        i
    } else {
        covering_from(toks, o, i + 1)
    }
}

/// The largest end of a token, from the `i`-th on, at or before `o`, and at
/// least `floor`.
pub open spec fn last_end_before(toks: Seq<Spanned<Token>>, o: int, i: int, floor: int) -> int
    decreases toks.len() - i,
{
    if i < 0 || i >= toks.len() {
        floor
    } else {
        let e = toks[i].span.end as int;
        last_end_before(toks, o, i + 1, if floor < e <= o { e } else { floor })
    }
}

/// The smallest start of a token, from the `i`-th on, after `o`, and at most
/// `ceil`.
pub open spec fn first_start_after(toks: Seq<Spanned<Token>>, o: int, i: int, ceil: int) -> int
    decreases toks.len() - i,
{
    if i < 0 || i >= toks.len() {
        ceil
    } else {
        let b = toks[i].span.start as int;
        first_start_after(toks, o, i + 1, if o < b < ceil { b } else { ceil })
    }
}

/// The run of a line (from `ls` to `le`) that is drawn in one colour with
/// offset `o`: the part of the line inside the token that holds `o`, or the
/// gap between tokens around `o`.
pub open spec fn segment_of(toks: Seq<Spanned<Token>>, ls: int, le: int, o: int) -> (int, int) {
    let c = covering_from(toks, o, 0);
    if c >= 0 {
        (
            if toks[c].span.start >= ls { toks[c].span.start as int } else { ls },
            if toks[c].span.end <= le { toks[c].span.end as int } else { le },
        )
    } else {
        (last_end_before(toks, o, 0, ls), first_start_after(toks, o, 0, le))
    }
}

/// The colour of the characters at `o`: its token's, or dark grey between
/// tokens.
pub open spec fn base_color(toks: Seq<Spanned<Token>>, o: int) -> Color {
    let c = covering_from(toks, o, 0);
    if c >= 0 { token_color_spec(toks[c].data) } else { Color::DarkGrey }
}

pub open spec fn overlaps(span: Span, a: int, b: int) -> bool {
    span.start < b && span.end > a
}

pub open spec fn error_overlaps(errs: Seq<Diagnostic>, a: int, b: int) -> bool {
    exists|k: int| 0 <= k < errs.len() && overlaps(#[trigger] errs[k].span, a, b)
}

pub open spec fn error_holds(errs: Seq<Diagnostic>, o: int) -> bool {
    exists|k: int| 0 <= k < errs.len() && (#[trigger] errs[k].span).spec_contains(o)
}

/// How the character at `o` of the line `ls..le` is drawn: plainly in its
/// colour, unless its run holds the focused cursor or meets the selected
/// node or an error; then the cursor, the selection and the errors are
/// marked, in that order of precedence.
pub open spec fn cell_at(
    ctx: EditorContext,
    cursor: int,
    hl: Option<Span>,
    ls: int,
    le: int,
    o: int,
) -> Cell {
    let toks = tokens_of(ctx.output.result);
    let errs = ctx.output.errors@;
    let base = base_color(toks, o);
    let (a, b) = segment_of(toks, ls, le, o);
    let marked = (ctx.is_focus && a <= cursor < b) || (hl matches Some(h) && overlaps(h, a, b))
        || error_overlaps(errs, a, b);
    let c = ctx.source@[o];
    if !marked {
        Cell { ch: c, fg: Some(base), bg: None }
    } else if o == cursor {
        Cell { ch: c, fg: Some(Color::White), bg: Some(base) }
    } else if hl matches Some(h) && h.spec_contains(o) {
        Cell { ch: c, fg: Some(base), bg: Some(Color::Grey) }
    } else if error_holds(errs, o) {
        Cell { ch: c, fg: Some(Color::White), bg: Some(Color::Red) }
    } else {
        Cell { ch: c, fg: Some(base), bg: None }
    }
}

/// The cells of the line `ls..le` in `w` columns: its characters, a cursor
/// block at the end of the line where the focused cursor is, and blanks.
pub open spec fn line_cells_spec(
    ctx: EditorContext,
    cursor: int,
    hl: Option<Span>,
    ls: int,
    le: int,
    w: int,
) -> Seq<Cell> {
    let n = if le - ls <= w { le - ls } else { w };
    let text = Seq::new(n as nat, |k: int| cell_at(ctx, cursor, hl, ls, le, ls + k));
    let block = if cursor == le && n < w && ctx.is_focus {
        seq![Cell { ch: ' ', fg: None, bg: Some(Color::Black) }]
    } else {
        Seq::empty()
    };
    text + block + Seq::new((w - n - block.len()) as nat, |k: int| Cell { ch: ' ', fg: None, bg: None })
}

fn covering(toks: &[Spanned<Token>], o: usize) -> (r: Option<usize>)
    ensures
        match r {
            Some(i) => covering_from(toks@, o as int, 0) == i && i < toks@.len(),
            None => covering_from(toks@, o as int, 0) == -1,
        },
{
    let mut i: usize = 0;
    while i < toks.len()
        invariant
            i <= toks@.len(),
            covering_from(toks@, o as int, i as int) == covering_from(toks@, o as int, 0),
        decreases toks@.len() - i,
    {
        if toks[i].span.start <= o && o < toks[i].span.end {
            return Some(i);
        }
        i += 1;
    }
    None
}

fn segment(toks: &[Spanned<Token>], ls: usize, le: usize, o: usize) -> (r: (usize, usize))
    requires
        ls <= o < le,
    ensures
        (r.0 as int, r.1 as int) == segment_of(toks@, ls as int, le as int, o as int),
{
    match covering(toks, o) {
        Some(c) => {
            let sp = toks[c].span;
            (if sp.start >= ls { sp.start } else { ls }, if sp.end <= le { sp.end } else { le })
        },
        None => {
            let mut lo = ls;
            let mut hi = le;
            let mut i: usize = 0;
            while i < toks.len()
                invariant
                    i <= toks@.len(),
                    ls <= lo <= o < hi <= le,
                    last_end_before(toks@, o as int, i as int, lo as int) == last_end_before(
                        toks@,
                        o as int,
                        0,
                        ls as int,
                    ),
                    first_start_after(toks@, o as int, i as int, hi as int) == first_start_after(
                        toks@,
                        o as int,
                        0,
                        le as int,
                    ),
                decreases toks@.len() - i,
            {
                let sp = toks[i].span;
                if lo < sp.end && sp.end <= o {
                    lo = sp.end;
                }
                if o < sp.start && sp.start < hi {
                    hi = sp.start;
                }
                i += 1;
            }
            (lo, hi)
        },
    }
}

fn errors_overlap(errs: &Vec<Diagnostic>, a: usize, b: usize) -> (r: bool)
    ensures
        r == error_overlaps(errs@, a as int, b as int),
{
    let mut k: usize = 0;
    while k < errs.len()
        invariant
            k <= errs@.len(),
            forall|j: int| 0 <= j < k ==> !overlaps(#[trigger] errs@[j].span, a as int, b as int),
        decreases errs@.len() - k,
    {
        if errs[k].span.start < b && errs[k].span.end > a {
            return true;
        }
        k += 1;
    }
    false
}

fn errors_hold(errs: &Vec<Diagnostic>, o: usize) -> (r: bool)
    ensures
        r == error_holds(errs@, o as int),
{
    let mut k: usize = 0;
    while k < errs.len()
        invariant
            k <= errs@.len(),
            forall|j: int| 0 <= j < k ==> !(#[trigger] errs@[j].span).spec_contains(o as int),
        decreases errs@.len() - k,
    {
        if errs[k].span.contains(o) {
            return true;
        }
        k += 1;
    }
    false
}

/// The colour of the characters at `o`.
fn color_at(toks: &[Spanned<Token>], o: usize) -> (r: Color)
    ensures
        r == base_color(toks@, o as int),
{
    match covering(toks, o) {
        Some(c) => token_color(&toks[c].data),
        None => Color::DarkGrey,
    }
}

/// One row of the editing pane: the line number and the cells of the line.
pub struct EditorRow {
    pub gutter: String,
    pub cells: Vec<Cell>,
}

impl EditorPane {
    /// How the character at `o` of the line `ls..le` is drawn.
    fn cell(&self, ctx: &EditorContext, hl: Option<Span>, ls: usize, le: usize, o: usize) -> (r: Cell)
        requires
            ls <= o < le <= ctx.source@.len(),
        ensures
            r == cell_at(*ctx, self.0.cursor as int, hl, ls as int, le as int, o as int),
    {
        let toks = ctx.output.tokens();
        let cursor = self.0.cursor;
        let base = color_at(toks, o);
        let (a, b) = segment(toks, ls, le, o);
        let marked = (ctx.is_focus && a <= cursor && cursor < b) || (match hl {
            Some(h) => h.start < b && h.end > a,
            None => false,
        }) || errors_overlap(&ctx.output.errors, a, b);
        let c = ctx.source.char_at(o);
        if !marked {
            Cell { ch: c, fg: Some(base), bg: None }
        } else if o == cursor {
            Cell { ch: c, fg: Some(Color::White), bg: Some(base) }
        } else if match hl {
            Some(h) => h.contains(o),
            None => false,
        } {
            Cell { ch: c, fg: Some(base), bg: Some(Color::Grey) }
        } else if errors_hold(&ctx.output.errors, o) {
            Cell { ch: c, fg: Some(Color::White), bg: Some(Color::Red) }
        } else {
            Cell { ch: c, fg: Some(base), bg: None }
        }
    }

    /// The cells of the line `ls..le` in `w` columns.
    pub fn line_cells(&self, ctx: &EditorContext, hl: Option<Span>, ls: usize, le: usize, w: usize) -> (r: Vec<Cell>)
        requires
            ls <= le <= ctx.source@.len(),
        ensures
            r@ == line_cells_spec(*ctx, self.0.cursor as int, hl, ls as int, le as int, w as int),
    {
        let n = if le - ls <= w { le - ls } else { w };
        let mut out: Vec<Cell> = Vec::new();
        let mut k: usize = 0;
        while k < n
            invariant
                k <= n,
                n <= le - ls,
                ls <= le <= ctx.source@.len(),
                out@ =~= Seq::new(
                    k as nat,
                    |j: int| cell_at(*ctx, self.0.cursor as int, hl, ls as int, le as int, ls + j),
                ),
            decreases n - k,
        {
            out.push(self.cell(ctx, hl, ls, le, ls + k));
            k += 1;
        }
        let ghost text = out@;
        let mut taken = n;
        if self.0.cursor == le && n < w && ctx.is_focus {
            out.push(Cell { ch: ' ', fg: None, bg: Some(Color::Black) });
            taken += 1;
        }
        let ghost with_block = out@;
        while taken < w
            invariant
                n <= taken <= w,
                out@.len() == with_block.len() + (taken - (with_block.len() - text.len()) - n),
                with_block.len() - text.len() <= 1,
                taken >= n + (with_block.len() - text.len()),
                out@ =~= with_block + Seq::new(
                    (taken - n - (with_block.len() - text.len())) as nat,
                    |j: int| Cell { ch: ' ', fg: None, bg: None },
                ),
            decreases w - taken,
        {
            out.push(Cell { ch: ' ', fg: None, bg: None });
            taken += 1;
        }
        out
    }

    /// The rows shown from the first row on: the line number and the cells
    /// of the line, with the selected node of the path marked.
    #[verifier::loop_isolation(false)]
    pub fn visible_rows(&self, ctx: &EditorContext, rows: usize, cols: usize) -> (r: Vec<EditorRow>)
        requires
            ctx.wf(),
            ctx.source@.len() < usize::MAX,
        ensures
            r@.len() == visible_count(
                newlines_before(ctx.source@, ctx.source@.len() as int) + 1int,
                self.0.scroll_row as int,
                rows as int,
            ),
            forall|k: int|
                0 <= k < r@.len() ==> {
                    let start = row_start(ctx.source@, (self.0.scroll_row + k) as nat);
                    &&& (#[trigger] r@[k]).gutter@ == gutter_text(self.0.scroll_row + k + 1)
                    &&& r@[k].cells@ == line_cells_spec(
                        *ctx,
                        self.0.cursor as int,
                        match ctx.ast_cursor {
                            Some(i) => Some(ctx.ast_path@[i as int].span),
                            None => None,
                        },
                        start,
                        line_end(ctx.source@, start),
                        text_cols(cols as int),
                    )
                },
    {
        let hl = match ctx.ast_cursor {
            Some(i) => Some(ctx.ast_path[i].span),
            None => None,
        };
        let w = if cols >= 4 { cols - 4 } else { 0 };
        let lines = ctx.source.lines();
        let mut out: Vec<EditorRow> = Vec::new();
        let mut i = self.0.scroll_row;
        while i < lines.len() && out.len() < rows
            invariant
                lines@.len() == newlines_before(ctx.source@, ctx.source@.len() as int) + 1,
                forall|k: int|
                    0 <= k < lines@.len() ==> #[trigger] lines@[k] == (
                        row_start(ctx.source@, k as nat) as usize,
                        line_end(ctx.source@, row_start(ctx.source@, k as nat)) as usize,
                    ),
                self.0.scroll_row <= i,
                self.0.scroll_row >= lines@.len() ==> i == self.0.scroll_row,
                self.0.scroll_row < lines@.len() ==> i <= lines@.len(),
                out@.len() == i - self.0.scroll_row,
                out@.len() <= rows,
                forall|k: int|
                    0 <= k < out@.len() ==> {
                        let start = row_start(ctx.source@, (self.0.scroll_row + k) as nat);
                        &&& (#[trigger] out@[k]).gutter@ == gutter_text(self.0.scroll_row + k + 1)
                        &&& out@[k].cells@ == line_cells_spec(
                            *ctx,
                            self.0.cursor as int,
                            hl,
                            start,
                            line_end(ctx.source@, start),
                            w as int,
                        )
                    },
            decreases lines@.len() - i,
        {
            let (start, end) = lines[i];
            proof {
                crate::source::lemma_index_at_inside(ctx.source@, i as nat, 0);
            }
            let row = EditorRow { gutter: gutter(i + 1), cells: self.line_cells(ctx, hl, start, end, w) };
            let ghost prev = out@;
            out.push(row);
            assert(out@[out@.len() - 1] == row);
            assert(forall|k: int| 0 <= k < prev.len() ==> out@[k] == prev[k]);
            i += 1;
        }
        out
    }
}

} // verus!
