use vstd::prelude::*;

use crate::history::{live_buffer, rows_view, spec_redo, spec_undo, state_fits, History, State};
use crate::position::Position;
use crate::row::{
    back_nonspace, back_space, back_while_nonspace, back_while_space, cell_at_visual, cells_view,
    classify, clone_cells, fwd_nonspace, fwd_space, fwd_while_nonspace, fwd_while_space, sanitize_state,
    str_cells, text_of, visual_to_cell, visual_width_upto, width_sum, Cell, CellV, Row, RowV,
};
use crate::syntax::{Syntax, SyntaxV, TokenState, TokenStateV, TokenType};
use crate::style::{Color, Style};
use crate::terminal::{cells_of, place_cell, place_cells, PixelV, Terminal};
use crate::tui::{Input, KeyCode, KeyInput};
use crate::unicode::{char_display_width, char_to_string, char_width};
use crate::util::{
    has_trailing_cr, lemma_split_boundary, lemma_split_len, pow10, spec_lines, split_on_newline,
    strip_cr,
};
use crate::error::Error;

verus! {

broadcast use crate::history::lemma_history_version_bounds;

/// How many rows and columns of margin the viewport keeps around the cursor.
pub const EXTRA_GAP: usize = 2;

/// The minimum of two lengths, as used all over the coordinate math.
pub open spec fn spec_min(a: int, b: int) -> int {
    if a <= b {
        a
    } else {
        b
    }
}

/// A row value carrying the given cells and no highlighting yet.
pub open spec fn fresh_row(cells: Seq<CellV>) -> RowV {
    RowV { cells, syntax: Seq::<TokenType>::empty(), final_state: TokenStateV::Normal }
}

/// The selection an anchor makes together with the cursor: the ordered pair
/// of endpoints, or nothing when no anchor is set.
pub open spec fn sel_between(anchor: Option<Position>, cursor: Position) -> Option<
    (Position, Position),
> {
    match anchor {
        Option::Some(a) => if a.spec_lt(cursor) {
            Some((a, cursor))
        } else {
            Some((cursor, a))
        },
        Option::None => None,
    }
}

/// The merged row a range delete leaves behind: the begin row up to the
/// begin column, then the end row from the end column on (columns clamped
/// to their rows).
pub open spec fn merged_cells(brow: Seq<CellV>, erow: Seq<CellV>, bx: int, ex: int) -> Seq<CellV> {
    brow.take(spec_min(bx, brow.len() as int)) + erow.skip(spec_min(ex, erow.len() as int))
}

/// The buffer after deleting the selection from `b` to `e`: the rows of the
/// range collapse into one merged row.
pub open spec fn spec_delete_range(buf: Seq<RowV>, b: Position, e: Position) -> Seq<RowV>
    recommends
        b.y <= e.y < buf.len(),
{
    buf.take(b.y as int).push(
        fresh_row(merged_cells(buf[b.y as int].cells, buf[e.y as int].cells, b.x as int, e.x as int)),
    ) + buf.skip(e.y + 1)
}

/// The cell a typed character becomes: its text and its displayed width
/// (control characters count zero columns).
pub open spec fn char_cell(c: char) -> CellV {
    CellV {
        text: seq![c],
        width: (match char_display_width(c) {
            Option::Some(w) => w as nat,
            Option::None => 0nat,
        }),
    }
}

/// Recomputing the highlighting of every row from `i` on, threading the
/// highlight state.
pub open spec fn resyntax_from(syn: SyntaxV, buf: Seq<RowV>, i: int, st: TokenStateV) -> Seq<RowV>
    decreases buf.len() - i,
{
    if i < 0 || i >= buf.len() {
        buf
    } else {
        let c = classify(syn, buf[i].cells, st);
        let row2 = RowV { cells: buf[i].cells, syntax: c.0, final_state: sanitize_state(c.1) };
        resyntax_from(syn, buf.update(i, row2), i + 1, c.1)
    }
}

/// The buffer with every row's highlighting recomputed from a fresh state.
pub open spec fn resyntax(syn: SyntaxV, buf: Seq<RowV>) -> Seq<RowV> {
    resyntax_from(syn, buf, 0, TokenStateV::Normal)
}

/// The rows a text loads into.
pub open spec fn spec_loaded(s: Seq<char>) -> Seq<RowV> {
    spec_lines(s).map_values(|l: Seq<char>| fresh_row(str_cells(l)))
}

/// Split a text into document rows: one row per line-feed-separated line,
/// stripping one trailing carriage return per line, and reporting whether
/// any line had one.
pub fn split_text(text: &str) -> (r: (Vec<Row>, bool))
    requires
        text@.len() < usize::MAX,
    ensures
        r.0@.len() == split_on_newline(text@).len(),
        rows_view(r.0@) == spec_loaded(text@),
        forall|k: int|
            0 <= k < r.0@.len() ==> text_of(#[trigger] rows_view(r.0@)[k].cells) == spec_lines(
                text@,
            )[k],
        r.1 == has_trailing_cr(split_on_newline(text@)),
        r.0@.len() >= 1,
{
    let ghost raw = split_on_newline(text@);
    proof {
        lemma_split_len(text@);
    }
    let n = text.unicode_len();
    let mut rows: Vec<Row> = Vec::new();
    let mut crlf = false;
    let mut start: usize = 0;
    let ghost mut done: Seq<Seq<char>> = Seq::empty();
    proof {
        assert(text@.skip(0) =~= text@);
    }
    while start <= n
        invariant
            n == text@.len(),
            n < usize::MAX,
            start <= n + 1,
            done.len() == rows@.len(),
            raw == split_on_newline(text@),
            start <= n ==> raw =~= done + split_on_newline(text@.skip(start as int)),
            start == n + 1 ==> raw =~= done,
            forall|k: int|
                0 <= k < done.len() ==> #[trigger] rows@[k]@ == fresh_row(str_cells(strip_cr(done[k]))),
            forall|k: int|
                0 <= k < done.len() ==> text_of((#[trigger] rows@[k]@).cells) == strip_cr(done[k]),
            crlf == has_trailing_cr(done),
        decreases n + 1 - start,
    {
        let ghost rem = text@.skip(start as int);
        let mut i: usize = start;
        while i < n && text.get_char(i) != '\n'
            invariant
                start <= i <= n,
                n == text@.len(),
                forall|j: int| start <= j < i ==> text@[j] != '\n',
            decreases n - i,
        {
            i += 1;
        }
        proof {
            assert(forall|j: int| 0 <= j < i - start ==> #[trigger] rem[j] == text@[j + start]);
            lemma_split_boundary(rem, i - start);
        }
        let ghost line = rem.take(i - start);
        let mut endx = i;
        if endx > start && text.get_char(endx - 1) == '\r' {
            crlf = true;
            endx -= 1;
            proof {
                assert(line.last() == text@[i - 1]);
            }
        }
        let piece = text.substring_char(start, endx);
        proof {
            if endx < i {
                assert(line.len() > 0 && line.last() == '\r');
                assert(piece@ =~= strip_cr(line));
            } else {
                assert(line.len() == 0 || line.last() != '\r');
                assert(piece@ =~= strip_cr(line));
            }
        }
        let row = Row::from_str(piece);
        rows.push(row);
        proof {
            if i == n {
                assert(rem =~= line);
            }
            let done0 = done;
            let had = has_trailing_cr(done0);
            done = done.push(line);
            assert(forall|k: int| 0 <= k < done0.len() ==> #[trigger] done[k] == done0[k]);
            assert(done[done.len() - 1] == line);
            if endx < i {
                assert(line.len() > 0 && line.last() == '\r');
                assert(has_trailing_cr(done));
            } else if had {
                let k = choose|k: int|
                    0 <= k < done0.len() && (#[trigger] done0[k]).len() > 0 && done0[k].last()
                        == '\r';
                assert(done[k].len() > 0 && done[k].last() == '\r');
                assert(has_trailing_cr(done));
            } else {
                assert(!(line.len() > 0 && line.last() == '\r'));
                assert(!has_trailing_cr(done));
            }
            if i < n {
                assert(rem.skip(i - start + 1) =~= text@.skip(i + 1));
            }
        }
        start = i + 1;
    }
    proof {
        assert forall|k: int| 0 <= k < raw.len() implies rows_view(rows@)[k] == spec_loaded(
            text@,
        )[k] by {
            assert(rows_view(rows@)[k] == rows@[k]@);
            assert(spec_lines(text@)[k] == strip_cr(raw[k]));
        }
        assert(rows_view(rows@) =~= spec_loaded(text@));
        assert forall|k: int| 0 <= k < rows@.len() implies text_of(
            #[trigger] rows_view(rows@)[k].cells,
        ) == spec_lines(text@)[k] by {
            assert(rows_view(rows@)[k] == rows@[k]@);
            assert(spec_lines(text@)[k] == strip_cr(raw[k]));
        }
    }
    (rows, crlf)
}

/// The rows' texts joined with the separator, from row `i` on.
pub open spec fn join_rows(buf: Seq<RowV>, sep: Seq<char>, i: int) -> Seq<char>
    decreases buf.len() - i,
{
    if i < 0 || i >= buf.len() {
        Seq::<char>::empty()
    } else if i == buf.len() - 1 {
        text_of(buf[i].cells)
    } else {
        text_of(buf[i].cells) + sep + join_rows(buf, sep, i + 1)
    }
}

/// What the surrounding loop must do after an event: nothing special, run a
/// save (plain or save-as), ask about quitting, or open the search bar.
#[derive(Debug, Clone, Copy, PartialEq, Eq, Structural)]
pub enum EditorAction {
    Nothing,
    Save,
    SaveAs,
    ConfirmExit,
    OpenSearch,
}

/// The outcome of handling one event: the action the loop must run, and
/// whether the viewport should be re-clamped around the cursor before the
/// next paint (view-only pans skip that).
#[derive(Debug, Clone, Copy, PartialEq, Eq, Structural)]
pub struct Outcome {
    pub action: EditorAction,
    pub update_view: bool,
}


/// The index of the first line feed at or after `i` (or the text's length).
pub open spec fn first_nl(s: Seq<char>, i: int) -> int
    decreases s.len() - i,
{
    if i < 0 || i >= s.len() {
        s.len() as int
    } else if s[i] == '\n' {
        i
    } else {
        first_nl(s, i + 1)
    }
}

/// `first_nl` finds the first line feed: nothing before it is one, and it
/// points at one unless the text has none.
pub proof fn lemma_first_nl(s: Seq<char>, i: int)
    requires
        0 <= i <= s.len(),
    ensures
        i <= first_nl(s, i) <= s.len(),
        forall|j: int| i <= j < first_nl(s, i) ==> s[j] != '\n',
        first_nl(s, i) < s.len() ==> s[first_nl(s, i)] == '\n',
    decreases s.len() - i,
{
    if i < s.len() && s[i] != '\n' {
        lemma_first_nl(s, i + 1);
    }
}

/// Joining from the second row on is joining the remaining rows.
pub proof fn lemma_join_rows_shift(buf: Seq<RowV>, sep: Seq<char>, i: int)
    requires
        0 <= i,
        buf.len() >= 1,
    ensures
        join_rows(buf, sep, i + 1) == join_rows(buf.drop_first(), sep, i),
    decreases buf.len() - i,
{
    let buf2 = buf.drop_first();
    if i + 1 >= buf.len() {
        assert(join_rows(buf, sep, i + 1) == Seq::<char>::empty());
        assert(join_rows(buf2, sep, i) == Seq::<char>::empty());
    } else {
        assert(buf2[i] == buf[i + 1]);
        if i + 1 == buf.len() - 1 {
            assert(i == buf2.len() - 1);
        } else {
            lemma_join_rows_shift(buf, sep, i + 1);
        }
    }
}

/// Loading a text and saving it back restores it exactly, when its line
/// endings are uniform: rows whose texts are the loaded lines, joined with
/// the remembered convention, give back the text. `crlf` is the convention
/// the load detected; with it, every line but the last carries one trailing
/// carriage return, without it none does (mixed endings cannot round-trip,
/// since loading normalizes them away).
pub proof fn lemma_load_save_round_trip(t: Seq<char>, buf: Seq<RowV>, crlf: bool)
    requires
        buf.len() == split_on_newline(t).len(),
        forall|i: int|
            0 <= i < buf.len() ==> text_of((#[trigger] buf[i]).cells) == spec_lines(t)[i],
        ({
            let raw = split_on_newline(t);
            if crlf {
                (forall|i: int|
                    0 <= i < raw.len() - 1 ==> (#[trigger] raw[i]).len() > 0 && raw[i].last()
                        == '\r') && !(raw.last().len() > 0 && raw.last().last() == '\r')
            } else {
                !has_trailing_cr(raw)
            }
        }),
    ensures
        join_rows(
            buf,
            if crlf {
                "\r\n"@
            } else {
                "\n"@
            },
            0,
        ) == t,
    decreases t.len(),
{
    reveal_strlit("\r\n");
    reveal_strlit("\n");
    let raw = split_on_newline(t);
    lemma_split_len(t);
    let k = first_nl(t, 0);
    lemma_first_nl(t, 0);
    lemma_split_boundary(t, k);
    let sep = if crlf {
        "\r\n"@
    } else {
        "\n"@
    };
    assert(sep.len() == (if crlf {
        2int
    } else {
        1int
    }));
    if k == t.len() {
        assert(raw == seq![t]);
        assert(buf.len() == 1);
        assert(spec_lines(t)[0] == strip_cr(raw[0]));
        assert(t.len() == 0 || t.last() != '\r') by {
            if t.len() > 0 && t.last() == '\r' {
                if crlf {
                    assert(raw.last() == t);
                } else {
                    assert((raw[0]).len() > 0 && raw[0].last() == '\r');
                    assert(has_trailing_cr(raw));
                }
            }
        }
        assert(strip_cr(t) == t);
        assert(join_rows(buf, sep, 0) == text_of(buf[0].cells));
    } else {
        assert(t[k] == '\n');
        let t2 = t.skip(k + 1);
        let raw2 = split_on_newline(t2);
        assert(raw == seq![t.take(k)] + raw2);
        lemma_split_len(t2);
        assert(raw.len() == 1 + raw2.len());
        assert(buf.len() >= 2);
        let buf2 = buf.drop_first();
        assert(raw[0] == t.take(k));
        assert(forall|i: int| 0 <= i < raw2.len() ==> #[trigger] raw2[i] == raw[i + 1]);
        assert forall|i: int| 0 <= i < buf2.len() implies text_of(
            (#[trigger] buf2[i]).cells,
        ) == spec_lines(t2)[i] by {
            assert(buf2[i] == buf[i + 1]);
            assert(text_of(buf[i + 1].cells) == spec_lines(t)[i + 1]);
            assert(spec_lines(t)[i + 1] == strip_cr(raw[i + 1]));
            assert(spec_lines(t2)[i] == strip_cr(raw2[i]));
        }
        if crlf {
            assert forall|i: int| 0 <= i < raw2.len() - 1 implies (#[trigger] raw2[i]).len() > 0
                && raw2[i].last() == '\r' by {
                assert(raw2[i] == raw[i + 1]);
                assert(raw[i + 1].len() > 0 && raw[i + 1].last() == '\r');
            }
            assert(raw2.last() == raw.last());
        } else {
            assert(!has_trailing_cr(raw2)) by {
                if has_trailing_cr(raw2) {
                    let i = choose|i: int|
                        0 <= i < raw2.len() && (#[trigger] raw2[i]).len() > 0 && raw2[i].last()
                            == '\r';
                    assert(raw[i + 1] == raw2[i]);
                    assert(has_trailing_cr(raw));
                }
            }
        }
        lemma_load_save_round_trip(t2, buf2, crlf);
        lemma_join_rows_shift(buf, sep, 0);
        assert(join_rows(buf, sep, 0) == text_of(buf[0].cells) + sep + join_rows(buf2, sep, 0));
        assert(text_of(buf[0].cells) == spec_lines(t)[0]);
        assert(spec_lines(t)[0] == strip_cr(t.take(k)));
        if crlf {
            assert(raw[0].len() > 0 && raw[0].last() == '\r');
            assert(t.take(k).last() == t[k - 1]);
            assert(strip_cr(t.take(k)) == t.take(k).drop_last());
            assert(sep[0] == '\r' && sep[1] == '\n');
            assert(t.take(k).drop_last() + sep + t2 =~= t);
        } else {
            assert(strip_cr(t.take(k)) == t.take(k)) by {
                if t.take(k).len() > 0 && t.take(k).last() == '\r' {
                    assert((raw[0]).len() > 0 && raw[0].last() == '\r');
                    assert(has_trailing_cr(raw));
                }
            }
            assert(sep[0] == '\n');
            assert(t.take(k) + sep + t2 =~= t);
        }
    }
}

/// The interactive editor: the document, the cursor and selection, the
/// viewport, the undo history, and the render grid.
pub struct Editor {
    /// The file being edited, if it has a name yet.
    pub filename: Option<String>,
    /// Whether the file used CRLF line endings when loaded.
    pub is_crlf: bool,
    /// The document: always at least one row.
    pub buffer: Vec<Row>,
    /// The debug line drawn at the bottom of the screen.
    pub status_string: String,
    /// The render grid.
    pub terminal: Terminal,
    /// The width of the line-number sidebar, separator column included.
    pub sidebar_width: usize,
    /// The viewport's top-left corner, in visual space.
    pub viewbox: Position,
    /// The cursor; its column is sticky and may exceed the row's length.
    pub cursor: Position,
    /// The selection anchor, if a selection is active.
    pub anchor: Option<Position>,
    /// Whether the document has unsaved changes.
    pub dirty: bool,
    /// The undo/redo log.
    pub history: History,
    /// The highlighting ruleset for the file's language.
    pub syntax: Syntax,
    /// The search input line.
    pub search: Input,
    /// The positions of the current search's matches.
    pub search_result: Vec<Position>,
    /// Whether the search bar is open.
    pub is_searching: bool,
}

impl Editor {
    /// The row values of the document.
    pub open spec fn buf(self) -> Seq<RowV> {
        rows_view(self.buffer@)
    }

    /// The editor's internal invariant: a non-empty document, the cursor and
    /// anchor on existing rows, and a well-formed history and grid.
    pub open spec fn wf(self) -> bool {
        &&& self.buffer@.len() >= 1
        &&& self.cursor.y < self.buffer@.len()
        &&& (match self.anchor {
            Option::Some(a) => a.y < self.buffer@.len(),
            Option::None => true,
        })
        &&& self.history.wf()
        &&& self.terminal.wf()
        &&& self.search.wf()
    }

    /// Outside of an edit in progress, the document equals the history's
    /// live buffer (once anything has been committed).
    pub open spec fn synced(self) -> bool {
        self.history.spec_version() >= 1 ==> rows_view(self.buffer@)
            == self.history.spec_current()
    }

    /// The fields no editing operation touches.
    pub open spec fn same_surroundings(self, other: Editor) -> bool {
        &&& self.filename == other.filename
        &&& self.is_crlf == other.is_crlf
        &&& self.status_string == other.status_string
        &&& self.terminal == other.terminal
        &&& self.sidebar_width == other.sidebar_width
        &&& self.syntax == other.syntax
        &&& self.search == other.search
        &&& self.search_result == other.search_result
        &&& self.is_searching == other.is_searching
    }

    /// An edit was committed: the buffer was re-highlighted and pushed as
    /// the newest version, the pre-edit UI state was amended into the
    /// previous version's snapshot, and the document is dirty.
    pub open spec fn committed(
        pre: Editor,
        post: Editor,
        edited: Seq<RowV>,
        cur2: Position,
        anc2: Option<Position>,
    ) -> bool {
        let newbuf = resyntax(pre.syntax@, edited);
        let v = pre.history.spec_version();
        let amended = if v >= 1 {
            pre.history.spec_states().update(
                v - 1,
                State { viewbox: pre.viewbox, cursor: pre.cursor, anchor: pre.anchor },
            )
        } else {
            pre.history.spec_states()
        };
        &&& rows_view(post.buffer@) == newbuf
        &&& post.cursor == cur2
        &&& post.anchor == anc2
        &&& post.dirty
        &&& post.viewbox == pre.viewbox
        &&& post.history.wf()
        &&& post.history.spec_versions() == pre.history.spec_versions().take(v).push(newbuf)
        &&& post.history.spec_states() == amended.take(v).push(
            State { viewbox: pre.viewbox, cursor: cur2, anchor: anc2 },
        )
        &&& post.history.spec_version() == v + 1
        &&& post.history.spec_current() == newbuf
    }

    /// A brand-new editor: one empty row, nothing selected, nothing saved.
    pub fn new() -> (r: Editor)
        ensures
            r.wf(),
            r.buf() =~= seq![fresh_row(Seq::<CellV>::empty())],
            r.filename is None,
            !r.is_crlf,
            !r.dirty,
            r.cursor == (Position { x: 0, y: 0 }),
            r.viewbox == (Position { x: 0, y: 0 }),
            r.anchor is None,
            r.history.spec_version() == 0,
            r.history.spec_versions() == Seq::<Seq<RowV>>::empty(),
    {
        let mut buffer: Vec<Row> = Vec::new();
        buffer.push(Row::default());
        let r = Editor {
            filename: None,
            is_crlf: false,
            buffer,
            status_string: String::new(),
            terminal: Terminal::new(0, 0),
            sidebar_width: 0,
            viewbox: Position { x: 0, y: 0 },
            cursor: Position { x: 0, y: 0 },
            anchor: None,
            dirty: false,
            history: History::new(),
            syntax: Syntax::default(),
            search: Input::new(),
            search_result: Vec::new(),
            is_searching: false,
        };
        proof {
            assert(r.buf() =~= seq![fresh_row(Seq::<CellV>::empty())]);
        }
        r
    }

    /// The cell count of the cursor's row.
    pub fn get_width(&self) -> (r: usize)
        requires
            self.wf(),
        ensures
            r == self.buf()[self.cursor.y as int].cells.len(),
    {
        proof {
            assert(self.buf()[self.cursor.y as int] == self.buffer@[self.cursor.y as int]@);
        }
        self.buffer[self.cursor.y].len()
    }

    /// Clamp the sticky cursor column onto its row, as done right before any
    /// operation that reads or edits at the cursor.
    fn clamp_cursor_x(&mut self)
        requires
            old(self).wf(),
        ensures
            final(self).wf(),
            *final(self) == (Editor {
                cursor: Position {
                    x: spec_min(
                        old(self).cursor.x as int,
                        old(self).buf()[old(self).cursor.y as int].cells.len() as int,
                    ) as usize,
                    y: old(self).cursor.y,
                },
                ..*old(self)
            }),
    {
        let w = self.get_width();
        if self.cursor.x > w {
            self.cursor.x = w;
        }
    }

    /// The active selection: the ordered endpoints, or nothing.
    pub fn get_selection(&self) -> (r: Option<(Position, Position)>)
        ensures
            r == sel_between(self.anchor, self.cursor),
    {
        match &self.anchor {
            Some(a) => {
                if a.lt(&self.cursor) {
                    Some((*a, self.cursor))
                } else {
                    Some((self.cursor, *a))
                }
            },
            None => None,
        }
    }

    /// A zero-length selection counts as none: drop its anchor so it cannot
    /// turn a plain edit into a one-cell delete.
    fn collapse_empty_selection(&mut self)
        requires
            old(self).wf(),
        ensures
            final(self).wf(),
            *final(self) == (Editor {
                anchor: if old(self).anchor == Some(old(self).cursor) {
                    None
                } else {
                    old(self).anchor
                },
                ..*old(self)
            }),
    {
        match &self.anchor {
            Some(a) => {
                if a.x == self.cursor.x && a.y == self.cursor.y {
                    self.anchor = None;
                }
            },
            None => {},
        }
    }

    /// Set or clear the anchor for a motion: a shift-qualified motion pins
    /// the anchor at the cursor if none is set; an unqualified one clears it.
    pub fn update_selection(&mut self, shift: bool)
        requires
            old(self).wf(),
        ensures
            final(self).wf(),
            *final(self) == (Editor {
                anchor: if shift {
                    if old(self).anchor is Some {
                        old(self).anchor
                    } else {
                        Some(old(self).cursor)
                    }
                } else {
                    None
                },
                ..*old(self)
            }),
    {
        if shift {
            if self.anchor.is_none() {
                self.anchor = Some(self.cursor);
            }
        } else {
            self.anchor = None;
        }
    }

    /// Delete the rows and columns between the two positions: the begin row
    /// keeps its prefix, the end row its suffix, everything between goes,
    /// and the cursor lands at the begin with the selection cleared. The
    /// single primitive behind typed-over selections, Enter, Backspace,
    /// Delete, Cut and Paste.
    pub fn delete_selection_range(&mut self, begin: Position, end: Position)
        requires
            old(self).wf(),
            begin.y <= end.y < old(self).buf().len(),
            begin.y == end.y ==> begin.x <= end.x,
        ensures
            final(self).wf(),
            final(self).buf() == spec_delete_range(old(self).buf(), begin, end),
            final(self).cursor == begin,
            final(self).anchor is None,
            final(self).same_surroundings(*old(self)),
            final(self).history == old(self).history,
            final(self).dirty == old(self).dirty,
            final(self).viewbox == old(self).viewbox,
    {
        let ghost buf0 = self.buf();
        let bw = self.buffer[begin.y].len();
        let ew = self.buffer[end.y].len();
        let bx = if begin.x <= bw {
            begin.x
        } else {
            bw
        };
        let ex = if end.x <= ew {
            end.x
        } else {
            ew
        };
        let (left, _) = self.buffer[begin.y].split_at(bx);
        let (_, right) = self.buffer[end.y].split_at(ex);
        let merged = left.concat(&right);
        proof {
            assert(buf0[begin.y as int] == self.buffer@[begin.y as int]@);
            assert(buf0[end.y as int] == self.buffer@[end.y as int]@);
            assert(merged@.cells == merged_cells(
                buf0[begin.y as int].cells,
                buf0[end.y as int].cells,
                begin.x as int,
                end.x as int,
            ));
        }
        self.buffer[begin.y] = merged;
        // remove the rows strictly after the begin row, up to the end row
        let count = end.y - begin.y;
        let total = self.buffer.len();
        let ghost mid = rows_view(self.buffer@);
        proof {
            assert(mid.len() == total);
        }
        let mut k: usize = 0;
        while k < count
            invariant
                k <= count,
                begin.y + count < mid.len(),
                mid.len() <= usize::MAX,
                mid.len() == old(self).buffer@.len(),
                self.buffer@.len() == mid.len() - k,
                rows_view(self.buffer@) =~= mid.take(begin.y + 1) + mid.skip(begin.y + 1 + k),
                self.filename == old(self).filename,
                self.is_crlf == old(self).is_crlf,
                self.status_string == old(self).status_string,
                self.terminal == old(self).terminal,
                self.sidebar_width == old(self).sidebar_width,
                self.syntax == old(self).syntax,
                self.search == old(self).search,
                self.search_result == old(self).search_result,
                self.is_searching == old(self).is_searching,
                self.history == old(self).history,
                self.dirty == old(self).dirty,
                self.viewbox == old(self).viewbox,
                self.cursor == old(self).cursor,
                self.anchor == old(self).anchor,
            decreases count - k,
        {
            let ghost pre = rows_view(self.buffer@);
            self.buffer.remove(begin.y + 1);
            proof {
                assert forall|j: int| 0 <= j < self.buffer@.len() implies rows_view(self.buffer@)[j]
                    == (mid.take(begin.y + 1) + mid.skip(begin.y + 1 + (k + 1)))[j] by {
                    assert(rows_view(self.buffer@)[j] == self.buffer@[j]@);
                    assert(pre[j] == (mid.take(begin.y + 1) + mid.skip(begin.y + 1 + k))[j]);
                    if j < begin.y + 1 {
                        assert(self.buffer@[j]@ == pre[j]);
                    } else {
                        assert(self.buffer@[j]@ == pre[j + 1]);
                    }
                }
                assert(rows_view(self.buffer@) =~= mid.take(begin.y + 1) + mid.skip(
                    begin.y + 1 + (k + 1),
                ));
            }
            k += 1;
        }
        self.cursor = begin;
        self.anchor = None;
        proof {
            assert forall|j: int| 0 <= j < rows_view(self.buffer@).len() implies rows_view(
                self.buffer@,
            )[j] == spec_delete_range(buf0, begin, end)[j] by {
                assert(rows_view(self.buffer@)[j] == (mid.take(begin.y + 1) + mid.skip(
                    begin.y + 1 + count,
                ))[j]);
                if j < begin.y {
                    assert(mid[j] == buf0[j]);
                } else if j == begin.y {
                } else {
                    assert(mid[j + count] == buf0[j + count]);
                }
            }
            assert(rows_view(self.buffer@) =~= spec_delete_range(buf0, begin, end));
        }
    }

    /// Recompute every row's highlighting with the current ruleset.
    pub fn update_syntax(&mut self)
        requires
            old(self).wf(),
        ensures
            final(self).wf(),
            final(self).buf() == resyntax(old(self).syntax@, old(self).buf()),
            final(self).buffer@.len() == old(self).buffer@.len(),
            final(self).same_surroundings(*old(self)),
            final(self).history == old(self).history,
            final(self).dirty == old(self).dirty,
            final(self).viewbox == old(self).viewbox,
            final(self).cursor == old(self).cursor,
            final(self).anchor == old(self).anchor,
    {
        let ghost buf0 = self.buf();
        let ghost syn = self.syntax@;
        let mut state = TokenState::default();
        let mut i: usize = 0;
        while i < self.buffer.len()
            invariant
                i <= self.buffer@.len(),
                self.buffer@.len() == old(self).buffer@.len(),
                resyntax(syn, buf0) == resyntax_from(syn, rows_view(self.buffer@), i as int, state@),
                forall|j: int|
                    i <= j < self.buffer@.len() ==> #[trigger] rows_view(self.buffer@)[j] == buf0[j],
                self.filename == old(self).filename,
                self.is_crlf == old(self).is_crlf,
                self.status_string == old(self).status_string,
                self.terminal == old(self).terminal,
                self.sidebar_width == old(self).sidebar_width,
                self.syntax == old(self).syntax,
                syn == self.syntax@,
                self.search == old(self).search,
                self.search_result == old(self).search_result,
                self.is_searching == old(self).is_searching,
                self.history == old(self).history,
                self.dirty == old(self).dirty,
                self.viewbox == old(self).viewbox,
                self.cursor == old(self).cursor,
                self.anchor == old(self).anchor,
            decreases self.buffer@.len() - i,
        {
            let ghost pre = rows_view(self.buffer@);
            let ghost st0 = state@;
            let mut row = self.buffer[i].clone();
            proof {
                assert(pre[i as int] == self.buffer@[i as int]@);
            }
            let _ = row.update_syntax(&self.syntax, &mut state);
            self.buffer[i] = row;
            proof {
                let c = classify(syn, pre[i as int].cells, st0);
                let row2 = RowV {
                    cells: pre[i as int].cells,
                    syntax: c.0,
                    final_state: sanitize_state(c.1),
                };
                assert forall|j: int| 0 <= j < self.buffer@.len() implies rows_view(self.buffer@)[j]
                    == pre.update(i as int, row2)[j] by {
                    assert(rows_view(self.buffer@)[j] == self.buffer@[j]@);
                    if j != i {
                        assert(pre[j] == self.buffer@[j]@);
                    }
                }
                assert(rows_view(self.buffer@) =~= pre.update(i as int, row2));
            }
            i += 1;
        }
    }

    /// Commit the document as a new history version: recompute highlighting,
    /// then push the buffer with the current UI state.
    fn create_history(&mut self)
        requires
            old(self).wf(),
        ensures
            final(self).synced(),
            final(self).wf(),
            final(self).buf() == resyntax(old(self).syntax@, old(self).buf()),
            final(self).history.spec_versions() == old(self).history.spec_versions().take(
                old(self).history.spec_version(),
            ).push(resyntax(old(self).syntax@, old(self).buf())),
            final(self).history.spec_states() == old(self).history.spec_states().take(
                old(self).history.spec_version(),
            ).push(
                State {
                    viewbox: old(self).viewbox,
                    cursor: old(self).cursor,
                    anchor: old(self).anchor,
                },
            ),
            final(self).history.spec_version() == old(self).history.spec_version() + 1,
            final(self).history.spec_current() == resyntax(old(self).syntax@, old(self).buf()),
            final(self).history.spec_current_state() == old(self).history.spec_current_state(),
            final(self).same_surroundings(*old(self)),
            final(self).dirty == old(self).dirty,
            final(self).viewbox == old(self).viewbox,
            final(self).cursor == old(self).cursor,
            final(self).anchor == old(self).anchor,
    {
        self.update_syntax();
        self.history.push_state(&self.buffer, self.viewbox, self.cursor, self.anchor);
    }

    /// Amend the newest version's UI snapshot to the current one, so that an
    /// undo of the next edit lands where the cursor was just before it.
    pub fn update_last_history_state(&mut self)
        requires
            old(self).wf(),
            old(self).synced(),
        ensures
            final(self).wf(),
            final(self).history.spec_versions() == old(self).history.spec_versions(),
            final(self).history.spec_version() == old(self).history.spec_version(),
            final(self).history.spec_current() == old(self).history.spec_current(),
            final(self).history.spec_current_state() == old(self).history.spec_current_state(),
            old(self).history.spec_version() >= 1 ==> final(self).history.spec_states() == old(
                self,
            ).history.spec_states().update(
                old(self).history.spec_version() - 1,
                State {
                    viewbox: old(self).viewbox,
                    cursor: old(self).cursor,
                    anchor: old(self).anchor,
                },
            ),
            old(self).history.spec_version() == 0 ==> final(self).history.spec_states() == old(
                self,
            ).history.spec_states(),
            final(self).same_surroundings(*old(self)),
            final(self).buffer == old(self).buffer,
            final(self).dirty == old(self).dirty,
            final(self).viewbox == old(self).viewbox,
            final(self).cursor == old(self).cursor,
            final(self).anchor == old(self).anchor,
    {
        self.history.update_state(self.viewbox, self.cursor, self.anchor);
    }

    /// What a typed character does to the document: clamp the cursor, type
    /// over any selection, insert the character's cell, step right.
    pub open spec fn spec_on_char(pre: Editor, c: char) -> (Seq<RowV>, Position) {
        let cx = spec_min(pre.cursor.x as int, pre.buf()[pre.cursor.y as int].cells.len() as int);
        let cur = Position { x: cx as usize, y: pre.cursor.y };
        let t = (match sel_between(pre.anchor, cur) {
            Option::Some(p) => (spec_delete_range(pre.buf(), p.0, p.1), p.0),
            Option::None => (pre.buf(), cur),
        });
        let buf1 = t.0;
        let cur1 = t.1;
        let ix = spec_min(cur1.x as int, buf1[cur1.y as int].cells.len() as int);
        (
            buf1.update(
                cur1.y as int,
                RowV {
                    cells: buf1[cur1.y as int].cells.insert(ix, char_cell(c)),
                    ..buf1[cur1.y as int]
                },
            ),
            Position { x: (ix + 1) as usize, y: cur1.y },
        )
    }

    /// Type one character: it replaces the selection if one is active, and
    /// the edit is committed as a new undo step.
    #[verifier::rlimit(100)]
    pub fn on_char(&mut self, c: char)
        requires
            old(self).wf(),
            old(self).synced(),
        ensures
            final(self).wf(),
            final(self).synced(),
            Editor::committed(
                *old(self),
                *final(self),
                Editor::spec_on_char(*old(self), c).0,
                Editor::spec_on_char(*old(self), c).1,
                None,
            ),
            final(self).same_surroundings(*old(self)),
    {
        self.update_last_history_state();
        let ghost states1 = self.history.spec_states();
        self.dirty = true;
        self.clamp_cursor_x();
        if let Some((begin, end)) = self.get_selection() {
            self.delete_selection_range(begin, end);
        }
        let w = self.get_width();
        let ix = if self.cursor.x <= w {
            self.cursor.x
        } else {
            w
        };
        let text = char_to_string(c);
        let cw = match char_width(c) {
            Some(cw) => cw,
            None => 0,
        };
        let y = self.cursor.y;
        let mut row = self.buffer[y].clone();
        row.insert_cell(ix, Cell::new(text, cw));
        self.buffer[y] = row;
        let n = self.buffer[y].len();
        proof {
            assert(ix < n);
            let (ebuf, ecur) = Editor::spec_on_char(*old(self), c);
            assert forall|j: int| 0 <= j < self.buffer@.len() implies rows_view(self.buffer@)[j]
                == ebuf[j] by {
                assert(rows_view(self.buffer@)[j] == self.buffer@[j]@);
            }
            assert(rows_view(self.buffer@) =~= ebuf);
        }
        self.cursor.x = ix + 1;
        self.anchor = None;
        self.create_history();
    }

    /// What the Tab key does: like a typed character, but the inserted cell
    /// holds four spaces as one unit, four columns wide.
    pub open spec fn spec_on_tab(pre: Editor) -> (Seq<RowV>, Position) {
        let cx = spec_min(pre.cursor.x as int, pre.buf()[pre.cursor.y as int].cells.len() as int);
        let cur = Position { x: cx as usize, y: pre.cursor.y };
        let t = (match sel_between(pre.anchor, cur) {
            Option::Some(p) => (spec_delete_range(pre.buf(), p.0, p.1), p.0),
            Option::None => (pre.buf(), cur),
        });
        let buf1 = t.0;
        let cur1 = t.1;
        let ix = spec_min(cur1.x as int, buf1[cur1.y as int].cells.len() as int);
        let cell = CellV { text: seq![' ', ' ', ' ', ' '], width: 4nat };
        (
            buf1.update(
                cur1.y as int,
                RowV { cells: buf1[cur1.y as int].cells.insert(ix, cell), ..buf1[cur1.y as int] },
            ),
            Position { x: (ix + 1) as usize, y: cur1.y },
        )
    }

    /// Insert a tab: a single four-space cell over the selection, committed
    /// as a new undo step.
    #[verifier::rlimit(100)]
    pub fn on_tab(&mut self)
        requires
            old(self).wf(),
            old(self).synced(),
        ensures
            final(self).wf(),
            final(self).synced(),
            Editor::committed(
                *old(self),
                *final(self),
                Editor::spec_on_tab(*old(self)).0,
                Editor::spec_on_tab(*old(self)).1,
                None,
            ),
            final(self).same_surroundings(*old(self)),
    {
        self.update_last_history_state();
        self.dirty = true;
        self.clamp_cursor_x();
        if let Some((begin, end)) = self.get_selection() {
            self.delete_selection_range(begin, end);
        }
        let w = self.get_width();
        let ix = if self.cursor.x <= w {
            self.cursor.x
        } else {
            w
        };
        let text = "    ".to_owned();
        proof {
            reveal_strlit("    ");
            assert(text@ =~= seq![' ', ' ', ' ', ' ']);
        }
        let y = self.cursor.y;
        let mut row = self.buffer[y].clone();
        row.insert_cell(ix, Cell::new(text, 4));
        self.buffer[y] = row;
        let n = self.buffer[y].len();
        proof {
            assert(ix < n);
            let e = Editor::spec_on_tab(*old(self));
            assert forall|j: int| 0 <= j < self.buffer@.len() implies rows_view(self.buffer@)[j]
                == e.0[j] by {
                assert(rows_view(self.buffer@)[j] == self.buffer@[j]@);
            }
            assert(rows_view(self.buffer@) =~= e.0);
        }
        self.cursor.x = ix + 1;
        self.anchor = None;
        self.create_history();
    }

    /// What Enter does: split the cursor's row at the (clamped) column into
    /// two rows, the cursor landing at the start of the lower one.
    pub open spec fn spec_on_enter(pre: Editor) -> (Seq<RowV>, Position) {
        let cx = spec_min(pre.cursor.x as int, pre.buf()[pre.cursor.y as int].cells.len() as int);
        let cur = Position { x: cx as usize, y: pre.cursor.y };
        let t = (match sel_between(pre.anchor, cur) {
            Option::Some(p) => (spec_delete_range(pre.buf(), p.0, p.1), p.0),
            Option::None => (pre.buf(), cur),
        });
        let buf1 = t.0;
        let cur1 = t.1;
        let cells = buf1[cur1.y as int].cells;
        let ix = spec_min(cur1.x as int, cells.len() as int);
        (
            buf1.update(cur1.y as int, fresh_row(cells.take(ix))).insert(
                cur1.y + 1,
                fresh_row(cells.skip(ix)),
            ),
            Position { x: 0, y: (cur1.y + 1) as usize },
        )
    }

    /// Break the line at the cursor, committed as a new undo step.
    #[verifier::rlimit(100)]
    pub fn on_enter(&mut self)
        requires
            old(self).wf(),
            old(self).synced(),
        ensures
            final(self).wf(),
            final(self).synced(),
            Editor::committed(
                *old(self),
                *final(self),
                Editor::spec_on_enter(*old(self)).0,
                Editor::spec_on_enter(*old(self)).1,
                None,
            ),
            final(self).same_surroundings(*old(self)),
    {
        self.update_last_history_state();
        self.dirty = true;
        self.clamp_cursor_x();
        if let Some((begin, end)) = self.get_selection() {
            self.delete_selection_range(begin, end);
        }
        let w = self.get_width();
        let ix = if self.cursor.x <= w {
            self.cursor.x
        } else {
            w
        };
        let y = self.cursor.y;
        let (left, right) = self.buffer[y].split_at(ix);
        self.buffer[y] = left;
        let n = self.buffer.len();
        proof {
            assert(y < n);
        }
        self.buffer.insert(y + 1, right);
        proof {
            let e = Editor::spec_on_enter(*old(self));
            assert forall|j: int| 0 <= j < self.buffer@.len() implies rows_view(self.buffer@)[j]
                == e.0[j] by {
                assert(rows_view(self.buffer@)[j] == self.buffer@[j]@);
                let mid = e.0.len() - 1;
                if j < y {
                } else if j == y {
                } else if j == y + 1 {
                } else {
                }
            }
            assert(rows_view(self.buffer@) =~= e.0);
        }
        self.cursor.y = y + 1;
        self.cursor.x = 0;
        self.anchor = None;
        self.create_history();
    }

    /// What Backspace does: delete the selection if one is active; else the
    /// cell left of the cursor; else (at a row start) merge the row into the
    /// one above, the cursor landing at the join.
    pub open spec fn spec_on_backspace(pre: Editor) -> (Seq<RowV>, Position) {
        let cx = spec_min(pre.cursor.x as int, pre.buf()[pre.cursor.y as int].cells.len() as int);
        let cur = Position { x: cx as usize, y: pre.cursor.y };
        let anchor1 = if pre.anchor == Some(cur) {
            None
        } else {
            pre.anchor
        };
        let buf = pre.buf();
        match sel_between(anchor1, cur) {
            Option::Some(p) => (spec_delete_range(buf, p.0, p.1), p.0),
            Option::None => {
                if cur.x > 0 {
                    (
                        buf.update(
                            cur.y as int,
                            RowV {
                                cells: buf[cur.y as int].cells.remove(cx - 1),
                                ..buf[cur.y as int]
                            },
                        ),
                        Position { x: (cx - 1) as usize, y: cur.y },
                    )
                } else if cur.y > 0 {
                    (
                        buf.update(
                            cur.y - 1,
                            fresh_row(buf[cur.y - 1].cells + buf[cur.y as int].cells),
                        ).remove(cur.y as int),
                        Position { x: buf[cur.y - 1].cells.len() as usize, y: (cur.y - 1) as usize },
                    )
                } else {
                    (buf, cur)
                }
            },
        }
    }

    /// Delete backward, committed as a new undo step.
    #[verifier::rlimit(100)]
    pub fn on_backspace(&mut self)
        requires
            old(self).wf(),
            old(self).synced(),
        ensures
            final(self).wf(),
            final(self).synced(),
            Editor::committed(
                *old(self),
                *final(self),
                Editor::spec_on_backspace(*old(self)).0,
                Editor::spec_on_backspace(*old(self)).1,
                None,
            ),
            final(self).same_surroundings(*old(self)),
    {
        self.update_last_history_state();
        self.dirty = true;
        self.clamp_cursor_x();
        self.collapse_empty_selection();
        let ghost e = Editor::spec_on_backspace(*old(self));
        if let Some((begin, end)) = self.get_selection() {
            self.delete_selection_range(begin, end);
        } else if self.cursor.x > 0 {
            let y = self.cursor.y;
            let ix = self.cursor.x - 1;
            let mut row = self.buffer[y].clone();
            let _ = row.remove_cell(ix);
            self.buffer[y] = row;
            self.cursor.x = ix;
            proof {
                assert forall|j: int| 0 <= j < self.buffer@.len() implies rows_view(self.buffer@)[j]
                    == e.0[j] by {
                    assert(rows_view(self.buffer@)[j] == self.buffer@[j]@);
                }
                assert(rows_view(self.buffer@) =~= e.0);
            }
        } else if self.cursor.y > 0 {
            let y = self.cursor.y;
            let merged = self.buffer[y - 1].concat(&self.buffer[y]);
            let new_x = self.buffer[y - 1].len();
            self.buffer[y - 1] = merged;
            self.buffer.remove(y);
            self.cursor.y = y - 1;
            self.cursor.x = new_x;
            proof {
                let pre_removed = old(self).buf().update(
                    y - 1,
                    fresh_row(old(self).buf()[y - 1].cells + old(self).buf()[y as int].cells),
                );
                assert forall|j: int| 0 <= j < self.buffer@.len() implies rows_view(self.buffer@)[j]
                    == e.0[j] by {
                    assert(rows_view(self.buffer@)[j] == self.buffer@[j]@);
                    assert(e.0[j] == pre_removed.remove(y as int)[j]);
                }
                assert(rows_view(self.buffer@) =~= e.0);
            }
        }
        self.create_history();
    }

    /// What Delete does: delete the selection if one is active; else the
    /// cell under the cursor; else (at a row end) merge the next row into
    /// this one, the cursor staying put.
    pub open spec fn spec_on_delete(pre: Editor) -> (Seq<RowV>, Position) {
        let cx = spec_min(pre.cursor.x as int, pre.buf()[pre.cursor.y as int].cells.len() as int);
        let cur = Position { x: cx as usize, y: pre.cursor.y };
        let anchor1 = if pre.anchor == Some(cur) {
            None
        } else {
            pre.anchor
        };
        let buf = pre.buf();
        match sel_between(anchor1, cur) {
            Option::Some(p) => (spec_delete_range(buf, p.0, p.1), p.0),
            Option::None => {
                if cx < buf[cur.y as int].cells.len() {
                    (
                        buf.update(
                            cur.y as int,
                            RowV {
                                cells: buf[cur.y as int].cells.remove(cx as int),
                                ..buf[cur.y as int]
                            },
                        ),
                        cur,
                    )
                } else if cur.y + 1 < buf.len() {
                    (
                        buf.update(
                            cur.y as int,
                            fresh_row(buf[cur.y as int].cells + buf[cur.y + 1].cells),
                        ).remove(cur.y + 1),
                        cur,
                    )
                } else {
                    (buf, cur)
                }
            },
        }
    }

    /// Delete forward, committed as a new undo step.
    #[verifier::rlimit(100)]
    pub fn on_delete(&mut self)
        requires
            old(self).wf(),
            old(self).synced(),
        ensures
            final(self).wf(),
            final(self).synced(),
            Editor::committed(
                *old(self),
                *final(self),
                Editor::spec_on_delete(*old(self)).0,
                Editor::spec_on_delete(*old(self)).1,
                None,
            ),
            final(self).same_surroundings(*old(self)),
    {
        self.update_last_history_state();
        self.dirty = true;
        self.clamp_cursor_x();
        self.collapse_empty_selection();
        let ghost e = Editor::spec_on_delete(*old(self));
        let w = self.get_width();
        if let Some((begin, end)) = self.get_selection() {
            self.delete_selection_range(begin, end);
        } else if self.cursor.x < w {
            let y = self.cursor.y;
            let ix = self.cursor.x;
            let mut row = self.buffer[y].clone();
            let _ = row.remove_cell(ix);
            self.buffer[y] = row;
            proof {
                assert forall|j: int| 0 <= j < self.buffer@.len() implies rows_view(self.buffer@)[j]
                    == e.0[j] by {
                    assert(rows_view(self.buffer@)[j] == self.buffer@[j]@);
                }
                assert(rows_view(self.buffer@) =~= e.0);
            }
        } else if self.cursor.y < self.buffer.len() - 1 {
            let y = self.cursor.y;
            let merged = self.buffer[y].concat(&self.buffer[y + 1]);
            self.buffer[y] = merged;
            self.buffer.remove(y + 1);
            proof {
                let pre_removed = old(self).buf().update(
                    y as int,
                    fresh_row(old(self).buf()[y as int].cells + old(self).buf()[y + 1].cells),
                );
                assert forall|j: int| 0 <= j < self.buffer@.len() implies rows_view(self.buffer@)[j]
                    == e.0[j] by {
                    assert(rows_view(self.buffer@)[j] == self.buffer@[j]@);
                    assert(e.0[j] == pre_removed.remove(y + 1)[j]);
                }
                assert(rows_view(self.buffer@) =~= e.0);
            }
        }
        self.create_history();
    }

    /// Select the whole document: anchor at the origin, cursor at the end of
    /// the last row.
    pub fn select_all(&mut self)
        requires
            old(self).wf(),
        ensures
            final(self).wf(),
            *final(self) == (Editor {
                anchor: Some(Position { x: 0, y: 0 }),
                cursor: Position {
                    x: old(self).buf().last().cells.len() as usize,
                    y: (old(self).buffer@.len() - 1) as usize,
                },
                ..*old(self)
            }),
    {
        self.anchor = Some(Position { x: 0, y: 0 });
        self.cursor.y = self.buffer.len() - 1;
        let w = self.get_width();
        self.cursor.x = w;
        proof {
            assert(self.buf()[self.cursor.y as int] == old(self).buf().last());
        }
    }

    /// Undo one committed edit: the document and the UI state of the
    /// previous version come back, and the document counts as dirty.
    pub fn undo_edit(&mut self) -> (r: bool)
        requires
            old(self).wf(),
            old(self).synced(),
        ensures
            final(self).wf(),
            final(self).synced(),
            r == (old(self).history.spec_version() > 1),
            final(self).history.model() == spec_undo(old(self).history.model()),
            final(self).history.spec_states() == old(self).history.spec_states(),
            r ==> rows_view(final(self).buffer@) == live_buffer(final(self).history.model()),
            r ==> final(self).history.spec_current_state() == final(self).history.spec_states()[
                final(self).history.spec_version() - 1],
            r ==> final(self).viewbox == final(self).history.spec_current_state().viewbox
                && final(self).cursor == final(self).history.spec_current_state().cursor
                && final(self).anchor == final(self).history.spec_current_state().anchor,
            r ==> final(self).dirty,
            !r ==> *final(self) == *old(self),
            final(self).same_surroundings(*old(self)),
    {
        if self.history.undo() {
            self.buffer = self.history.clone_current();
            let st = self.history.state_snapshot();
            self.viewbox = st.viewbox;
            self.cursor = st.cursor;
            self.anchor = st.anchor;
            self.dirty = true;
            true
        } else {
            false
        }
    }

    /// Redo one undone edit: the document and the UI state of the next
    /// version come back, and the document counts as dirty.
    pub fn redo_edit(&mut self) -> (r: bool)
        requires
            old(self).wf(),
            old(self).synced(),
        ensures
            final(self).wf(),
            final(self).synced(),
            r == (old(self).history.spec_version() < old(self).history.spec_versions().len()),
            final(self).history.model() == spec_redo(old(self).history.model()),
            final(self).history.spec_states() == old(self).history.spec_states(),
            r ==> rows_view(final(self).buffer@) == live_buffer(final(self).history.model()),
            r ==> final(self).history.spec_current_state() == final(self).history.spec_states()[
                final(self).history.spec_version() - 1],
            r ==> final(self).viewbox == final(self).history.spec_current_state().viewbox
                && final(self).cursor == final(self).history.spec_current_state().cursor
                && final(self).anchor == final(self).history.spec_current_state().anchor,
            r ==> final(self).dirty,
            !r ==> *final(self) == *old(self),
            final(self).same_surroundings(*old(self)),
    {
        if self.history.redo() {
            self.buffer = self.history.clone_current();
            let st = self.history.state_snapshot();
            self.viewbox = st.viewbox;
            self.cursor = st.cursor;
            self.anchor = st.anchor;
            self.dirty = true;
            true
        } else {
            false
        }
    }

    /// A zero-length selection collapses to no selection.
    pub open spec fn spec_collapse(anchor: Option<Position>, cur: Position) -> Option<Position> {
        if anchor == Some(cur) {
            None
        } else {
            anchor
        }
    }

    /// What a left motion does: clamp the cursor; collapse an empty
    /// selection; with a selection active, snap to its begin column; pin or
    /// clear the anchor by `shift`; then move one cell (or one word run with
    /// `ctrl`). A word motion from a row start crosses to the row above and
    /// stops just before its trailing whitespace run; within a row it skips
    /// a space run and then a non-space run.
    pub open spec fn spec_move_left(pre: Editor, shift: bool, ctrl: bool) -> (
        Position,
        Option<Position>,
    ) {
        let buf = pre.buf();
        let cx = spec_min(pre.cursor.x as int, buf[pre.cursor.y as int].cells.len() as int);
        let cur = Position { x: cx as usize, y: pre.cursor.y };
        let anchor1 = Editor::spec_collapse(pre.anchor, cur);
        let snapped = sel_between(anchor1, cur);
        let cur2 = (match snapped {
            Option::Some(p) => Position { x: p.0.x, y: cur.y },
            Option::None => cur,
        });
        let flag = snapped is Some;
        let anchor2 = if shift {
            if anchor1 is Some {
                anchor1
            } else {
                Some(cur2)
            }
        } else {
            None
        };
        let cur3 = if ctrl {
            if cur2.x == 0 && cur2.y > 0 {
                let cells = buf[cur2.y - 1].cells;
                Position {
                    x: back_while_space(cells, cells.len() as int) as usize,
                    y: (cur2.y - 1) as usize,
                }
            } else {
                let cells = buf[cur2.y as int].cells;
                let x0 = spec_min(cur2.x as int, cells.len() as int);
                Position {
                    x: back_while_nonspace(cells, back_while_space(cells, x0)) as usize,
                    y: cur2.y,
                }
            }
        } else if !flag && cur2.x > 0 {
            Position { x: (cur2.x - 1) as usize, y: cur2.y }
        } else if !flag && cur2.y > 0 {
            Position { x: buf[cur2.y - 1].cells.len() as usize, y: (cur2.y - 1) as usize }
        } else {
            cur2
        };
        (cur3, anchor2)
    }

    /// Move left, by cell or by word run.
    pub fn move_left(&mut self, shift: bool, ctrl: bool)
        requires
            old(self).wf(),
        ensures
            final(self).wf(),
            *final(self) == (Editor {
                cursor: Editor::spec_move_left(*old(self), shift, ctrl).0,
                anchor: Editor::spec_move_left(*old(self), shift, ctrl).1,
                ..*old(self)
            }),
    {
        self.clamp_cursor_x();
        self.collapse_empty_selection();
        let mut flag = false;
        if let Some((begin, _)) = self.get_selection() {
            self.cursor.x = begin.x;
            flag = true;
        }
        self.update_selection(shift);
        if ctrl {
            if self.cursor.x == 0 && self.cursor.y > 0 {
                self.cursor.y = self.cursor.y - 1;
                proof {
                    assert(self.buf()[self.cursor.y as int] == self.buffer@[self.cursor.y as int]@);
                }
                let w = self.get_width();
                let a = back_space(&self.buffer[self.cursor.y].rope, w);
                self.cursor.x = a;
            } else {
                proof {
                    assert(self.buf()[self.cursor.y as int] == self.buffer@[self.cursor.y as int]@);
                }
                let xcap = self.get_width();
                let cx = if self.cursor.x <= xcap {
                    self.cursor.x
                } else {
                    xcap
                };
                let a = back_space(&self.buffer[self.cursor.y].rope, cx);
                let b = back_nonspace(&self.buffer[self.cursor.y].rope, a);
                self.cursor.x = b;
            }
        } else if !flag && self.cursor.x > 0 {
            self.cursor.x = self.cursor.x - 1;
        } else if !flag && self.cursor.y > 0 {
            self.cursor.y = self.cursor.y - 1;
            let w = self.get_width();
            self.cursor.x = w;
        }
    }

    /// What a right motion does: the mirror image of the left one, snapping
    /// to the selection's end column. A word motion from a row end crosses
    /// to the row below and stops just after its leading whitespace run;
    /// within a row it skips a space run and then a non-space run.
    pub open spec fn spec_move_right(pre: Editor, shift: bool, ctrl: bool) -> (
        Position,
        Option<Position>,
    ) {
        let buf = pre.buf();
        let cx = spec_min(pre.cursor.x as int, buf[pre.cursor.y as int].cells.len() as int);
        let cur = Position { x: cx as usize, y: pre.cursor.y };
        let anchor1 = Editor::spec_collapse(pre.anchor, cur);
        let snapped = sel_between(anchor1, cur);
        let cur2 = (match snapped {
            Option::Some(p) => Position { x: p.1.x, y: cur.y },
            Option::None => cur,
        });
        let flag = snapped is Some;
        let anchor2 = if shift {
            if anchor1 is Some {
                anchor1
            } else {
                Some(cur2)
            }
        } else {
            None
        };
        let cur3 = if ctrl {
            if cur2.x == buf[cur2.y as int].cells.len() && cur2.y + 1 < buf.len() {
                let cells = buf[cur2.y + 1].cells;
                Position { x: fwd_while_space(cells, 0) as usize, y: (cur2.y + 1) as usize }
            } else {
                let cells = buf[cur2.y as int].cells;
                let x0 = spec_min(cur2.x as int, cells.len() as int);
                Position {
                    x: fwd_while_nonspace(cells, fwd_while_space(cells, x0)) as usize,
                    y: cur2.y,
                }
            }
        } else if !flag && cur2.x < buf[cur2.y as int].cells.len() {
            Position { x: (cur2.x + 1) as usize, y: cur2.y }
        } else if !flag && cur2.y + 1 < buf.len() {
            Position { x: 0, y: (cur2.y + 1) as usize }
        } else {
            cur2
        };
        (cur3, anchor2)
    }

    /// Move right, by cell or by word run.
    pub fn move_right(&mut self, shift: bool, ctrl: bool)
        requires
            old(self).wf(),
        ensures
            final(self).wf(),
            *final(self) == (Editor {
                cursor: Editor::spec_move_right(*old(self), shift, ctrl).0,
                anchor: Editor::spec_move_right(*old(self), shift, ctrl).1,
                ..*old(self)
            }),
    {
        self.clamp_cursor_x();
        self.collapse_empty_selection();
        let mut flag = false;
        if let Some((_, end)) = self.get_selection() {
            self.cursor.x = end.x;
            flag = true;
        }
        self.update_selection(shift);
        if ctrl {
            let w0 = self.get_width();
            if self.cursor.x == w0 && self.cursor.y < self.buffer.len() - 1 {
                self.cursor.y = self.cursor.y + 1;
                proof {
                    assert(self.buf()[self.cursor.y as int] == self.buffer@[self.cursor.y as int]@);
                }
                let a = fwd_space(&self.buffer[self.cursor.y].rope, 0);
                self.cursor.x = a;
            } else {
                proof {
                    assert(self.buf()[self.cursor.y as int] == self.buffer@[self.cursor.y as int]@);
                }
                let cx = if self.cursor.x <= w0 {
                    self.cursor.x
                } else {
                    w0
                };
                let a = fwd_space(&self.buffer[self.cursor.y].rope, cx);
                let b = fwd_nonspace(&self.buffer[self.cursor.y].rope, a);
                self.cursor.x = b;
            }
        } else if !flag && self.cursor.x < self.get_width() {
            self.cursor.x = self.cursor.x + 1;
        } else if !flag && self.cursor.y < self.buffer.len() - 1 {
            self.cursor.y = self.cursor.y + 1;
            self.cursor.x = 0;
        }
    }

    /// Move the cursor one row up (no `ctrl`): from the top row it goes to
    /// column zero instead; `shift` extends or drops the selection.
    pub fn move_up(&mut self, shift: bool)
        requires
            old(self).wf(),
        ensures
            final(self).wf(),
            *final(self) == (Editor {
                cursor: if old(self).cursor.y > 0 {
                    Position { x: old(self).cursor.x, y: (old(self).cursor.y - 1) as usize }
                } else {
                    Position { x: 0, y: 0 }
                },
                anchor: if shift {
                    if old(self).anchor is Some {
                        old(self).anchor
                    } else {
                        Some(old(self).cursor)
                    }
                } else {
                    None
                },
                ..*old(self)
            }),
    {
        self.update_selection(shift);
        if self.cursor.y > 0 {
            self.cursor.y = self.cursor.y - 1;
        } else {
            self.cursor.x = 0;
        }
    }

    /// Move the cursor one row down (no `ctrl`): from the bottom row it goes
    /// to the row's end instead; `shift` extends or drops the selection.
    pub fn move_down(&mut self, shift: bool)
        requires
            old(self).wf(),
        ensures
            final(self).wf(),
            *final(self) == (Editor {
                cursor: if old(self).cursor.y + 1 < old(self).buffer@.len() {
                    Position { x: old(self).cursor.x, y: (old(self).cursor.y + 1) as usize }
                } else {
                    Position {
                        x: old(self).buf()[old(self).cursor.y as int].cells.len() as usize,
                        y: old(self).cursor.y,
                    }
                },
                anchor: if shift {
                    if old(self).anchor is Some {
                        old(self).anchor
                    } else {
                        Some(old(self).cursor)
                    }
                } else {
                    None
                },
                ..*old(self)
            }),
    {
        self.update_selection(shift);
        if self.cursor.y < self.buffer.len() - 1 {
            self.cursor.y = self.cursor.y + 1;
        } else {
            let w = self.get_width();
            self.cursor.x = w;
        }
    }

    /// Page up: the cursor jumps a window's height of rows towards the top.
    pub fn page_up(&mut self, shift: bool)
        requires
            old(self).wf(),
        ensures
            final(self).wf(),
            *final(self) == (Editor {
                cursor: Position {
                    x: old(self).cursor.x,
                    y: ({
                        let page = if old(self).terminal.height >= 2 {
                            old(self).terminal.height - 2
                        } else {
                            0int
                        };
                        if old(self).cursor.y >= page {
                            (old(self).cursor.y - page) as usize
                        } else {
                            0usize
                        }
                    }),
                },
                anchor: if shift {
                    if old(self).anchor is Some {
                        old(self).anchor
                    } else {
                        Some(old(self).cursor)
                    }
                } else {
                    None
                },
                ..*old(self)
            }),
    {
        self.update_selection(shift);
        let page = self.terminal.height.saturating_sub(2);
        self.cursor.y = self.cursor.y.saturating_sub(page);
    }

    /// Page down: the cursor jumps a window's height of rows towards the
    /// bottom, stopping at the last row.
    pub fn page_down(&mut self, shift: bool)
        requires
            old(self).wf(),
        ensures
            final(self).wf(),
            *final(self) == (Editor {
                cursor: Position {
                    x: old(self).cursor.x,
                    y: ({
                        let page = if old(self).terminal.height >= 2 {
                            old(self).terminal.height - 2
                        } else {
                            0int
                        };
                        let sum = if old(self).cursor.y + page > usize::MAX {
                            usize::MAX as int
                        } else {
                            old(self).cursor.y + page
                        };
                        spec_min(sum, old(self).buffer@.len() - 1) as usize
                    }),
                },
                anchor: if shift {
                    if old(self).anchor is Some {
                        old(self).anchor
                    } else {
                        Some(old(self).cursor)
                    }
                } else {
                    None
                },
                ..*old(self)
            }),
    {
        self.update_selection(shift);
        let page = self.terminal.height.saturating_sub(2);
        let sum = self.cursor.y.saturating_add(page);
        let last = self.buffer.len() - 1;
        self.cursor.y = if sum <= last {
            sum
        } else {
            last
        };
    }

    /// Home: the cursor jumps to the row start.
    pub fn home(&mut self, shift: bool)
        requires
            old(self).wf(),
        ensures
            final(self).wf(),
            *final(self) == (Editor {
                cursor: Position { x: 0, y: old(self).cursor.y },
                anchor: if shift {
                    if old(self).anchor is Some {
                        old(self).anchor
                    } else {
                        Some(old(self).cursor)
                    }
                } else {
                    None
                },
                ..*old(self)
            }),
    {
        self.update_selection(shift);
        self.cursor.x = 0;
    }

    /// End: the cursor jumps to the row end.
    pub fn end(&mut self, shift: bool)
        requires
            old(self).wf(),
        ensures
            final(self).wf(),
            *final(self) == (Editor {
                cursor: Position {
                    x: old(self).buf()[old(self).cursor.y as int].cells.len() as usize,
                    y: old(self).cursor.y,
                },
                anchor: if shift {
                    if old(self).anchor is Some {
                        old(self).anchor
                    } else {
                        Some(old(self).cursor)
                    }
                } else {
                    None
                },
                ..*old(self)
            }),
    {
        self.update_selection(shift);
        let w = self.get_width();
        self.cursor.x = w;
    }

    /// The viewport row panning limit: a couple of rows of slack past the
    /// last row, less the text window's height.
    pub open spec fn spec_scroll_limit(pre: Editor) -> int {
        let total = if pre.buffer@.len() + EXTRA_GAP > usize::MAX {
            usize::MAX as int
        } else {
            pre.buffer@.len() + EXTRA_GAP
        };
        let window = if pre.terminal.height >= 2 {
            pre.terminal.height - 2
        } else {
            0int
        };
        if total >= window {
            total - window
        } else {
            0int
        }
    }

    /// Pan the view up by `dt` rows without moving the cursor.
    pub fn scroll_up(&mut self, dt: usize)
        requires
            old(self).wf(),
        ensures
            final(self).wf(),
            *final(self) == (Editor {
                viewbox: Position {
                    x: old(self).viewbox.x,
                    y: if old(self).viewbox.y >= dt {
                        (old(self).viewbox.y - dt) as usize
                    } else {
                        0usize
                    },
                },
                ..*old(self)
            }),
    {
        self.viewbox.y = self.viewbox.y.saturating_sub(dt);
    }

    /// Pan the view down by `dt` rows without moving the cursor, stopping a
    /// little past the last row.
    pub fn scroll_down(&mut self, dt: usize)
        requires
            old(self).wf(),
        ensures
            final(self).wf(),
            *final(self) == (Editor {
                viewbox: Position {
                    x: old(self).viewbox.x,
                    y: ({
                        let sum = if old(self).viewbox.y + dt > usize::MAX {
                            usize::MAX as int
                        } else {
                            old(self).viewbox.y + dt
                        };
                        spec_min(sum, Editor::spec_scroll_limit(*old(self))) as usize
                    }),
                },
                ..*old(self)
            }),
    {
        let limit = (self.buffer.len().saturating_add(EXTRA_GAP)).saturating_sub(
            self.terminal.height.saturating_sub(2),
        );
        let sum = self.viewbox.y.saturating_add(dt);
        self.viewbox.y = if sum <= limit {
            sum
        } else {
            limit
        };
    }

    /// Pan the view three columns left.
    pub fn scroll_left(&mut self)
        requires
            old(self).wf(),
        ensures
            final(self).wf(),
            *final(self) == (Editor {
                viewbox: Position {
                    x: if old(self).viewbox.x >= 3 {
                        (old(self).viewbox.x - 3) as usize
                    } else {
                        0usize
                    },
                    y: old(self).viewbox.y,
                },
                ..*old(self)
            }),
    {
        self.viewbox.x = self.viewbox.x.saturating_sub(3);
    }

    /// Pan the view three columns right, stopping a little past the cursor
    /// row's cell count.
    pub fn scroll_right(&mut self)
        requires
            old(self).wf(),
        ensures
            final(self).wf(),
            *final(self) == (Editor {
                viewbox: Position {
                    x: ({
                        let w = old(self).buf()[old(self).cursor.y as int].cells.len() as int;
                        let cap = if w + EXTRA_GAP + 1 > usize::MAX {
                            usize::MAX as int
                        } else {
                            w + EXTRA_GAP + 1
                        };
                        let sum = if old(self).viewbox.x + 3 > usize::MAX {
                            usize::MAX as int
                        } else {
                            old(self).viewbox.x + 3
                        };
                        spec_min(sum, cap) as usize
                    }),
                    y: old(self).viewbox.y,
                },
                ..*old(self)
            }),
    {
        let w = self.get_width();
        let cap = w.saturating_add(EXTRA_GAP + 1);
        let sum = self.viewbox.x.saturating_add(3);
        self.viewbox.x = if sum <= cap {
            sum
        } else {
            cap
        };
    }

    /// The cursor's visual position: its row, and the summed width of the
    /// cells left of it.
    pub open spec fn spec_cursor_position(pre: Editor) -> Position {
        let cells = pre.buf()[pre.cursor.y as int].cells;
        Position {
            x: width_sum(cells, spec_min(pre.cursor.x as int, cells.len() as int)) as usize,
            y: pre.cursor.y,
        }
    }

    /// Where the cursor sits in visual columns.
    pub fn get_cursor_position(&self) -> (r: Position)
        requires
            self.wf(),
        ensures
            r == Editor::spec_cursor_position(*self),
    {
        proof {
            assert(self.buf()[self.cursor.y as int] == self.buffer@[self.cursor.y as int]@);
        }
        let w = self.buffer[self.cursor.y].len();
        let upto = if self.cursor.x <= w {
            self.cursor.x
        } else {
            w
        };
        let x = visual_width_upto(&self.buffer[self.cursor.y].rope, upto);
        Position { x, y: self.cursor.y }
    }

    /// The width the line-number sidebar needs: room for the largest visible
    /// line number (at least two digits), plus a margin column and the
    /// separator.
    pub open spec fn spec_sidebar_width(pre: Editor) -> int {
        let reach = if pre.viewbox.y + pre.terminal.height > usize::MAX {
            usize::MAX as int
        } else {
            pre.viewbox.y + pre.terminal.height
        };
        let below = if reach >= 2 {
            reach - 2
        } else {
            0int
        };
        let max_line = spec_min(below, pre.buffer@.len() as int);
        (if max_line > 99 {
            crate::util::spec_digit_count(max_line as nat) as int
        } else {
            2int
        }) + 2
    }

    /// Recompute the sidebar width from the largest visible line number.
    pub fn update_sidebar_width(&mut self)
        requires
            old(self).wf(),
        ensures
            final(self).wf(),
            *final(self) == (Editor {
                sidebar_width: Editor::spec_sidebar_width(*old(self)) as usize,
                ..*old(self)
            }),
    {
        let reach = self.viewbox.y.saturating_add(self.terminal.height);
        let below = reach.saturating_sub(2);
        let len = self.buffer.len();
        let max_line = if below <= len {
            below
        } else {
            len
        };
        let digits = if max_line > 99 {
            crate::util::digit_count(max_line)
        } else {
            2
        };
        proof {
            crate::util::lemma_pow10_20();
            crate::util::lemma_digit_count_lt(max_line as nat, 20);
        }
        self.sidebar_width = digits + 2;
    }

    /// Where the viewport must sit to keep the cursor in view with a margin:
    /// clamped on both axes, the lower bound winning if the window is too
    /// small to honour the margin.
    pub open spec fn spec_viewbox_after(pre: Editor) -> Position {
        let c = Editor::spec_cursor_position(pre);
        let ylo_sum = if c.y + EXTRA_GAP + 3 > usize::MAX {
            usize::MAX as int
        } else {
            c.y + EXTRA_GAP + 3
        };
        let ylo = if ylo_sum >= pre.terminal.height {
            ylo_sum - pre.terminal.height
        } else {
            0int
        };
        let yhi = if c.y >= EXTRA_GAP {
            c.y - EXTRA_GAP
        } else {
            0int
        };
        let xlo_sum = if c.x + EXTRA_GAP + 1 > usize::MAX {
            usize::MAX as int
        } else {
            c.x + EXTRA_GAP + 1
        };
        let text_w = if pre.terminal.width >= pre.sidebar_width {
            pre.terminal.width - pre.sidebar_width
        } else {
            0int
        };
        let xlo = if xlo_sum >= text_w {
            xlo_sum - text_w
        } else {
            0int
        };
        let xhi = if c.x >= EXTRA_GAP {
            c.x - EXTRA_GAP
        } else {
            0int
        };
        Position {
            x: (if xlo > xhi {
                xlo
            } else if pre.viewbox.x < xlo {
                xlo
            } else if pre.viewbox.x > xhi {
                xhi
            } else {
                pre.viewbox.x as int
            }) as usize,
            y: (if ylo > yhi {
                ylo
            } else if pre.viewbox.y < ylo {
                ylo
            } else if pre.viewbox.y > yhi {
                yhi
            } else {
                pre.viewbox.y as int
            }) as usize,
        }
    }

    /// Clamp the viewport so the cursor stays visible with the margin.
    pub fn update_viewbox(&mut self)
        requires
            old(self).wf(),
        ensures
            final(self).wf(),
            *final(self) == (Editor {
                viewbox: Editor::spec_viewbox_after(*old(self)),
                ..*old(self)
            }),
    {
        let c = self.get_cursor_position();
        let ylo = (c.y.saturating_add(EXTRA_GAP + 3)).saturating_sub(self.terminal.height);
        let yhi = c.y.saturating_sub(EXTRA_GAP);
        if ylo > yhi {
            self.viewbox.y = ylo;
        } else {
            self.viewbox.y = crate::util::clamp_usize(self.viewbox.y, ylo, yhi);
        }
        let text_w = self.terminal.width.saturating_sub(self.sidebar_width);
        let xlo = (c.x.saturating_add(EXTRA_GAP + 1)).saturating_sub(text_w);
        let xhi = c.x.saturating_sub(EXTRA_GAP);
        if xlo > xhi {
            self.viewbox.x = xlo;
        } else {
            self.viewbox.x = crate::util::clamp_usize(self.viewbox.x, xlo, xhi);
        }
    }

    /// Replace the document with the given text, split at line feeds, one
    /// trailing carriage return stripped per line and remembered as the
    /// file's line-ending convention.
    pub fn load_text(&mut self, text: &str)
        requires
            old(self).wf(),
            old(self).cursor == (Position { x: 0, y: 0 }),
            old(self).anchor is None,
            text@.len() < usize::MAX,
        ensures
            final(self).wf(),
            final(self).buf() == spec_loaded(text@),
            final(self).buf().len() == split_on_newline(text@).len(),
            forall|k: int|
                0 <= k < final(self).buf().len() ==> text_of(
                    (#[trigger] final(self).buf()[k]).cells,
                ) == spec_lines(text@)[k],
            final(self).is_crlf == has_trailing_cr(split_on_newline(text@)),
            *final(self) == (Editor {
                buffer: final(self).buffer,
                is_crlf: final(self).is_crlf,
                ..*old(self)
            }),
    {
        let (rows, crlf) = split_text(text);
        self.buffer = rows;
        self.is_crlf = crlf;
    }

    /// Commit the document as it stands (without recomputing highlighting),
    /// recording the current UI state: the initial version a fresh document
    /// gets.
    pub fn commit_history(&mut self)
        requires
            old(self).wf(),
        ensures
            final(self).wf(),
            final(self).synced(),
            final(self).history.spec_versions() == old(self).history.spec_versions().take(
                old(self).history.spec_version(),
            ).push(old(self).buf()),
            final(self).history.spec_states() == old(self).history.spec_states().take(
                old(self).history.spec_version(),
            ).push(
                State {
                    viewbox: old(self).viewbox,
                    cursor: old(self).cursor,
                    anchor: old(self).anchor,
                },
            ),
            final(self).history.spec_version() == old(self).history.spec_version() + 1,
            final(self).history.spec_current() == old(self).buf(),
            *final(self) == (Editor { history: final(self).history, ..*old(self) }),
    {
        self.history.push_state(&self.buffer, self.viewbox, self.cursor, self.anchor);
    }

    /// The document as saved: the rows' texts joined with the remembered
    /// line-ending convention.
    pub fn save_text(&self) -> (r: String)
        requires
            self.wf(),
        ensures
            r@ == join_rows(self.buf(), if self.is_crlf { "\r\n"@ } else { "\n"@ }, 0),
    {
        let sep = if self.is_crlf {
            "\r\n"
        } else {
            "\n"
        };
        let ghost sepv = sep@;
        let ghost buf = self.buf();
        let mut out = String::new();
        let mut i: usize = 0;
        while i < self.buffer.len()
            invariant
                i <= self.buffer@.len(),
                buf == self.buf(),
                buf.len() == self.buffer@.len(),
                sepv == sep@,
                out@ + join_rows(buf, sepv, i as int) == join_rows(buf, sepv, 0),
                i == 0 ==> out@ =~= Seq::<char>::empty(),
            decreases self.buffer@.len() - i,
        {
            let t = self.buffer[i].to_string();
            proof {
                assert(buf[i as int] == self.buffer@[i as int]@);
            }
            out.append(t.as_str());
            if i + 1 < self.buffer.len() {
                out.append(sep);
            }
            proof {
                assert(out@ + join_rows(buf, sepv, i + 1) =~= join_rows(buf, sepv, 0));
            }
            i += 1;
        }
        proof {
            assert(out@ =~= join_rows(buf, sepv, 0));
        }
        out
    }

    /// The text a copy takes from the selection `b ..= e`: each selected
    /// row's covered cells, rows joined with line feeds.
    pub open spec fn spec_selection_text(buf: Seq<RowV>, b: Position, e: Position, i: int) -> Seq<
        char,
    >
        recommends
            b.y <= i <= e.y < buf.len(),
        decreases e.y - i,
    {
        let cells = buf[i].cells;
        let l = if i == b.y {
            spec_min(b.x as int, cells.len() as int)
        } else {
            0int
        };
        let r = if i == e.y {
            spec_min(e.x as int, cells.len() as int)
        } else {
            cells.len() as int
        };
        let l2 = spec_min(l, r);
        let piece = text_of(cells.subrange(l2, r));
        if i >= e.y {
            piece
        } else {
            piece + seq!['\n'] + Editor::spec_selection_text(buf, b, e, i + 1)
        }
    }

    /// The text a copy puts on the clipboard: the selection's text, or the
    /// whole cursor row when nothing is selected (after collapsing an empty
    /// selection).
    pub open spec fn spec_copy_text(pre: Editor) -> Seq<char> {
        let anchor1 = Editor::spec_collapse(pre.anchor, pre.cursor);
        match sel_between(anchor1, pre.cursor) {
            Option::Some(p) => Editor::spec_selection_text(pre.buf(), p.0, p.1, p.0.y as int),
            Option::None => text_of(pre.buf()[pre.cursor.y as int].cells),
        }
    }

    /// The cells of one row covered by the selection, as text.
    fn selection_row_text(&self, b: Position, e: Position, i: usize) -> (r: String)
        requires
            self.wf(),
            b.y <= i <= e.y < self.buf().len(),
            b.y == e.y ==> b.x <= e.x,
        ensures
            ({
                let cells = self.buf()[i as int].cells;
                let l = if i == b.y {
                    spec_min(b.x as int, cells.len() as int)
                } else {
                    0int
                };
                let rr = if i == e.y {
                    spec_min(e.x as int, cells.len() as int)
                } else {
                    cells.len() as int
                };
                r@ == text_of(cells.subrange(spec_min(l, rr), rr))
            }),
    {
        proof {
            assert(self.buf()[i as int] == self.buffer@[i as int]@);
        }
        let w = self.buffer[i].len();
        let l = if i == b.y {
            if b.x <= w {
                b.x
            } else {
                w
            }
        } else {
            0
        };
        let rr = if i == e.y {
            if e.x <= w {
                e.x
            } else {
                w
            }
        } else {
            w
        };
        let l2 = if l <= rr {
            l
        } else {
            rr
        };
        let (_, tail) = self.buffer[i].split_at(l2);
        let (mid, _) = tail.split_at(rr - l2);
        proof {
            assert(mid@.cells =~= self.buf()[i as int].cells.subrange(l2 as int, rr as int));
        }
        mid.to_string()
    }

    /// The text the copy operation puts on the clipboard.
    pub fn copy_text(&mut self) -> (r: String)
        requires
            old(self).wf(),
        ensures
            final(self).wf(),
            r@ == Editor::spec_copy_text(*old(self)),
            *final(self) == (Editor {
                anchor: Editor::spec_collapse(old(self).anchor, old(self).cursor),
                ..*old(self)
            }),
    {
        self.collapse_empty_selection();
        if let Some((begin, end)) = self.get_selection() {
            let ghost buf = self.buf();
            let nrows = self.buffer.len();
            let mut out = String::new();
            let mut i: usize = begin.y;
            while i <= end.y
                invariant
                    begin.y <= i <= end.y + 1,
                    begin.y <= end.y < buf.len(),
                    buf.len() == nrows,
                    begin.y == end.y ==> begin.x <= end.x,
                    buf == self.buf(),
                    self.wf(),
                    i <= end.y ==> out@ + Editor::spec_selection_text(buf, begin, end, i as int)
                        == Editor::spec_selection_text(buf, begin, end, begin.y as int),
                    i == end.y + 1 ==> out@ == Editor::spec_selection_text(
                        buf,
                        begin,
                        end,
                        begin.y as int,
                    ),
                decreases end.y + 1 - i,
            {
                let piece = self.selection_row_text(begin, end, i);
                out.append(piece.as_str());
                if i != end.y {
                    out.append("\n");
                    proof {
                        reveal_strlit("\n");
                        assert(out@ + Editor::spec_selection_text(buf, begin, end, i + 1)
                            =~= Editor::spec_selection_text(buf, begin, end, begin.y as int));
                    }
                } else {
                    proof {
                        assert(out@ =~= Editor::spec_selection_text(
                            buf,
                            begin,
                            end,
                            begin.y as int,
                        ));
                    }
                }
                i += 1;
            }
            out
        } else {
            proof {
                assert(self.buf()[self.cursor.y as int] == self.buffer@[self.cursor.y as int]@);
            }
            self.buffer[self.cursor.y].to_string()
        }
    }

    /// Copy the selection (or the cursor row) to the system clipboard; a
    /// clipboard failure is reported, never fatal.
    pub fn trigger_copy(&mut self) -> (r: Result<(), Error>)
        requires
            old(self).wf(),
        ensures
            final(self).wf(),
            *final(self) == (Editor {
                anchor: Editor::spec_collapse(old(self).anchor, old(self).cursor),
                ..*old(self)
            }),
            r is Err ==> r->Err_0 is ClipboardError,
    {
        let text = self.copy_text();
        match clipboard_set(text.as_str()) {
            Ok(_) => Ok(()),
            Err(m) => Err(Error::ClipboardError(m)),
        }
    }

    /// What pasting a text does: any selection is typed over; a single-line
    /// paste splices into the cursor row; a multi-line paste splits the row
    /// at the cursor, the first line joining the prefix, the last line
    /// joining the suffix, the rest standing alone. The cursor lands after
    /// the pasted text.
    pub open spec fn spec_paste(pre: Editor, text: Seq<char>) -> (Seq<RowV>, Position) {
        let lines = spec_lines(text).map_values(|l: Seq<char>| str_cells(l));
        let t = (match sel_between(pre.anchor, pre.cursor) {
            Option::Some(p) => (spec_delete_range(pre.buf(), p.0, p.1), p.0),
            Option::None => (pre.buf(), pre.cursor),
        });
        let buf1 = t.0;
        let cur1 = t.1;
        let y = cur1.y as int;
        let cells = buf1[y].cells;
        let ix = spec_min(cur1.x as int, cells.len() as int);
        let prefix = cells.take(ix);
        let suffix = cells.skip(ix);
        let n = lines.len() as int;
        if n == 1 {
            (
                buf1.update(y, fresh_row(prefix + lines[0] + suffix)),
                Position { x: (ix + lines[0].len()) as usize, y: cur1.y },
            )
        } else {
            (
                buf1.take(y) + seq![fresh_row(prefix + lines[0])] + lines.subrange(1, n - 1).map_values(
                    |l: Seq<CellV>| fresh_row(l),
                ) + seq![fresh_row(lines[n - 1] + suffix)] + buf1.skip(y + 1),
                Position { x: lines[n - 1].len() as usize, y: (cur1.y + n - 1) as usize },
            )
        }
    }

    /// Paste a text over the selection, committed as a new undo step; an
    /// empty text only records the pre-edit UI state (and marks the document
    /// dirty), committing nothing.
    #[verifier::rlimit(100)]
    #[verifier::spinoff_prover]
    pub fn paste_text(&mut self, text: &str) -> (r: bool)
        requires
            old(self).wf(),
            old(self).synced(),
            text@.len() < usize::MAX,
        ensures
            final(self).wf(),
            r == (text@.len() > 0),
            final(self).same_surroundings(*old(self)),
            !r ==> final(self).synced() == old(self).synced() && *final(self) == (Editor {
                dirty: true,
                history: final(self).history,
                ..*old(self)
            }) && final(self).history.model() == old(self).history.model(),
            r ==> final(self).synced() && Editor::committed(
                *old(self),
                *final(self),
                Editor::spec_paste(*old(self), text@).0,
                Editor::spec_paste(*old(self), text@).1,
                None,
            ),
    {
        self.update_last_history_state();
        let ghost hist1 = self.history;
        self.dirty = true;
        if text.unicode_len() == 0 {
            proof {
                assert(text@.len() == 0);
            }
            return false;
        }
        let ghost e = Editor::spec_paste(*old(self), text@);
        if let Some((begin, end)) = self.get_selection() {
            self.delete_selection_range(begin, end);
        }
        let ghost cur_mid = self.cursor;
        let ghost anc_mid = self.anchor;
        let (lines, _) = split_text(text);
        let ghost linecells = spec_lines(text@).map_values(|l: Seq<char>| str_cells(l));
        proof {
            assert(linecells.len() == lines@.len());
            assert forall|k: int| 0 <= k < lines@.len() implies (#[trigger] lines@[k]@).cells
                == linecells[k] && lines@[k]@.syntax == Seq::<TokenType>::empty()
                && lines@[k]@.final_state == TokenStateV::Normal by {
                assert(rows_view(lines@)[k] == lines@[k]@);
                assert(spec_loaded(text@)[k] == fresh_row(str_cells(spec_lines(text@)[k])));
                assert(linecells[k] == str_cells(spec_lines(text@)[k]));
            }
        }
        let y = self.cursor.y;
        let w = self.get_width();
        let ix = if self.cursor.x <= w {
            self.cursor.x
        } else {
            w
        };
        let (left, right) = self.buffer[y].split_at(ix);
        let n = lines.len();
        if n == 1 {
            let merged = left.concat(&lines[0]).concat(&right);
            self.buffer[y] = merged;
            let rw = self.buffer[y].len();
            let l0 = lines[0].len();
            proof {
                assert(ix + l0 <= rw);
                assert(self.buffer@[y as int]@.cells =~= e.0[y as int].cells);
                assert forall|j: int| 0 <= j < self.buffer@.len() implies rows_view(self.buffer@)[j]
                    == e.0[j] by {
                    assert(rows_view(self.buffer@)[j] == self.buffer@[j]@);
                }
                assert(rows_view(self.buffer@) =~= e.0);
            }
            self.cursor.x = ix + l0;
        } else {
            let ghost buf1 = rows_view(self.buffer@);
            let ghost prefix = buf1[y as int].cells.take(ix as int);
            let ghost suffix = buf1[y as int].cells.skip(ix as int);
            let first = left.concat(&lines[0]);
            let last_row = lines[n - 1].concat(&right);
            self.buffer[y] = first;
            let ghost base = rows_view(self.buffer@);
            proof {
                assert(base =~= buf1.update(y as int, fresh_row(prefix + linecells[0])));
                assert(base.take(y + 1) + linecells.subrange(1, 1).map_values(
                    |l: Seq<CellV>| fresh_row(l),
                ) + base.skip(y + 1) =~= base);
            }
            let mut k: usize = 1;
            while k < n - 1
                invariant
                    1 <= k <= n - 1,
                    n == lines@.len(),
                    n >= 2,
                    y < buf1.len(),
                    base.len() == buf1.len(),
                    y + 1 <= base.len(),
                    self.buffer@.len() == base.len() + k - 1,
                    linecells.len() == n,
                    forall|j: int|
                        0 <= j < lines@.len() ==> (#[trigger] lines@[j]@).cells == linecells[j]
                            && lines@[j]@.syntax == Seq::<TokenType>::empty()
                            && lines@[j]@.final_state == TokenStateV::Normal,
                    rows_view(self.buffer@) =~= base.take(y + 1) + linecells.subrange(
                        1,
                        k as int,
                    ).map_values(|l: Seq<CellV>| fresh_row(l)) + base.skip(y + 1),
                    self.filename == old(self).filename,
                    self.is_crlf == old(self).is_crlf,
                    self.status_string == old(self).status_string,
                    self.terminal == old(self).terminal,
                    self.sidebar_width == old(self).sidebar_width,
                    self.syntax == old(self).syntax,
                    self.search == old(self).search,
                    self.search_result == old(self).search_result,
                    self.is_searching == old(self).is_searching,
                    self.history == hist1,
                    self.dirty,
                    self.viewbox == old(self).viewbox,
                    self.cursor == cur_mid,
                    self.anchor == anc_mid,
                decreases n - 1 - k,
            {
                let ghost pre = rows_view(self.buffer@);
                let row = lines[k].clone();
                let cur_len = self.buffer.len();
                proof {
                    assert(y + k <= cur_len);
                }
                self.buffer.insert(y + k, row);
                proof {
                    let mids2 = linecells.subrange(1, k + 1).map_values(
                        |l: Seq<CellV>| fresh_row(l),
                    );
                    assert forall|j: int| 0 <= j < self.buffer@.len() implies #[trigger] rows_view(
                        self.buffer@,
                    )[j] == (base.take(y + 1) + mids2 + base.skip(y + 1))[j] by {
                        assert(rows_view(self.buffer@)[j] == self.buffer@[j]@);
                        if j < y + k {
                            assert(self.buffer@[j]@ == pre[j]);
                        } else if j == y + k {
                            assert(self.buffer@[j]@ == linecells.subrange(1, k + 1).map_values(
                                |l: Seq<CellV>| fresh_row(l),
                            )[k as int - 1 + 1 - 1]);
                        } else {
                            assert(self.buffer@[j]@ == pre[j - 1]);
                        }
                    }
                    assert(rows_view(self.buffer@) =~= base.take(y + 1) + mids2 + base.skip(y + 1));
                }
                k += 1;
            }
            let ghost pre2 = rows_view(self.buffer@);
            let cur_len = self.buffer.len();
            proof {
                assert(y + (n - 1) <= cur_len);
            }
            self.buffer.insert(y + (n - 1), last_row);
            let total = self.buffer.len();
            proof {
                assert(y + n - 1 < total);
                let mids = linecells.subrange(1, n - 1).map_values(|l: Seq<CellV>| fresh_row(l));
                assert forall|j: int| 0 <= j < self.buffer@.len() implies #[trigger] rows_view(
                    self.buffer@,
                )[j] == e.0[j] by {
                    assert(rows_view(self.buffer@)[j] == self.buffer@[j]@);
                    if j < y + n - 1 {
                        assert(self.buffer@[j]@ == pre2[j]);
                    } else if j == y + n - 1 {
                    } else {
                        assert(self.buffer@[j]@ == pre2[j - 1]);
                    }
                    if j < y {
                        assert(e.0[j] == buf1[j]);
                    } else if j == y {
                        assert(e.0[j] == fresh_row(prefix + linecells[0]));
                    } else if j < y + n - 1 {
                        assert(e.0[j] == linecells.subrange(1, n - 1).map_values(
                            |l: Seq<CellV>| fresh_row(l),
                        )[j - y - 1]);
                    } else if j == y + n - 1 {
                        assert(e.0[j] == fresh_row(linecells[n - 1] + suffix));
                    } else {
                        assert(e.0[j] == buf1[j - n + 1]);
                    }
                }
                assert(rows_view(self.buffer@) =~= e.0);
            }
            let lw = lines[n - 1].len();
            self.cursor.x = lw;
            self.cursor.y = y + (n - 1);
        }
        self.anchor = None;
        self.create_history();
        true
    }

    /// What pasting the text `t` leaves behind: a text too long for the
    /// index arithmetic leaves the editor untouched; an empty text only
    /// records the pre-edit UI state and marks the document dirty; any other
    /// text is pasted and committed exactly as `spec_paste` says.
    pub open spec fn paste_outcome(pre: Editor, post: Editor, t: Seq<char>) -> bool {
        if t.len() >= usize::MAX {
            post == pre
        } else if t.len() == 0 {
            &&& post == (Editor { dirty: true, history: post.history, ..pre })
            &&& post.history.model() == pre.history.model()
        } else {
            Editor::committed(
                pre,
                post,
                Editor::spec_paste(pre, t).0,
                Editor::spec_paste(pre, t).1,
                None,
            )
        }
    }

    /// Paste from the system clipboard: whatever text the environment hands
    /// back (possibly nothing) meets `paste_outcome`, so it is pasted over
    /// the selection exactly as `paste_text` would paste it; an empty or
    /// unavailable clipboard pastes nothing.
    pub fn trigger_paste(&mut self)
        requires
            old(self).wf(),
            old(self).synced(),
        ensures
            final(self).wf(),
            final(self).synced() || final(self).history.model() == old(self).history.model(),
            final(self).same_surroundings(*old(self)),
            exists|t: Seq<char>| #[trigger] Editor::paste_outcome(*old(self), *final(self), t),
    {
        let clip = match clipboard_get() {
            Some(t) => t,
            None => String::new(),
        };
        let n = clip.as_str().unicode_len();
        if n == usize::MAX {
            proof {
                assert(Editor::paste_outcome(*old(self), *self, clip@));
            }
            return ;
        }
        let _ = self.paste_text(clip.as_str());
        proof {
            assert(Editor::paste_outcome(*old(self), *self, clip@));
        }
    }

    /// Moving the selected row range up swaps it with the row above it: that
    /// row lands just below the range.
    pub open spec fn spec_rows_moved_up(buf: Seq<RowV>, b: int, e: int) -> Seq<RowV>
        recommends
            1 <= b <= e < buf.len(),
    {
        Seq::new(
            buf.len(),
            |j: int|
                if b - 1 <= j < e {
                    buf[j + 1]
                } else if j == e {
                    buf[b - 1]
                } else {
                    buf[j]
                },
        )
    }

    /// Moving the selected row range down swaps it with the row below it:
    /// that row lands just above the range.
    pub open spec fn spec_rows_moved_down(buf: Seq<RowV>, b: int, e: int) -> Seq<RowV>
        recommends
            0 <= b <= e < buf.len() - 1,
    {
        Seq::new(
            buf.len(),
            |j: int|
                if b < j <= e + 1 {
                    buf[j - 1]
                } else if j == b {
                    buf[e + 1]
                } else {
                    buf[j]
                },
        )
    }

    /// Swap two adjacent rows of the document.
    fn swap_rows(&mut self, i: usize)
        requires
            old(self).wf(),
            i + 1 < old(self).buffer@.len(),
        ensures
            final(self).wf(),
            rows_view(final(self).buffer@) == rows_view(old(self).buffer@).update(
                i as int,
                old(self).buf()[i + 1],
            ).update(i + 1, old(self).buf()[i as int]),
            *final(self) == (Editor { buffer: final(self).buffer, ..*old(self) }),
            final(self).buffer@.len() == old(self).buffer@.len(),
    {
        let total = self.buffer.len();
        proof {
            assert(i + 1 < total);
        }
        let a = self.buffer[i].clone();
        let b = self.buffer[i + 1].clone();
        self.buffer[i] = b;
        self.buffer[i + 1] = a;
        proof {
            assert forall|j: int| 0 <= j < self.buffer@.len() implies rows_view(self.buffer@)[j]
                == rows_view(old(self).buffer@).update(i as int, old(self).buf()[i + 1]).update(
                i + 1,
                old(self).buf()[i as int],
            )[j] by {
                assert(rows_view(self.buffer@)[j] == self.buffer@[j]@);
                assert(rows_view(old(self).buffer@)[j] == old(self).buffer@[j]@);
            }
            assert(rows_view(self.buffer@) =~= rows_view(old(self).buffer@).update(
                i as int,
                old(self).buf()[i + 1],
            ).update(i + 1, old(self).buf()[i as int]));
        }
    }

    /// Move the selected rows (or the cursor row) one row up, committed as a
    /// new undo step; from the top row nothing happens. The anchor follows
    /// the rows; the cursor stays.
    pub fn move_lines_up(&mut self) -> (r: bool)
        requires
            old(self).wf(),
            old(self).synced(),
        ensures
            final(self).wf(),
            final(self).same_surroundings(*old(self)),
            ({
                let sel = (match sel_between(old(self).anchor, old(self).cursor) {
                    Option::Some(p) => p,
                    Option::None => (old(self).cursor, old(self).cursor),
                });
                let anc2 = (match old(self).anchor {
                    Option::Some(a) => Some(Position { x: a.x, y: (a.y - 1) as usize }),
                    Option::None => None,
                });
                &&& r == (sel.0.y > 0)
                &&& (r ==> final(self).synced() && Editor::committed(
                    *old(self),
                    *final(self),
                    Editor::spec_rows_moved_up(old(self).buf(), sel.0.y as int, sel.1.y as int),
                    old(self).cursor,
                    anc2,
                ))
                &&& (!r ==> *final(self) == *old(self))
            }),
    {
        let (begin, end) = match self.get_selection() {
            Some(p) => p,
            None => (self.cursor, self.cursor),
        };
        if begin.y == 0 {
            return false;
        }
        self.update_last_history_state();
        let ghost hist1 = self.history;
        self.dirty = true;
        let nrows = self.buffer.len();
        let ghost target = Editor::spec_rows_moved_up(
            old(self).buf(),
            begin.y as int,
            end.y as int,
        );
        let mut i: usize = begin.y;
        while i <= end.y
            invariant
                1 <= begin.y <= i <= end.y + 1,
                end.y < self.buffer@.len(),
                self.buffer@.len() == nrows,
                self.buffer@.len() == old(self).buffer@.len(),
                begin.y <= end.y,
                target == Editor::spec_rows_moved_up(
                    old(self).buf(),
                    begin.y as int,
                    end.y as int,
                ),
                forall|j: int|
                    0 <= j < i - 1 && j >= begin.y - 1 ==> #[trigger] rows_view(self.buffer@)[j]
                        == target[j],
                forall|j: int|
                    0 <= j < begin.y - 1 ==> #[trigger] rows_view(self.buffer@)[j] == target[j],
                i <= end.y ==> rows_view(self.buffer@)[i - 1] == old(self).buf()[begin.y - 1],
                forall|j: int|
                    i <= j < self.buffer@.len() ==> #[trigger] rows_view(self.buffer@)[j] == old(
                        self,
                    ).buf()[j],
                i > end.y ==> rows_view(self.buffer@)[end.y as int] == old(self).buf()[begin.y - 1],
                i > end.y ==> i == end.y + 1,
                self.wf(),
                self.filename == old(self).filename,
                self.is_crlf == old(self).is_crlf,
                self.status_string == old(self).status_string,
                self.terminal == old(self).terminal,
                self.sidebar_width == old(self).sidebar_width,
                self.syntax == old(self).syntax,
                self.search == old(self).search,
                self.search_result == old(self).search_result,
                self.is_searching == old(self).is_searching,
                self.history == hist1,
                self.dirty,
                self.viewbox == old(self).viewbox,
                self.cursor == old(self).cursor,
                self.anchor == old(self).anchor,
            decreases end.y + 1 - i,
        {
            self.swap_rows(i - 1);
            i += 1;
        }
        proof {
            assert(rows_view(self.buffer@) =~= target);
        }
        match &self.anchor {
            Some(a) => {
                let ay = a.y;
                let ax = a.x;
                self.anchor = Some(Position { x: ax, y: ay - 1 });
            },
            None => {},
        }
        self.create_history();
        true
    }

    /// Move the selected rows (or the cursor row) one row down, committed as
    /// a new undo step; from the bottom row nothing happens. The anchor
    /// follows the rows; the cursor stays.
    pub fn move_lines_down(&mut self) -> (r: bool)
        requires
            old(self).wf(),
            old(self).synced(),
        ensures
            final(self).wf(),
            final(self).same_surroundings(*old(self)),
            ({
                let sel = (match sel_between(old(self).anchor, old(self).cursor) {
                    Option::Some(p) => p,
                    Option::None => (old(self).cursor, old(self).cursor),
                });
                let anc2 = (match old(self).anchor {
                    Option::Some(a) => Some(Position { x: a.x, y: (a.y + 1) as usize }),
                    Option::None => None,
                });
                &&& r == (sel.1.y + 1 < old(self).buffer@.len())
                &&& (r ==> final(self).synced() && Editor::committed(
                    *old(self),
                    *final(self),
                    Editor::spec_rows_moved_down(old(self).buf(), sel.0.y as int, sel.1.y as int),
                    old(self).cursor,
                    anc2,
                ))
                &&& (!r ==> *final(self) == *old(self))
            }),
    {
        let (begin, end) = match self.get_selection() {
            Some(p) => p,
            None => (self.cursor, self.cursor),
        };
        if end.y >= self.buffer.len() - 1 {
            return false;
        }
        self.update_last_history_state();
        let ghost hist1 = self.history;
        self.dirty = true;
        let nrows = self.buffer.len();
        let ghost buf0 = rows_view(self.buffer@);
        let ghost target = Editor::spec_rows_moved_down(buf0, begin.y as int, end.y as int);
        proof {
            assert(buf0 == old(self).buf());
            assert(buf0.len() == nrows);
        }
        let mut i: usize = end.y + 1;
        while i > begin.y
            invariant
                begin.y <= i <= end.y + 1,
                end.y + 1 < nrows,
                self.buffer@.len() == nrows,
                buf0.len() == nrows,
                begin.y <= end.y,
                target == Editor::spec_rows_moved_down(buf0, begin.y as int, end.y as int),
                forall|j: int|
                    i < j <= end.y + 1 ==> #[trigger] rows_view(self.buffer@)[j] == target[j],
                forall|j: int|
                    end.y + 1 < j < self.buffer@.len() ==> #[trigger] rows_view(self.buffer@)[j]
                        == buf0[j],
                forall|j: int|
                    0 <= j < i ==> #[trigger] rows_view(self.buffer@)[j] == buf0[j],
                rows_view(self.buffer@)[i as int] == buf0[end.y + 1],
                self.wf(),
                self.filename == old(self).filename,
                self.is_crlf == old(self).is_crlf,
                self.status_string == old(self).status_string,
                self.terminal == old(self).terminal,
                self.sidebar_width == old(self).sidebar_width,
                self.syntax == old(self).syntax,
                self.search == old(self).search,
                self.search_result == old(self).search_result,
                self.is_searching == old(self).is_searching,
                self.history == hist1,
                self.dirty,
                self.viewbox == old(self).viewbox,
                self.cursor == old(self).cursor,
                self.anchor == old(self).anchor,
            decreases i,
        {
            let ghost pre = rows_view(self.buffer@);
            self.swap_rows(i - 1);
            proof {
                let post = rows_view(self.buffer@);
                assert(buf0.len() == nrows);
                assert forall|j: int| i - 1 < j <= end.y + 1 implies #[trigger] post[j] == target[j]
                by {
                    assert(target == Seq::new(
                        buf0.len(),
                        |j: int|
                            if begin.y < j <= end.y + 1 {
                                buf0[j - 1]
                            } else if j == begin.y {
                                buf0[end.y + 1]
                            } else {
                                buf0[j]
                            },
                    ));
                    if j == i {
                        assert(post[j] == pre[i - 1]);
                        assert(pre[i - 1] == buf0[i - 1]);
                        assert(target[j] == buf0[j - 1]);
                    } else {
                        assert(post[j] == pre[j]);
                    }
                }
                assert(post[i - 1] == pre[i as int]);
            }
            i -= 1;
        }
        proof {
            assert(rows_view(self.buffer@) =~= target);
        }
        match &self.anchor {
            Some(a) => {
                let ay = a.y;
                let ax = a.x;
                proof {
                    assert(ay < nrows);
                }
                self.anchor = Some(Position { x: ax, y: ay + 1 });
            },
            None => {},
        }
        self.create_history();
        true
    }

    /// Duplicating the selected row range inserts a copy of it right below
    /// itself.
    pub open spec fn spec_rows_duplicated(buf: Seq<RowV>, b: int, e: int) -> Seq<RowV>
        recommends
            0 <= b <= e < buf.len(),
    {
        buf.take(e + 1) + buf.subrange(b, e + 1) + buf.skip(e + 1)
    }

    /// Duplicate the selected rows (or the cursor row) below themselves,
    /// committed as a new undo step. With `down`, the cursor and anchor move
    /// onto the copy; without, they stay on the original rows.
    #[verifier::rlimit(100)]
    pub fn duplicate_lines(&mut self, down: bool)
        requires
            old(self).wf(),
            old(self).synced(),
        ensures
            final(self).wf(),
            final(self).synced(),
            final(self).same_surroundings(*old(self)),
            ({
                let sel = (match sel_between(old(self).anchor, old(self).cursor) {
                    Option::Some(p) => p,
                    Option::None => (old(self).cursor, old(self).cursor),
                });
                let count = sel.1.y - sel.0.y + 1;
                let cur2 = if down {
                    Position { x: old(self).cursor.x, y: (old(self).cursor.y + count) as usize }
                } else {
                    old(self).cursor
                };
                let anc2 = if down {
                    match old(self).anchor {
                        Option::Some(a) => Some(Position { x: a.x, y: (a.y + count) as usize }),
                        Option::None => None,
                    }
                } else {
                    old(self).anchor
                };
                Editor::committed(
                    *old(self),
                    *final(self),
                    Editor::spec_rows_duplicated(old(self).buf(), sel.0.y as int, sel.1.y as int),
                    cur2,
                    anc2,
                )
            }),
    {
        let (begin, end) = match self.get_selection() {
            Some(p) => p,
            None => (self.cursor, self.cursor),
        };
        self.update_last_history_state();
        let ghost hist1 = self.history;
        self.dirty = true;
        let nrows = self.buffer.len();
        let ghost target = Editor::spec_rows_duplicated(
            old(self).buf(),
            begin.y as int,
            end.y as int,
        );
        let count = end.y - begin.y + 1;
        let mut k: usize = 0;
        while k < count
            invariant
                k <= count,
                count == end.y - begin.y + 1,
                begin.y <= end.y < nrows,
                nrows == old(self).buffer@.len(),
                self.buffer@.len() == nrows + k,
                rows_view(self.buffer@) =~= old(self).buf().take(end.y + 1) + old(
                    self,
                ).buf().subrange(end.y + 1 - k, end.y + 1) + old(self).buf().skip(end.y + 1),
                self.wf(),
                self.filename == old(self).filename,
                self.is_crlf == old(self).is_crlf,
                self.status_string == old(self).status_string,
                self.terminal == old(self).terminal,
                self.sidebar_width == old(self).sidebar_width,
                self.syntax == old(self).syntax,
                self.search == old(self).search,
                self.search_result == old(self).search_result,
                self.is_searching == old(self).is_searching,
                self.history == hist1,
                self.dirty,
                self.viewbox == old(self).viewbox,
                self.cursor == old(self).cursor,
                self.anchor == old(self).anchor,
            decreases count - k,
        {
            let ghost pre = rows_view(self.buffer@);
            let idx = end.y - k;
            let row = self.buffer[idx].clone();
            proof {
                assert(pre[idx as int] == self.buffer@[idx as int]@);
                assert(pre[idx as int] == old(self).buf()[idx as int]);
            }
            let cur_len = self.buffer.len();
            proof {
                assert(end.y + 1 <= cur_len);
            }
            self.buffer.insert(end.y + 1, row);
            proof {
                assert forall|j: int| 0 <= j < self.buffer@.len() implies #[trigger] rows_view(
                    self.buffer@,
                )[j] == (old(self).buf().take(end.y + 1) + old(self).buf().subrange(
                    end.y - k,
                    end.y + 1,
                ) + old(self).buf().skip(end.y + 1))[j] by {
                    assert(rows_view(self.buffer@)[j] == self.buffer@[j]@);
                    if j < end.y + 1 {
                        assert(self.buffer@[j]@ == pre[j]);
                    } else if j == end.y + 1 {
                        assert(self.buffer@[j]@ == old(self).buf()[idx as int]);
                    } else {
                        assert(self.buffer@[j]@ == pre[j - 1]);
                    }
                }
            }
            k += 1;
        }
        proof {
            assert(rows_view(self.buffer@) =~= target);
        }
        if down {
            let new_len = self.buffer.len();
            proof {
                assert(self.buffer@.len() == nrows + count);
                assert(self.cursor.y + count < new_len);
            }
            self.cursor.y = self.cursor.y + count;
            match &self.anchor {
                Some(a) => {
                    let ay = a.y;
                    let ax = a.x;
                    proof {
                        assert(ay + count < new_len);
                    }
                    self.anchor = Some(Position { x: ax, y: ay + count });
                },
                None => {},
            }
        }
        self.create_history();
    }

    /// Whether the window is large enough to edit in: at least 40 columns
    /// and 9 rows. (A too-small window shows a hint instead of the document.)
    pub fn check_minimum_window_size(&self) -> (r: bool)
        ensures
            r == !(self.terminal.width < 40 || self.terminal.height < 9),
    {
        !(self.terminal.width < 40 || self.terminal.height < 9)
    }

    /// Place the terminal cursor where the document cursor falls on screen,
    /// or hide it when it is scrolled out of view.
    pub fn render_cursor(&mut self)
        requires
            old(self).wf(),
        ensures
            final(self).wf(),
            ({
                let c = Editor::spec_cursor_position(*old(self));
                let sx = if c.x + old(self).sidebar_width > usize::MAX {
                    usize::MAX as int
                } else {
                    c.x + old(self).sidebar_width
                };
                let vis = sx >= old(self).viewbox.x && sx - old(self).viewbox.x < old(
                    self,
                ).terminal.width && c.y >= old(self).viewbox.y && c.y - old(self).viewbox.y < old(
                    self,
                ).terminal.height;
                final(self).terminal.cursor == (if vis {
                    Some(
                        Position {
                            x: (sx - old(self).viewbox.x) as usize,
                            y: (c.y - old(self).viewbox.y) as usize,
                        },
                    )
                } else {
                    None
                })
            }),
            final(self).terminal.buffer == old(self).terminal.buffer,
            final(self).terminal.last_buffer == old(self).terminal.last_buffer,
            final(self).terminal.height == old(self).terminal.height,
            final(self).terminal.width == old(self).terminal.width,
            *final(self) == (Editor { terminal: final(self).terminal, ..*old(self) }),
    {
        let c = self.get_cursor_position();
        let sx = c.x.saturating_add(self.sidebar_width);
        if sx >= self.viewbox.x && sx - self.viewbox.x < self.terminal.width && c.y
            >= self.viewbox.y && c.y - self.viewbox.y < self.terminal.height {
            self.terminal.cursor = Some(
                Position { x: sx - self.viewbox.x, y: c.y - self.viewbox.y },
            );
        } else {
            self.terminal.cursor = None;
        }
    }

    /// A run of `n` blank one-column space cells.
    pub open spec fn blank_cells(n: int) -> Seq<CellV> {
        Seq::new(n as nat, |j: int| CellV { text: seq![' '], width: 1nat })
    }

    /// The style the background is painted in.
    pub open spec fn bg_style() -> Style {
        Style { fg: None, bg: Some(Color { r: 34, g: 34, b: 34 }), bold: false, underlined: false }
    }

    /// Filling every row of the grid from row `i` down with blank cells on
    /// the background.
    pub open spec fn paint_background(g: Seq<PixelV>, w: int, h: int, i: int) -> Seq<PixelV>
        decreases h - i,
    {
        if i < 0 || i >= h {
            g
        } else {
            Editor::paint_background(
                place_cells(g, w, h, 0, i, Editor::bg_style(), Editor::blank_cells(w)),
                w,
                h,
                i + 1,
            )
        }
    }

    /// The status bar's left text: the filename (or a placeholder name) and
    /// the unsaved marker.
    pub open spec fn spec_left_label(pre: Editor) -> Seq<char> {
        " "@ + (match pre.filename {
            Option::Some(n) => n@,
            Option::None => "Untitled"@,
        }) + (if pre.dirty {
            " (未保存)"@
        } else {
            Seq::<char>::empty()
        })
    }

    /// The status bar's right text: the one-based cursor position, the
    /// line-ending convention, and the language name.
    pub open spec fn spec_right_label(pre: Editor) -> Seq<char> {
        let ln = if pre.cursor.y + 1 > usize::MAX {
            usize::MAX as nat
        } else {
            (pre.cursor.y + 1) as nat
        };
        let col = if pre.cursor.x + 1 > usize::MAX {
            usize::MAX as nat
        } else {
            (pre.cursor.x + 1) as nat
        };
        "行 "@ + crate::util::spec_decimal(ln) + "，列 "@ + crate::util::spec_decimal(col) + "  "@
            + (if pre.is_crlf {
            "CRLF "@
        } else {
            "LF "@
        }) + pre.syntax.name@ + " "@
    }

    /// The status bar's cells: the left text, padding pushing the right text
    /// against the edge (the logo takes eight columns), and the right text.
    pub open spec fn spec_bar_cells(pre: Editor, w: int) -> Seq<CellV> {
        let lc = str_cells(Editor::spec_left_label(pre));
        let rc = str_cells(Editor::spec_right_label(pre));
        let lw = width_sum(lc, lc.len() as int);
        let rw = width_sum(rc, rc.len() as int);
        let used = if lw + rw > usize::MAX {
            usize::MAX as int
        } else {
            lw + rw
        };
        let used8 = if used + 8 > usize::MAX {
            usize::MAX as int
        } else {
            used + 8
        };
        let pad = if w >= used8 {
            w - used8
        } else {
            0int
        };
        lc + Editor::blank_cells(pad) + rc
    }

    /// The logo, status bar and debug line, painted over the grid.
    pub open spec fn paint_chrome(pre: Editor, g: Seq<PixelV>, w: int, h: int) -> Seq<PixelV> {
        let bar_y = if h >= 2 {
            h - 2
        } else {
            0int
        };
        let dbg_y = if h >= 1 {
            h - 1
        } else {
            0int
        };
        let logo_style = Style {
            fg: Some(Color { r: 34, g: 34, b: 34 }),
            bg: Some(Color { r: 166, g: 226, b: 46 }),
            bold: false,
            underlined: false,
        };
        let bar_style = Style {
            fg: Some(Color { r: 255, g: 255, b: 255 }),
            bg: Some(Color { r: 51, g: 51, b: 51 }),
            bold: false,
            underlined: false,
        };
        let dbg_style = Style {
            fg: Some(Color { r: 126, g: 126, b: 126 }),
            bg: Some(Color { r: 34, g: 34, b: 34 }),
            bold: false,
            underlined: false,
        };
        let g1 = place_cells(g, w, h, 0, bar_y, logo_style, str_cells(" ARCAEA "@));
        let g2 = place_cells(g1, w, h, 8, bar_y, bar_style, Editor::spec_bar_cells(pre, w));
        place_cells(g2, w, h, 0, dbg_y, dbg_style, str_cells(pre.status_string@))
    }

    /// The label of sidebar row `i` when the viewport starts at row `vby` of
    /// a `len`-row document: the one-based line number of the row it shows,
    /// or a tilde past the end.
    pub open spec fn sidebar_label(vby: int, len: int, i: int) -> Seq<char> {
        let here = if vby + i > usize::MAX {
            usize::MAX as int
        } else {
            vby + i
        };
        if here < len {
            let ln = if here + 1 > usize::MAX {
                usize::MAX as nat
            } else {
                (here + 1) as nat
            };
            crate::util::spec_decimal(ln)
        } else {
            "~"@
        }
    }

    /// The style of sidebar row `i`: highlighted on the cursor row `cy`,
    /// dimmed elsewhere, always on the sidebar background.
    pub open spec fn sidebar_style(vby: int, len: int, cy: int, i: int) -> Style {
        let here = if vby + i > usize::MAX {
            usize::MAX as int
        } else {
            vby + i
        };
        let fg = if here < len && here == cy {
            Color { r: 204, g: 204, b: 204 }
        } else {
            Color { r: 126, g: 126, b: 126 }
        };
        Style {
            fg: Some(fg),
            bg: Some(Color { r: 51, g: 51, b: 51 }),
            bold: false,
            underlined: false,
        }
    }

    /// The cells of sidebar row `i`: the label right-aligned to one column
    /// short of the sidebar width `sbw`, and a separator space.
    pub open spec fn sidebar_cells(vby: int, len: int, sbw: int, i: int) -> Seq<CellV> {
        let lab = str_cells(Editor::sidebar_label(vby, len, i));
        let lw = width_sum(lab, lab.len() as int);
        let goal = if sbw >= 1 {
            sbw - 1
        } else {
            0int
        };
        let pad = if lw >= goal {
            0int
        } else {
            goal - lw
        };
        Editor::blank_cells(pad) + lab + Editor::blank_cells(1)
    }

    /// The sidebar rows from `i` up to `rows`, painted over the grid.
    pub open spec fn paint_sidebar(
        g: Seq<PixelV>,
        w: int,
        h: int,
        vby: int,
        len: int,
        cy: int,
        sbw: int,
        i: int,
        rows: int,
    ) -> Seq<PixelV>
        decreases rows - i,
    {
        if i < 0 || i >= rows {
            g
        } else {
            Editor::paint_sidebar(
                place_cells(
                    g,
                    w,
                    h,
                    0,
                    i,
                    Editor::sidebar_style(vby, len, cy, i),
                    Editor::sidebar_cells(vby, len, sbw, i),
                ),
                w,
                h,
                vby,
                len,
                cy,
                sbw,
                i + 1,
                rows,
            )
        }
    }

    /// The style of document cell `idx` of row `line`: the highlight color
    /// of its tag (plain for the virtual row-end cell), tinted when it lies
    /// inside the selection.
    pub open spec fn doc_cell_style(pre: Editor, line: int, idx: int, is_virtual: bool) -> Style {
        let fg = if !is_virtual && idx < pre.buf()[line].syntax.len() {
            crate::style::spec_token_color(pre.buf()[line].syntax[idx])
        } else {
            crate::style::spec_token_color(TokenType::Normal)
        };
        let bg = (match sel_between(pre.anchor, pre.cursor) {
            Option::Some(p) => {
                let here = Position { x: idx as usize, y: line as usize };
                if p.0.spec_le(here) && here.spec_lt(p.1) {
                    Color { r: 38, g: 79, b: 120 }
                } else {
                    Color { r: 34, g: 34, b: 34 }
                }
            },
            Option::None => Color { r: 34, g: 34, b: 34 },
        });
        Style { fg: Some(fg), bg: Some(bg), bold: false, underlined: false }
    }

    /// The visible cells of document row `line` from cell `idx` on (with the
    /// widths of cells before `idx` summed in `acc`), painted over the grid:
    /// each cell lands at the sidebar offset plus its visual column less the
    /// horizontal scroll; cells scrolled out on the left are skipped, and
    /// the row stops at the right edge. A virtual space cell past the row's
    /// end carries the selection tint of the line break.
    pub open spec fn paint_doc_row(
        pre: Editor,
        g: Seq<PixelV>,
        line: int,
        idx: int,
        acc: int,
    ) -> Seq<PixelV>
        decreases pre.buf()[line].cells.len() + 1 - idx,
    {
        let w = pre.terminal.width as int;
        let h = pre.terminal.height as int;
        let cells = pre.buf()[line].cells;
        let row_len = cells.len() as int;
        if idx < 0 || idx > row_len {
            g
        } else {
            let cell = if idx < row_len {
                cells[idx]
            } else {
                CellV { text: seq![' '], width: 1nat }
            };
            let cw = cell.width as int;
            let s_after = if acc + cw > usize::MAX {
                usize::MAX as int
            } else {
                acc + cw
            };
            let dx = if pre.sidebar_width + s_after > usize::MAX {
                usize::MAX as int
            } else {
                pre.sidebar_width + s_after
            };
            let limit = if pre.viewbox.x + w > usize::MAX {
                usize::MAX as int
            } else {
                pre.viewbox.x + w
            };
            if dx >= limit {
                g
            } else {
                let cwvb = if pre.viewbox.x + cw > usize::MAX {
                    usize::MAX as int
                } else {
                    pre.viewbox.x + cw
                };
                let g2 = if s_after >= cwvb && dx >= cwvb {
                    place_cell(
                        g,
                        w,
                        h,
                        dx - cw - pre.viewbox.x,
                        line - pre.viewbox.y,
                        Editor::doc_cell_style(pre, line, idx, idx == row_len),
                        cell,
                    )
                } else {
                    g
                };
                if idx == row_len {
                    g2
                } else {
                    Editor::paint_doc_row(pre, g2, line, idx + 1, s_after)
                }
            }
        }
    }

    /// The visible document rows from `line` up to `last`, painted over the
    /// grid.
    pub open spec fn paint_doc(pre: Editor, g: Seq<PixelV>, line: int, last: int) -> Seq<PixelV>
        decreases last - line,
    {
        if line < 0 || line >= last || line >= pre.buf().len() {
            g
        } else {
            Editor::paint_doc(pre, Editor::paint_doc_row(pre, g, line, 0, 0), line + 1, last)
        }
    }

    /// The whole intended frame `render_to_buffer` paints over the front
    /// grid: the blank background, then the logo, status bar and debug line,
    /// then the sidebar, then the visible document slice, all with the
    /// recomputed sidebar width.
    pub open spec fn spec_frame(pre: Editor) -> Seq<PixelV> {
        let ed = Editor { sidebar_width: Editor::spec_sidebar_width(pre) as usize, ..pre };
        let w = pre.terminal.width as int;
        let h = pre.terminal.height as int;
        let rows = if h >= 2 {
            h - 2
        } else {
            0int
        };
        let last = if pre.viewbox.y + rows > usize::MAX {
            usize::MAX as int
        } else {
            pre.viewbox.y + rows
        };
        let g1 = Editor::paint_background(pre.terminal.front(), w, h, 0);
        let g2 = Editor::paint_chrome(ed, g1, w, h);
        let g3 = Editor::paint_sidebar(
            g2,
            w,
            h,
            ed.viewbox.y as int,
            ed.buffer@.len() as int,
            ed.cursor.y as int,
            ed.sidebar_width as int,
            0,
            rows,
        );
        Editor::paint_doc(ed, g3, ed.viewbox.y as int, last)
    }

    /// Paint the line-number sidebar: each visible row's one-based number,
    /// right-aligned, highlighted on the cursor row, and a tilde for rows
    /// past the end.
    pub fn render_sidebar(&mut self)
        requires
            old(self).wf(),
        ensures
            final(self).wf(),
            final(self).terminal.height == old(self).terminal.height,
            final(self).terminal.width == old(self).terminal.width,
            final(self).terminal.cursor == old(self).terminal.cursor,
            final(self).terminal.last_buffer == old(self).terminal.last_buffer,
            final(self).terminal.front() == Editor::paint_sidebar(
                old(self).terminal.front(),
                old(self).terminal.width as int,
                old(self).terminal.height as int,
                old(self).viewbox.y as int,
                old(self).buffer@.len() as int,
                old(self).cursor.y as int,
                old(self).sidebar_width as int,
                0,
                if old(self).terminal.height >= 2 {
                    old(self).terminal.height - 2
                } else {
                    0int
                },
            ),
            *final(self) == (Editor { terminal: final(self).terminal, ..*old(self) }),
    {
        let ghost w = self.terminal.width as int;
        let ghost h = self.terminal.height as int;
        let ghost vby = self.viewbox.y as int;
        let ghost len = self.buffer@.len() as int;
        let ghost cy = self.cursor.y as int;
        let ghost sbw = self.sidebar_width as int;
        let rows = self.terminal.height.saturating_sub(2);
        let ghost front0 = self.terminal.front();
        let mut i: usize = 0;
        while i < rows
            invariant
                i <= rows,
                rows as int == (if h >= 2 {
                    h - 2
                } else {
                    0int
                }),
                w == self.terminal.width as int,
                h == self.terminal.height as int,
                vby == self.viewbox.y as int,
                len == self.buffer@.len() as int,
                cy == self.cursor.y as int,
                sbw == self.sidebar_width as int,
                self.wf(),
                self.terminal.cursor == old(self).terminal.cursor,
                self.terminal.last_buffer == old(self).terminal.last_buffer,
                *self == (Editor { terminal: self.terminal, ..*old(self) }),
                Editor::paint_sidebar(front0, w, h, vby, len, cy, sbw, 0, rows as int)
                    == Editor::paint_sidebar(
                    self.terminal.front(),
                    w,
                    h,
                    vby,
                    len,
                    cy,
                    sbw,
                    i as int,
                    rows as int,
                ),
            decreases rows - i,
        {
            let here = self.viewbox.y.saturating_add(i);
            let width_goal = self.sidebar_width.saturating_sub(1);
            let label: String;
            let is_line = here < self.buffer.len();
            if is_line {
                label = crate::util::usize_to_string(here.saturating_add(1));
            } else {
                label = "~".to_owned();
            }
            let mut style = Style::new();
            if is_line && here == self.cursor.y {
                style = style.with(crate::style::text_sidebar_selected());
            } else {
                style = style.with(crate::style::text_dimmed());
            }
            style = style.on(crate::style::background_sidebar());
            proof {
                assert(label@ == Editor::sidebar_label(vby, len, i as int));
                assert(style == Editor::sidebar_style(vby, len, cy, i as int));
            }
            let lab_row = Row::from_str(label.as_str());
            let lab_w = visual_width_upto(&lab_row.rope, lab_row.rope.len());
            let ghost lab = str_cells(label@);
            let mut pad: usize = 0;
            while pad.saturating_add(lab_w) < width_goal
                invariant
                    pad <= width_goal,
                    pad as int <= (if lab_w as int >= width_goal as int {
                        0int
                    } else {
                        width_goal - lab_w
                    }),
                decreases width_goal - pad,
            {
                pad += 1;
            }
            proof {
                let goal = (if sbw >= 1 {
                    sbw - 1
                } else {
                    0int
                });
                assert(pad as int == (if lab_w >= goal {
                    0int
                } else {
                    goal - lab_w
                }));
            }
            let mut cells = blank_run(pad);
            let ghost seg1 = cells@;
            let mut labv = clone_cells(&lab_row.rope);
            proof {
                lemma_cells_of_view(labv@);
                lemma_cells_of_view(lab_row.rope@);
            }
            let ghost seg2 = labv@;
            cells.append(&mut labv);
            proof {
                lemma_cells_of_append(seg1, seg2);
            }
            let ghost seg12 = cells@;
            let mut tailv = blank_run(1);
            let ghost seg3 = tailv@;
            cells.append(&mut tailv);
            proof {
                lemma_cells_of_append(seg12, seg3);
                assert(cells_of(cells@) =~= Editor::sidebar_cells(vby, len, sbw, i as int));
            }
            self.terminal.write(Position { x: 0, y: i }, style, &cells);
            i += 1;
        }
    }

    /// Paint the whole intended frame into the front grid: blank background,
    /// the logo, status bar and debug line, the sidebar, and the visible
    /// document slice with highlight colors and the selection tint.
    #[verifier::rlimit(100)]
    #[verifier::spinoff_prover]
    pub fn render_to_buffer(&mut self)
        requires
            old(self).wf(),
        ensures
            final(self).wf(),
            final(self).terminal.height == old(self).terminal.height,
            final(self).terminal.width == old(self).terminal.width,
            final(self).terminal.last_buffer == old(self).terminal.last_buffer,
            final(self).terminal.cursor == old(self).terminal.cursor,
            final(self).sidebar_width == Editor::spec_sidebar_width(*old(self)) as usize,
            final(self).terminal.front() == Editor::spec_frame(*old(self)),
            *final(self) == (Editor {
                terminal: final(self).terminal,
                sidebar_width: final(self).sidebar_width,
                ..*old(self)
            }),
    {
        self.update_sidebar_width();
        let ghost ed = *self;
        let ghost w = self.terminal.width as int;
        let ghost h = self.terminal.height as int;
        let ghost front0 = self.terminal.front();

        // background fill
        let wcols = self.terminal.width;
        let hrows = self.terminal.height;
        let bg = Style::new().on(crate::style::background());
        proof {
            assert(bg == Editor::bg_style());
        }
        let blanks = blank_run(wcols);
        let mut i: usize = 0;
        while i < hrows
            invariant
                i <= hrows,
                w == self.terminal.width as int,
                h == self.terminal.height as int,
                hrows as int == h,
                self.wf(),
                crate::terminal::cells_of(blanks@) == Editor::blank_cells(w),
                bg == Editor::bg_style(),
                self.terminal.cursor == ed.terminal.cursor,
                self.terminal.last_buffer == ed.terminal.last_buffer,
                *self == (Editor { terminal: self.terminal, ..ed }),
                Editor::paint_background(front0, w, h, 0) == Editor::paint_background(
                    self.terminal.front(),
                    w,
                    h,
                    i as int,
                ),
            decreases hrows - i,
        {
            self.terminal.write(Position { x: 0, y: i }, bg, &blanks);
            i += 1;
        }
        let ghost g1 = self.terminal.front();
        proof {
            assert(g1 == Editor::paint_background(front0, w, h, 0));
        }

        // status bar: logo, filename and dirty mark, position and file info
        let logo_style = Style::new().with(crate::style::text_primary()).on(
            crate::style::background_primary(),
        );
        let logo = Row::from_str(" ARCAEA ");
        let bar_y = hrows.saturating_sub(2);
        proof {
            lemma_cells_of_view(logo.rope@);
        }
        self.terminal.write(Position { x: 0, y: bar_y }, logo_style, &logo.rope);
        let mut left = " ".to_owned();
        match &self.filename {
            Some(name) => {
                left.append(name.as_str());
            },
            None => {
                left.append("Untitled");
            },
        }
        if self.dirty {
            left.append(" (未保存)");
        }
        proof {
            assert(left@ =~= Editor::spec_left_label(ed));
        }
        let mut right = "行 ".to_owned();
        let ln = crate::util::usize_to_string(self.cursor.y.saturating_add(1));
        right.append(ln.as_str());
        right.append("，列 ");
        let col = crate::util::usize_to_string(self.cursor.x.saturating_add(1));
        right.append(col.as_str());
        right.append("  ");
        if self.is_crlf {
            right.append("CRLF ");
        } else {
            right.append("LF ");
        }
        right.append(self.syntax.name.as_str());
        right.append(" ");
        proof {
            assert(right@ =~= Editor::spec_right_label(ed));
        }
        let left_row = Row::from_str(left.as_str());
        let right_row = Row::from_str(right.as_str());
        let ghost lc = str_cells(Editor::spec_left_label(ed));
        let ghost rc = str_cells(Editor::spec_right_label(ed));
        let lw = visual_width_upto(&left_row.rope, left_row.rope.len());
        let rw = visual_width_upto(&right_row.rope, right_row.rope.len());
        let pad = wcols.saturating_sub(lw.saturating_add(rw).saturating_add(8));
        let bar_style = Style::new().with(crate::style::text_statusbar()).on(
            crate::style::background_sidebar(),
        );
        let mut bar_cells = clone_cells(&left_row.rope);
        proof {
            lemma_cells_of_view(bar_cells@);
            lemma_cells_of_view(left_row.rope@);
        }
        let ghost seg1 = bar_cells@;
        let mut padv = blank_run(pad);
        let ghost seg2 = padv@;
        bar_cells.append(&mut padv);
        proof {
            lemma_cells_of_append(seg1, seg2);
        }
        let ghost seg12 = bar_cells@;
        let mut rcv = clone_cells(&right_row.rope);
        proof {
            lemma_cells_of_view(rcv@);
            lemma_cells_of_view(right_row.rope@);
        }
        let ghost seg3 = rcv@;
        bar_cells.append(&mut rcv);
        proof {
            lemma_cells_of_append(seg12, seg3);
            assert(cells_of(bar_cells@) =~= Editor::spec_bar_cells(ed, w));
        }
        self.terminal.write(Position { x: 8, y: bar_y }, bar_style, &bar_cells);

        // debug line
        let dbg_style = Style::new().with(crate::style::text_dimmed()).on(
            crate::style::background(),
        );
        let dbg = Row::from_str(self.status_string.as_str());
        proof {
            lemma_cells_of_view(dbg.rope@);
        }
        self.terminal.write(Position { x: 0, y: hrows.saturating_sub(1) }, dbg_style, &dbg.rope);
        proof {
            assert(self.terminal.front() == Editor::paint_chrome(ed, g1, w, h));
        }

        self.render_sidebar();
        let ghost g3 = self.terminal.front();
        proof {
            assert(g3 == Editor::paint_sidebar(
                Editor::paint_chrome(ed, g1, w, h),
                w,
                h,
                ed.viewbox.y as int,
                ed.buffer@.len() as int,
                ed.cursor.y as int,
                ed.sidebar_width as int,
                0,
                if h >= 2 {
                    h - 2
                } else {
                    0int
                },
            ));
        }

        // the visible document slice
        let view_rows = hrows.saturating_sub(2);
        let last = self.viewbox.y.saturating_add(view_rows);
        let mut line: usize = self.viewbox.y;
        while line < last && line < self.buffer.len()
            invariant
                self.wf(),
                w == self.terminal.width as int,
                h == self.terminal.height as int,
                self.terminal.cursor == ed.terminal.cursor,
                self.terminal.last_buffer == ed.terminal.last_buffer,
                line >= self.viewbox.y,
                w == ed.terminal.width as int,
                h == ed.terminal.height as int,
                last as int == (if ed.viewbox.y + (if h >= 2 {
                    h - 2
                } else {
                    0int
                }) > usize::MAX {
                    usize::MAX as int
                } else {
                    ed.viewbox.y + (if h >= 2 {
                        h - 2
                    } else {
                        0int
                    })
                }),
                *self == (Editor { terminal: self.terminal, ..ed }),
                Editor::paint_doc(ed, g3, ed.viewbox.y as int, last as int) == Editor::paint_doc(
                    ed,
                    self.terminal.front(),
                    line as int,
                    last as int,
                ),
            decreases last - line,
        {
            let screen_y = line - self.viewbox.y;
            let row_len = self.buffer[line].len();
            let mut acc: usize = 0;
            let mut idx: usize = 0;
            proof {
                assert(self.buf()[line as int] == self.buffer@[line as int]@);
            }
            loop
                invariant_except_break
                    Editor::paint_doc(ed, g3, ed.viewbox.y as int, last as int)
                        == Editor::paint_doc(
                        ed,
                        Editor::paint_doc_row(
                            ed,
                            self.terminal.front(),
                            line as int,
                            idx as int,
                            acc as int,
                        ),
                        line + 1,
                        last as int,
                    ),
                invariant
                    idx <= row_len + 1,
                    w == ed.terminal.width as int,
                    h == ed.terminal.height as int,
                    row_len == self.buf()[line as int].cells.len(),
                    row_len == ed.buf()[line as int].cells.len(),
                    line < self.buffer@.len(),
                    line < last,
                    line >= self.viewbox.y,
                    screen_y == line - self.viewbox.y,
                    self.wf(),
                    w == self.terminal.width as int,
                    h == self.terminal.height as int,
                    self.terminal.cursor == ed.terminal.cursor,
                    self.terminal.last_buffer == ed.terminal.last_buffer,
                    *self == (Editor { terminal: self.terminal, ..ed }),
                ensures
                    Editor::paint_doc(ed, g3, ed.viewbox.y as int, last as int)
                        == Editor::paint_doc(ed, self.terminal.front(), line + 1, last as int),
                decreases row_len + 1 - idx,
            {
                if !(idx <= row_len) {
                    proof {
                        assert(Editor::paint_doc_row(
                            ed,
                            self.terminal.front(),
                            line as int,
                            idx as int,
                            acc as int,
                        ) == self.terminal.front());
                    }
                    break ;
                }
                let ghost gpre = self.terminal.front();
                let (cell, is_virtual) = if idx < row_len {
                    (self.buffer[line].rope[idx].clone(), false)
                } else {
                    (space_cell(), true)
                };
                proof {
                    if idx < row_len {
                        assert(cell@ == ed.buf()[line as int].cells[idx as int]);
                    }
                }
                let cw = cell.width;
                let s_after = acc.saturating_add(cw);
                let dx = self.sidebar_width.saturating_add(s_after);
                let limit = self.viewbox.x.saturating_add(self.terminal.width);
                if dx >= limit {
                    proof {
                        assert(ed.buf()[line as int].cells == self.buf()[line as int].cells);
                        assert(ed.sidebar_width == self.sidebar_width);
                        assert(ed.viewbox == self.viewbox);
                        if idx == row_len {
                            assert(cell@ == (CellV { text: seq![' '], width: 1nat }));
                        }
                        assert(Editor::paint_doc_row(ed, gpre, line as int, idx as int, acc as int)
                            == gpre);
                    }
                    break ;
                }
                if s_after >= self.viewbox.x.saturating_add(cw) && dx >= self.viewbox.x.saturating_add(cw) {
                    let fg = if !is_virtual && idx < self.buffer[line].syntax.len() {
                        crate::style::token_color(self.buffer[line].syntax[idx])
                    } else {
                        crate::style::token_color(crate::syntax::TokenType::Normal)
                    };
                    let mut bgc = crate::style::background();
                    if let Some((begin, end)) = self.get_selection() {
                        let here = Position { x: idx, y: line };
                        if begin.le(&here) && here.lt(&end) {
                            bgc = crate::style::background_selected();
                        }
                    }
                    let style = Style::new().with(fg).on(bgc);
                    proof {
                        assert(style == Editor::doc_cell_style(
                            ed,
                            line as int,
                            idx as int,
                            idx == row_len,
                        ));
                    }
                    let px = dx - cw - self.viewbox.x;
                    self.terminal.write_cell(Position { x: px, y: screen_y }, style, &cell);
                }
                proof {
                    assert(ed.buf()[line as int].cells == self.buf()[line as int].cells);
                    assert(ed.sidebar_width == self.sidebar_width);
                    assert(ed.viewbox == self.viewbox);
                    if idx == row_len {
                        assert(cell@ == (CellV { text: seq![' '], width: 1nat }));
                    }
                    assert(Editor::paint_doc_row(ed, gpre, line as int, idx as int, acc as int)
                        == (if idx == row_len {
                        self.terminal.front()
                    } else {
                        Editor::paint_doc_row(
                            ed,
                            self.terminal.front(),
                            line as int,
                            idx + 1,
                            s_after as int,
                        )
                    }));
                }
                if idx == row_len {
                    break ;
                }
                acc = s_after;
                idx += 1;
            }
            line += 1;
        }
        proof {
            assert(Editor::paint_doc(ed, self.terminal.front(), line as int, last as int)
                == self.terminal.front());
            assert(self.terminal.front() == Editor::spec_frame(*old(self)));
        }
    }

    /// Handle one decoded key press: perform the edit, motion or pan it asks
    /// for, and report what the surrounding loop must do next. View-only
    /// pans and select-all report that the viewport must not be re-clamped.
    #[verifier::rlimit(100)]
    #[verifier::spinoff_prover]
    pub fn handle_key(&mut self, k: KeyInput) -> (r: Result<Outcome, Error>)
        requires
            old(self).wf(),
            old(self).synced(),
        ensures
            final(self).wf(),
            final(self).synced() || final(self).history.model() == old(self).history.model(),
            ({
                match k.code {
                    KeyCode::Char(c) => {
                        if k.ctrl && (c == 's' || c == 'S') {
                            r == Ok::<Outcome, Error>(
                                Outcome { action: EditorAction::Save, update_view: true },
                            ) && *final(self) == *old(self)
                        } else if k.ctrl && (c == 'w' || c == 'W') {
                            r == Ok::<Outcome, Error>(
                                Outcome { action: EditorAction::ConfirmExit, update_view: true },
                            ) && *final(self) == *old(self)
                        } else if k.ctrl && (c == 'a' || c == 'A') {
                            r == Ok::<Outcome, Error>(
                                Outcome { action: EditorAction::Nothing, update_view: false },
                            ) && *final(self) == (Editor {
                                anchor: Some(Position { x: 0, y: 0 }),
                                cursor: Position {
                                    x: old(self).buf().last().cells.len() as usize,
                                    y: (old(self).buffer@.len() - 1) as usize,
                                },
                                ..*old(self)
                            })
                        } else if k.ctrl && (c == 'z' || c == 'Z') {
                            &&& r == Ok::<Outcome, Error>(
                                Outcome { action: EditorAction::Nothing, update_view: true },
                            )
                            &&& final(self).history.model() == spec_undo(old(self).history.model())
                            &&& final(self).history.spec_states() == old(self).history.spec_states()
                            &&& final(self).synced()
                            &&& (old(self).history.spec_version() > 1 ==> rows_view(
                                final(self).buffer@,
                            ) == live_buffer(final(self).history.model()) && final(self).cursor
                                == final(self).history.spec_states()[final(self).history.spec_version() - 1].cursor
                                && final(self).viewbox == final(self).history.spec_states()[final(self).history.spec_version() - 1].viewbox
                                && final(self).anchor == final(self).history.spec_states()[final(self).history.spec_version() - 1].anchor
                                && final(self).dirty)
                            &&& (old(self).history.spec_version() <= 1 ==> *final(self) == *old(self))
                        } else if k.ctrl && (c == 'y' || c == 'Y') {
                            &&& r == Ok::<Outcome, Error>(
                                Outcome { action: EditorAction::Nothing, update_view: true },
                            )
                            &&& final(self).history.model() == spec_redo(old(self).history.model())
                            &&& final(self).history.spec_states() == old(self).history.spec_states()
                            &&& final(self).synced()
                            &&& (old(self).history.spec_version() < old(self).history.spec_versions().len() ==> rows_view(final(self).buffer@)
                                == live_buffer(final(self).history.model()) && final(self).cursor
                                == final(self).history.spec_states()[final(self).history.spec_version() - 1].cursor
                                && final(self).viewbox == final(self).history.spec_states()[final(self).history.spec_version() - 1].viewbox
                                && final(self).anchor == final(self).history.spec_states()[final(self).history.spec_version() - 1].anchor
                                && final(self).dirty)
                            &&& (old(self).history.spec_version() >= old(self).history.spec_versions().len() ==> *final(self) == *old(self))
                        } else if k.ctrl && (c == 'c' || c == 'C') {
                            &&& *final(self) == (Editor {
                                anchor: Editor::spec_collapse(old(self).anchor, old(self).cursor),
                                ..*old(self)
                            })
                            &&& (r is Ok ==> r == Ok::<Outcome, Error>(
                                Outcome { action: EditorAction::Nothing, update_view: true },
                            ))
                            &&& (r is Err ==> r->Err_0 is ClipboardError)
                        } else if k.ctrl && (c == 'x' || c == 'X') {
                            let pre1 = Editor {
                                anchor: Editor::spec_collapse(old(self).anchor, old(self).cursor),
                                ..*old(self)
                            };
                            let sel = (match sel_between(pre1.anchor, pre1.cursor) {
                                Option::Some(p) => p,
                                Option::None => (
                                    Position { x: 0, y: pre1.cursor.y },
                                    Position {
                                        x: pre1.buf()[pre1.cursor.y as int].cells.len() as usize,
                                        y: pre1.cursor.y,
                                    },
                                ),
                            });
                            &&& (r is Ok ==> r == Ok::<Outcome, Error>(
                                Outcome { action: EditorAction::Nothing, update_view: true },
                            ) && Editor::committed(
                                pre1,
                                *final(self),
                                spec_delete_range(pre1.buf(), sel.0, sel.1),
                                sel.0,
                                None,
                            ))
                            &&& (r is Err ==> *final(self) == pre1 && r->Err_0 is ClipboardError)
                        } else if k.ctrl && (c == 'v' || c == 'V') {
                            &&& r == Ok::<Outcome, Error>(
                                Outcome { action: EditorAction::Nothing, update_view: true },
                            )
                            &&& (exists|t: Seq<char>| #[trigger] Editor::paste_outcome(
                                *old(self),
                                *final(self),
                                t,
                            ))
                        } else if k.ctrl && (c == 'f' || c == 'F') {
                            r == Ok::<Outcome, Error>(
                                Outcome { action: EditorAction::OpenSearch, update_view: true },
                            ) && *final(self) == *old(self)
                        } else if !k.ctrl && !k.alt {
                            r == Ok::<Outcome, Error>(
                                Outcome { action: EditorAction::Nothing, update_view: true },
                            ) && Editor::committed(
                                *old(self),
                                *final(self),
                                Editor::spec_on_char(*old(self), c).0,
                                Editor::spec_on_char(*old(self), c).1,
                                None,
                            )
                        } else {
                            true
                        }
                    },
                    KeyCode::Tab => r == Ok::<Outcome, Error>(
                        Outcome { action: EditorAction::Nothing, update_view: true },
                    ) && Editor::committed(
                        *old(self),
                        *final(self),
                        Editor::spec_on_tab(*old(self)).0,
                        Editor::spec_on_tab(*old(self)).1,
                        None,
                    ),
                    KeyCode::Enter => r == Ok::<Outcome, Error>(
                        Outcome { action: EditorAction::Nothing, update_view: true },
                    ) && Editor::committed(
                        *old(self),
                        *final(self),
                        Editor::spec_on_enter(*old(self)).0,
                        Editor::spec_on_enter(*old(self)).1,
                        None,
                    ),
                    KeyCode::Backspace => r == Ok::<Outcome, Error>(
                        Outcome { action: EditorAction::Nothing, update_view: true },
                    ) && Editor::committed(
                        *old(self),
                        *final(self),
                        Editor::spec_on_backspace(*old(self)).0,
                        Editor::spec_on_backspace(*old(self)).1,
                        None,
                    ),
                    KeyCode::Delete => r == Ok::<Outcome, Error>(
                        Outcome { action: EditorAction::Nothing, update_view: true },
                    ) && Editor::committed(
                        *old(self),
                        *final(self),
                        Editor::spec_on_delete(*old(self)).0,
                        Editor::spec_on_delete(*old(self)).1,
                        None,
                    ),
                    KeyCode::Left => r == Ok::<Outcome, Error>(
                        Outcome { action: EditorAction::Nothing, update_view: true },
                    ) && *final(self) == (Editor {
                        cursor: Editor::spec_move_left(*old(self), k.shift, k.ctrl).0,
                        anchor: Editor::spec_move_left(*old(self), k.shift, k.ctrl).1,
                        ..*old(self)
                    }),
                    KeyCode::Right => r == Ok::<Outcome, Error>(
                        Outcome { action: EditorAction::Nothing, update_view: true },
                    ) && *final(self) == (Editor {
                        cursor: Editor::spec_move_right(*old(self), k.shift, k.ctrl).0,
                        anchor: Editor::spec_move_right(*old(self), k.shift, k.ctrl).1,
                        ..*old(self)
                    }),
                    KeyCode::Esc => r == Ok::<Outcome, Error>(
                        Outcome { action: EditorAction::ConfirmExit, update_view: true },
                    ) && *final(self) == *old(self),
                    KeyCode::Up => {
                        let sel = (match sel_between(old(self).anchor, old(self).cursor) {
                            Option::Some(p) => p,
                            Option::None => (old(self).cursor, old(self).cursor),
                        });
                        if k.alt && k.shift {
                            &&& r == Ok::<Outcome, Error>(
                                Outcome { action: EditorAction::Nothing, update_view: true },
                            )
                            &&& final(self).synced()
                            &&& Editor::committed(
                                *old(self),
                                *final(self),
                                Editor::spec_rows_duplicated(
                                    old(self).buf(),
                                    sel.0.y as int,
                                    sel.1.y as int,
                                ),
                                old(self).cursor,
                                old(self).anchor,
                            )
                        } else if k.alt {
                            let anc2 = (match old(self).anchor {
                                Option::Some(a) => Some(
                                    Position { x: a.x, y: (a.y - 1) as usize },
                                ),
                                Option::None => None,
                            });
                            &&& r == Ok::<Outcome, Error>(
                                Outcome { action: EditorAction::Nothing, update_view: true },
                            )
                            &&& (sel.0.y > 0 ==> final(self).synced() && Editor::committed(
                                *old(self),
                                *final(self),
                                Editor::spec_rows_moved_up(
                                    old(self).buf(),
                                    sel.0.y as int,
                                    sel.1.y as int,
                                ),
                                old(self).cursor,
                                anc2,
                            ))
                            &&& (sel.0.y == 0 ==> *final(self) == *old(self))
                        } else if k.ctrl {
                            r == Ok::<Outcome, Error>(
                                Outcome { action: EditorAction::Nothing, update_view: false },
                            ) && *final(self) == (Editor {
                                viewbox: Position {
                                    x: old(self).viewbox.x,
                                    y: if old(self).viewbox.y >= 1 {
                                        (old(self).viewbox.y - 1) as usize
                                    } else {
                                        0usize
                                    },
                                },
                                anchor: if k.shift {
                                    if old(self).anchor is Some {
                                        old(self).anchor
                                    } else {
                                        Some(old(self).cursor)
                                    }
                                } else {
                                    None
                                },
                                ..*old(self)
                            })
                        } else {
                            r == Ok::<Outcome, Error>(
                                Outcome { action: EditorAction::Nothing, update_view: true },
                            ) && *final(self) == (Editor {
                                cursor: if old(self).cursor.y > 0 {
                                    Position {
                                        x: old(self).cursor.x,
                                        y: (old(self).cursor.y - 1) as usize,
                                    }
                                } else {
                                    Position { x: 0, y: 0 }
                                },
                                anchor: if k.shift {
                                    if old(self).anchor is Some {
                                        old(self).anchor
                                    } else {
                                        Some(old(self).cursor)
                                    }
                                } else {
                                    None
                                },
                                ..*old(self)
                            })
                        }
                    },
                    KeyCode::Down => {
                        let sel = (match sel_between(old(self).anchor, old(self).cursor) {
                            Option::Some(p) => p,
                            Option::None => (old(self).cursor, old(self).cursor),
                        });
                        if k.alt && k.shift {
                            let count = sel.1.y - sel.0.y + 1;
                            let anc2 = (match old(self).anchor {
                                Option::Some(a) => Some(
                                    Position { x: a.x, y: (a.y + count) as usize },
                                ),
                                Option::None => None,
                            });
                            &&& r == Ok::<Outcome, Error>(
                                Outcome { action: EditorAction::Nothing, update_view: true },
                            )
                            &&& final(self).synced()
                            &&& Editor::committed(
                                *old(self),
                                *final(self),
                                Editor::spec_rows_duplicated(
                                    old(self).buf(),
                                    sel.0.y as int,
                                    sel.1.y as int,
                                ),
                                Position {
                                    x: old(self).cursor.x,
                                    y: (old(self).cursor.y + count) as usize,
                                },
                                anc2,
                            )
                        } else if k.alt {
                            let anc2 = (match old(self).anchor {
                                Option::Some(a) => Some(
                                    Position { x: a.x, y: (a.y + 1) as usize },
                                ),
                                Option::None => None,
                            });
                            &&& r == Ok::<Outcome, Error>(
                                Outcome { action: EditorAction::Nothing, update_view: true },
                            )
                            &&& (sel.1.y + 1 < old(self).buffer@.len() ==> final(self).synced()
                                && Editor::committed(
                                *old(self),
                                *final(self),
                                Editor::spec_rows_moved_down(
                                    old(self).buf(),
                                    sel.0.y as int,
                                    sel.1.y as int,
                                ),
                                old(self).cursor,
                                anc2,
                            ))
                            &&& (sel.1.y + 1 >= old(self).buffer@.len() ==> *final(self) == *old(
                                self,
                            ))
                        } else if k.ctrl {
                            r == Ok::<Outcome, Error>(
                                Outcome { action: EditorAction::Nothing, update_view: false },
                            ) && *final(self) == (Editor {
                                viewbox: Position {
                                    x: old(self).viewbox.x,
                                    y: ({
                                        let sum = if old(self).viewbox.y + 1 > usize::MAX {
                                            usize::MAX as int
                                        } else {
                                            old(self).viewbox.y + 1
                                        };
                                        spec_min(sum, Editor::spec_scroll_limit(*old(self))) as usize
                                    }),
                                },
                                anchor: if k.shift {
                                    if old(self).anchor is Some {
                                        old(self).anchor
                                    } else {
                                        Some(old(self).cursor)
                                    }
                                } else {
                                    None
                                },
                                ..*old(self)
                            })
                        } else {
                            r == Ok::<Outcome, Error>(
                                Outcome { action: EditorAction::Nothing, update_view: true },
                            ) && *final(self) == (Editor {
                                cursor: if old(self).cursor.y + 1 < old(self).buffer@.len() {
                                    Position {
                                        x: old(self).cursor.x,
                                        y: (old(self).cursor.y + 1) as usize,
                                    }
                                } else {
                                    Position {
                                        x: old(self).buf()[old(self).cursor.y as int].cells.len() as usize,
                                        y: old(self).cursor.y,
                                    }
                                },
                                anchor: if k.shift {
                                    if old(self).anchor is Some {
                                        old(self).anchor
                                    } else {
                                        Some(old(self).cursor)
                                    }
                                } else {
                                    None
                                },
                                ..*old(self)
                            })
                        }
                    },
                    KeyCode::PageUp => r == Ok::<Outcome, Error>(
                        Outcome { action: EditorAction::Nothing, update_view: true },
                    ) && *final(self) == (Editor {
                        cursor: Position {
                            x: old(self).cursor.x,
                            y: ({
                                let page = if old(self).terminal.height >= 2 {
                                    old(self).terminal.height - 2
                                } else {
                                    0int
                                };
                                if old(self).cursor.y >= page {
                                    (old(self).cursor.y - page) as usize
                                } else {
                                    0usize
                                }
                            }),
                        },
                        anchor: if k.shift {
                            if old(self).anchor is Some {
                                old(self).anchor
                            } else {
                                Some(old(self).cursor)
                            }
                        } else {
                            None
                        },
                        ..*old(self)
                    }),
                    KeyCode::PageDown => r == Ok::<Outcome, Error>(
                        Outcome { action: EditorAction::Nothing, update_view: true },
                    ) && *final(self) == (Editor {
                        cursor: Position {
                            x: old(self).cursor.x,
                            y: ({
                                let page = if old(self).terminal.height >= 2 {
                                    old(self).terminal.height - 2
                                } else {
                                    0int
                                };
                                let sum = if old(self).cursor.y + page > usize::MAX {
                                    usize::MAX as int
                                } else {
                                    old(self).cursor.y + page
                                };
                                spec_min(sum, old(self).buffer@.len() - 1) as usize
                            }),
                        },
                        anchor: if k.shift {
                            if old(self).anchor is Some {
                                old(self).anchor
                            } else {
                                Some(old(self).cursor)
                            }
                        } else {
                            None
                        },
                        ..*old(self)
                    }),
                    KeyCode::Home => r == Ok::<Outcome, Error>(
                        Outcome { action: EditorAction::Nothing, update_view: true },
                    ) && *final(self) == (Editor {
                        cursor: Position { x: 0, y: old(self).cursor.y },
                        anchor: if k.shift {
                            if old(self).anchor is Some {
                                old(self).anchor
                            } else {
                                Some(old(self).cursor)
                            }
                        } else {
                            None
                        },
                        ..*old(self)
                    }),
                    KeyCode::End => r == Ok::<Outcome, Error>(
                        Outcome { action: EditorAction::Nothing, update_view: true },
                    ) && *final(self) == (Editor {
                        cursor: Position {
                            x: old(self).buf()[old(self).cursor.y as int].cells.len() as usize,
                            y: old(self).cursor.y,
                        },
                        anchor: if k.shift {
                            if old(self).anchor is Some {
                                old(self).anchor
                            } else {
                                Some(old(self).cursor)
                            }
                        } else {
                            None
                        },
                        ..*old(self)
                    }),
                }
            }),
    {
        match k.code {
            KeyCode::Char(c) => {
                if k.ctrl && (c == 's' || c == 'S') {
                    return Ok(Outcome { action: EditorAction::Save, update_view: true });
                }
                if k.ctrl && (c == 'w' || c == 'W') {
                    return Ok(Outcome { action: EditorAction::ConfirmExit, update_view: true });
                }
                if k.ctrl && (c == 'a' || c == 'A') {
                    self.select_all();
                    return Ok(Outcome { action: EditorAction::Nothing, update_view: false });
                }
                if k.ctrl && (c == 'z' || c == 'Z') {
                    let _ = self.undo_edit();
                    return Ok(Outcome { action: EditorAction::Nothing, update_view: true });
                }
                if k.ctrl && (c == 'y' || c == 'Y') {
                    let _ = self.redo_edit();
                    return Ok(Outcome { action: EditorAction::Nothing, update_view: true });
                }
                if k.ctrl && (c == 'c' || c == 'C') {
                    let res = self.trigger_copy();
                    return (match res {
                        Ok(_) => Ok(Outcome { action: EditorAction::Nothing, update_view: true }),
                        Err(e) => Err(e),
                    });
                }
                if k.ctrl && (c == 'x' || c == 'X') {
                    let res = self.trigger_copy();
                    match res {
                        Ok(_) => {},
                        Err(e) => {
                            return Err(e);
                        },
                    }
                    self.update_last_history_state();
                    self.dirty = true;
                    if let Some((begin, end)) = self.get_selection() {
                        self.delete_selection_range(begin, end);
                    } else {
                        let y = self.cursor.y;
                        let wid = self.get_width();
                        self.delete_selection_range(Position { x: 0, y }, Position { x: wid, y });
                    }
                    self.create_history();
                    return Ok(Outcome { action: EditorAction::Nothing, update_view: true });
                }
                if k.ctrl && (c == 'v' || c == 'V') {
                    self.trigger_paste();
                    return Ok(Outcome { action: EditorAction::Nothing, update_view: true });
                }
                if k.ctrl && (c == 'f' || c == 'F') {
                    return Ok(Outcome { action: EditorAction::OpenSearch, update_view: true });
                }
                if !k.ctrl && !k.alt {
                    self.on_char(c);
                    return Ok(Outcome { action: EditorAction::Nothing, update_view: true });
                }
                Ok(Outcome { action: EditorAction::Nothing, update_view: true })
            },
            KeyCode::Tab => {
                self.on_tab();
                Ok(Outcome { action: EditorAction::Nothing, update_view: true })
            },
            KeyCode::Enter => {
                self.on_enter();
                Ok(Outcome { action: EditorAction::Nothing, update_view: true })
            },
            KeyCode::Backspace => {
                self.on_backspace();
                Ok(Outcome { action: EditorAction::Nothing, update_view: true })
            },
            KeyCode::Delete => {
                self.on_delete();
                Ok(Outcome { action: EditorAction::Nothing, update_view: true })
            },
            KeyCode::Up => {
                if k.alt && k.shift {
                    self.duplicate_lines(false);
                    Ok(Outcome { action: EditorAction::Nothing, update_view: true })
                } else if k.alt {
                    let _ = self.move_lines_up();
                    Ok(Outcome { action: EditorAction::Nothing, update_view: true })
                } else if k.ctrl {
                    self.update_selection(k.shift);
                    self.scroll_up(1);
                    Ok(Outcome { action: EditorAction::Nothing, update_view: false })
                } else {
                    self.move_up(k.shift);
                    Ok(Outcome { action: EditorAction::Nothing, update_view: true })
                }
            },
            KeyCode::Down => {
                if k.alt && k.shift {
                    self.duplicate_lines(true);
                    Ok(Outcome { action: EditorAction::Nothing, update_view: true })
                } else if k.alt {
                    let _ = self.move_lines_down();
                    Ok(Outcome { action: EditorAction::Nothing, update_view: true })
                } else if k.ctrl {
                    self.update_selection(k.shift);
                    self.scroll_down(1);
                    Ok(Outcome { action: EditorAction::Nothing, update_view: false })
                } else {
                    self.move_down(k.shift);
                    Ok(Outcome { action: EditorAction::Nothing, update_view: true })
                }
            },
            KeyCode::Left => {
                self.move_left(k.shift, k.ctrl);
                Ok(Outcome { action: EditorAction::Nothing, update_view: true })
            },
            KeyCode::Right => {
                self.move_right(k.shift, k.ctrl);
                Ok(Outcome { action: EditorAction::Nothing, update_view: true })
            },
            KeyCode::PageUp => {
                self.page_up(k.shift);
                Ok(Outcome { action: EditorAction::Nothing, update_view: true })
            },
            KeyCode::PageDown => {
                self.page_down(k.shift);
                Ok(Outcome { action: EditorAction::Nothing, update_view: true })
            },
            KeyCode::Home => {
                self.home(k.shift);
                Ok(Outcome { action: EditorAction::Nothing, update_view: true })
            },
            KeyCode::End => {
                self.end(k.shift);
                Ok(Outcome { action: EditorAction::Nothing, update_view: true })
            },
            KeyCode::Esc => Ok(Outcome { action: EditorAction::ConfirmExit, update_view: true }),
        }
    }

    /// Place the cursor (and on a press, the anchor) from a mouse position:
    /// sidebar clicks select whole lines and drag by line; text clicks map
    /// the visual column to a cell. Returns whether a sidebar line-drag is
    /// now in progress.
    /// Where a mouse position lands the cursor, which anchor it pins, and
    /// whether a sidebar line-drag results: the screen row plus the viewport
    /// offset picks the document row (clamped to the last row, which also
    /// snaps the column to the row's end); a sidebar column selects column
    /// zero of that row (a press pins the anchor and starts a line-drag, and
    /// dragging at or below the anchor row extends one row further); a text
    /// column maps through the accumulated cell widths (`visual_to_cell`),
    /// with clicks at the right edge or past the row's content landing at
    /// the row's end, and a press pins the anchor at the landing spot.
    pub open spec fn spec_apply_mouse(
        pre: Editor,
        column: usize,
        row: usize,
        is_down: bool,
        dragging_sidebar: bool,
    ) -> (Position, Option<Position>, bool) {
        let buf = pre.buf();
        let len = buf.len() as int;
        let cy0 = if row + pre.viewbox.y > usize::MAX {
            usize::MAX as int
        } else {
            row + pre.viewbox.y
        };
        let colsum = if column + pre.viewbox.x > usize::MAX {
            usize::MAX as int
        } else {
            column + pre.viewbox.x
        };
        let xcol = if colsum >= pre.sidebar_width {
            colsum - pre.sidebar_width
        } else {
            0int
        };
        if column < pre.sidebar_width {
            let cy2 = if cy0 >= len {
                len - 1
            } else {
                cy0
            };
            let cur2 = Position { x: 0, y: cy2 as usize };
            let anchor2 = if is_down {
                Some(cur2)
            } else {
                pre.anchor
            };
            let dragging2 = dragging_sidebar || is_down;
            let anchor_y = (match anchor2 {
                Option::Some(a) => a.y as int,
                Option::None => cy2,
            });
            if dragging2 && cy2 >= anchor_y {
                let cy3 = if cy2 + 1 > usize::MAX {
                    usize::MAX as int
                } else {
                    cy2 + 1
                };
                if cy3 >= len {
                    (
                        Position { x: buf[len - 1].cells.len() as usize, y: (len - 1) as usize },
                        anchor2,
                        dragging2,
                    )
                } else {
                    (Position { x: 0, y: cy3 as usize }, anchor2, dragging2)
                }
            } else {
                (cur2, anchor2, dragging2)
            }
        } else {
            let cy1 = if cy0 >= len {
                len - 1
            } else {
                cy0
            };
            let cells = buf[cy1].cells;
            let col1 = if column + 1 > usize::MAX {
                usize::MAX as int
            } else {
                column + 1
            };
            let cx2 = if col1 >= pre.terminal.width {
                cells.len() as int
            } else if xcol >= width_sum(cells, cells.len() as int) {
                cells.len() as int
            } else {
                visual_to_cell(cells, xcol)
            };
            let cur2 = Position { x: cx2 as usize, y: cy1 as usize };
            let anchor2 = if is_down {
                Some(cur2)
            } else {
                pre.anchor
            };
            (cur2, anchor2, dragging_sidebar)
        }
    }

    pub fn apply_mouse(&mut self, column: usize, row: usize, is_down: bool, dragging_sidebar: bool) -> (r:
        bool)
        requires
            old(self).wf(),
        ensures
            final(self).wf(),
            *final(self) == (Editor {
                cursor: Editor::spec_apply_mouse(
                    *old(self),
                    column,
                    row,
                    is_down,
                    dragging_sidebar,
                ).0,
                anchor: Editor::spec_apply_mouse(
                    *old(self),
                    column,
                    row,
                    is_down,
                    dragging_sidebar,
                ).1,
                ..*old(self)
            }),
            r == Editor::spec_apply_mouse(*old(self), column, row, is_down, dragging_sidebar).2,
    {
        let ghost e = Editor::spec_apply_mouse(*old(self), column, row, is_down, dragging_sidebar);
        self.cursor.y = row.saturating_add(self.viewbox.y);
        let x = (column.saturating_add(self.viewbox.x)).saturating_sub(self.sidebar_width);
        if self.cursor.y >= self.buffer.len() {
            self.cursor.y = self.buffer.len() - 1;
            let wid = self.get_width();
            self.cursor.x = wid;
        }
        let mut dragging = dragging_sidebar;
        if column < self.sidebar_width {
            self.cursor.x = 0;
            self.cursor.y = row.saturating_add(self.viewbox.y);
            if self.cursor.y >= self.buffer.len() {
                self.cursor.y = self.buffer.len() - 1;
            }
            if is_down {
                self.anchor = Some(self.cursor);
                dragging = true;
            }
            let anchor_y = match &self.anchor {
                Some(a) => a.y,
                None => self.cursor.y,
            };
            if dragging && self.cursor.y >= anchor_y {
                self.cursor.y = self.cursor.y.saturating_add(1);
                if self.cursor.y >= self.buffer.len() {
                    self.cursor.y = self.buffer.len() - 1;
                    let wid = self.get_width();
                    self.cursor.x = wid;
                }
            }
        } else {
            if column.saturating_add(1) >= self.terminal.width {
                let wid = self.get_width();
                self.cursor.x = wid;
            } else {
                proof {
                    assert(self.buf()[self.cursor.y as int] == self.buffer@[self.cursor.y as int]@);
                }
                let total = visual_width_upto(
                    &self.buffer[self.cursor.y].rope,
                    self.buffer[self.cursor.y].len(),
                );
                if x >= total {
                    let wid = self.get_width();
                    self.cursor.x = wid;
                } else {
                    let idx = cell_at_visual(&self.buffer[self.cursor.y].rope, x);
                    self.cursor.x = idx;
                }
            }
            if is_down {
                self.anchor = Some(self.cursor);
            }
        }
        dragging
    }

    /// A right click copies the selection and lands the cursor at its end
    /// with the selection cleared, or pastes the clipboard when nothing is
    /// selected; a clipboard failure leaves the document untouched.
    pub fn right_click(&mut self) -> (r: Result<(), Error>)
        requires
            old(self).wf(),
            old(self).synced(),
        ensures
            final(self).wf(),
            final(self).synced() || final(self).history.model() == old(self).history.model(),
            final(self).same_surroundings(*old(self)),
            ({
                let anchor1 = Editor::spec_collapse(old(self).anchor, old(self).cursor);
                match sel_between(anchor1, old(self).cursor) {
                    Option::Some(p) => {
                        &&& (r is Ok ==> *final(self) == (Editor {
                            cursor: p.1,
                            anchor: None,
                            ..*old(self)
                        }))
                        &&& (r is Err ==> *final(self) == (Editor { anchor: anchor1, ..*old(self) })
                            && r->Err_0 is ClipboardError)
                    },
                    Option::None => {
                        &&& r is Ok
                        &&& (exists|t: Seq<char>|
                            #![trigger t.len()]
                            Editor::paste_outcome(
                                Editor { anchor: anchor1, ..*old(self) },
                                *final(self),
                                t,
                            ))
                    },
                }
            }),
    {
        self.collapse_empty_selection();
        if let Some((_, end)) = self.get_selection() {
            let res = self.trigger_copy();
            match res {
                Ok(_) => {},
                Err(e) => {
                    return Err(e);
                },
            }
            proof {
                assert(end.y < self.buffer@.len());
            }
            self.cursor = end;
            self.anchor = None;
            Ok(())
        } else {
            self.trigger_paste();
            Ok(())
        }
    }

    /// Whether the query's cells occur at cell `x`, text for text.
    pub open spec fn query_matches_at(cells: Seq<CellV>, x: int, q: Seq<CellV>) -> bool {
        &&& 0 <= x
        &&& x + q.len() <= cells.len()
        &&& forall|j: int| 0 <= j < q.len() ==> (#[trigger] cells[x + j].text) == q[j].text
    }

    /// Every position where the search query occurs in the document: exactly
    /// the places whose cells spell the query's cells, text for text.
    pub fn search_positions(&self, query: &Row) -> (r: Vec<Position>)
        requires
            self.wf(),
            query@.cells.len() >= 1,
        ensures
            forall|k: int|
                0 <= k < r@.len() ==> (#[trigger] r@[k]).y < self.buf().len()
                    && Editor::query_matches_at(
                    self.buf()[r@[k].y as int].cells,
                    r@[k].x as int,
                    query@.cells,
                ),
            forall|y: int, x: int|
                0 <= y < self.buf().len() && #[trigger] Editor::query_matches_at(
                    self.buf()[y].cells,
                    x,
                    query@.cells,
                ) ==> r@.contains(Position { x: x as usize, y: y as usize }),
    {
        let ghost buf = self.buf();
        let ghost q = query@.cells;
        let qlen = query.len();
        let mut out: Vec<Position> = Vec::new();
        let mut y: usize = 0;
        while y < self.buffer.len()
            invariant
                y <= self.buffer@.len(),
                buf == self.buf(),
                q == query@.cells,
                qlen == q.len(),
                qlen >= 1,
                buf.len() == self.buffer@.len(),
                forall|k: int|
                    0 <= k < out@.len() ==> (#[trigger] out@[k]).y < buf.len()
                        && Editor::query_matches_at(buf[out@[k].y as int].cells, out@[k].x as int, q),
                forall|yy: int, xx: int|
                    0 <= yy < y && #[trigger] Editor::query_matches_at(buf[yy].cells, xx, q)
                        ==> out@.contains(Position { x: xx as usize, y: yy as usize }),
            decreases self.buffer@.len() - y,
        {
            proof {
                assert(buf[y as int] == self.buffer@[y as int]@);
            }
            let row_len = self.buffer[y].len();
            let mut x: usize = 0;
            while qlen <= row_len && x <= row_len - qlen
                invariant
                    x <= row_len + 1,
                    y < self.buffer@.len(),
                    buf == self.buf(),
                    q == query@.cells,
                    qlen == q.len(),
                    qlen >= 1,
                    buf.len() == self.buffer@.len(),
                    row_len == buf[y as int].cells.len(),
                    forall|k: int|
                        0 <= k < out@.len() ==> (#[trigger] out@[k]).y < buf.len()
                            && Editor::query_matches_at(
                            buf[out@[k].y as int].cells,
                            out@[k].x as int,
                            q,
                        ),
                    forall|yy: int, xx: int|
                        0 <= yy < y && #[trigger] Editor::query_matches_at(buf[yy].cells, xx, q)
                            ==> out@.contains(Position { x: xx as usize, y: yy as usize }),
                    forall|xx: int|
                        0 <= xx < x && #[trigger] Editor::query_matches_at(buf[y as int].cells, xx, q)
                            ==> out@.contains(Position { x: xx as usize, y: y as usize }),
                decreases row_len + 1 - x,
            {
                let mut j: usize = 0;
                let mut matched = true;
                while j < qlen && matched
                    invariant
                        j <= qlen,
                        x + qlen <= row_len,
                        y < self.buffer@.len(),
                        buf == self.buf(),
                        q == query@.cells,
                        qlen == q.len(),
                        row_len == buf[y as int].cells.len(),
                        matched ==> forall|jj: int|
                            0 <= jj < j ==> (#[trigger] buf[y as int].cells[x + jj].text)
                                == q[jj].text,
                        !matched ==> !Editor::query_matches_at(buf[y as int].cells, x as int, q),
                    decreases qlen - j + (if matched {
                        1int
                    } else {
                        0int
                    }),
                {
                    proof {
                        assert(buf[y as int].cells[x + j] == self.buffer@[y as int]@.cells[x + j]);
                        assert(self.buffer@[y as int]@.cells[x + j] == self.buffer@[y as int].rope@[(
                        x + j) as int]@);
                        assert(q[j as int] == query.rope@[j as int]@);
                    }
                    if self.buffer[y].rope[x + j].text == query.rope[j].text {
                        j += 1;
                    } else {
                        proof {
                            assert(buf[y as int].cells[x + j].text != q[j as int].text);
                        }
                        matched = false;
                    }
                }
                if matched {
                    let ghost pre = out@;
                    out.push(Position { x, y });
                    proof {
                        assert(Editor::query_matches_at(buf[y as int].cells, x as int, q));
                        assert forall|yy: int, xx: int|
                            0 <= yy < y && #[trigger] Editor::query_matches_at(
                                buf[yy].cells,
                                xx,
                                q,
                            ) implies out@.contains(
                            Position { x: xx as usize, y: yy as usize },
                        ) by {
                            assert(pre.contains(Position { x: xx as usize, y: yy as usize }));
                            let k = choose|k: int|
                                0 <= k < pre.len() && pre[k] == Position {
                                    x: xx as usize,
                                    y: yy as usize,
                                };
                            assert(out@[k] == pre[k]);
                        }
                        assert forall|xx: int|
                            0 <= xx < x + 1 && #[trigger] Editor::query_matches_at(
                                buf[y as int].cells,
                                xx,
                                q,
                            ) implies out@.contains(
                            Position { x: xx as usize, y: y as usize },
                        ) by {
                            if xx < x {
                                assert(pre.contains(Position { x: xx as usize, y: y as usize }));
                                let k = choose|k: int|
                                    0 <= k < pre.len() && pre[k] == Position {
                                        x: xx as usize,
                                        y: y as usize,
                                    };
                                assert(out@[k] == pre[k]);
                            } else {
                                assert(out@[out@.len() - 1] == Position { x: x, y: y });
                            }
                        }
                    }
                }
                x += 1;
            }
            proof {
                assert forall|xx: int|
                    #[trigger] Editor::query_matches_at(buf[y as int].cells, xx, q) implies 0 <= xx
                    < x by {}
            }
            y += 1;
        }
        out
    }
}

/// A blank one-column space cell.
fn space_cell() -> (c: Cell)
    ensures
        c@ == (CellV { text: seq![' '], width: 1nat }),
{
    let text = " ".to_owned();
    proof {
        reveal_strlit(" ");
        assert(text@ =~= seq![' ']);
    }
    Cell::new(text, 1)
}

/// A run of `n` blank one-column space cells, as cells.
fn blank_run(n: usize) -> (r: Vec<Cell>)
    ensures
        r@.len() == n,
        cells_of(r@) == Editor::blank_cells(n as int),
{
    let mut out: Vec<Cell> = Vec::new();
    let mut k: usize = 0;
    while k < n
        invariant
            k <= n,
            out@.len() == k,
            forall|j: int| 0 <= j < k ==> #[trigger] out@[j]@ == (CellV {
                text: seq![' '],
                width: 1nat,
            }),
        decreases n - k,
    {
        let c = space_cell();
        out.push(c);
        k += 1;
    }
    proof {
        assert forall|j: int| 0 <= j < n implies cells_of(out@)[j] == Editor::blank_cells(
            n as int,
        )[j] by {
            assert(cells_of(out@)[j] == out@[j]@);
        }
        assert(cells_of(out@) =~= Editor::blank_cells(n as int));
    }
    out
}

/// Concatenating cell vectors concatenates their values.
proof fn lemma_cells_of_append(a: Seq<Cell>, b: Seq<Cell>)
    ensures
        cells_of(a + b) == cells_of(a) + cells_of(b),
{
    assert forall|j: int| 0 <= j < a.len() + b.len() implies cells_of(a + b)[j] == (cells_of(a)
        + cells_of(b))[j] by {
        assert(cells_of(a + b)[j] == (a + b)[j]@);
        if j < a.len() {
            assert(cells_of(a)[j] == a[j]@);
        } else {
            assert(cells_of(b)[j - a.len()] == b[j - a.len()]@);
        }
    }
    assert(cells_of(a + b) =~= cells_of(a) + cells_of(b));
}

/// Both cell-value maps agree: the renderer's and the row model's.
proof fn lemma_cells_of_view(rope: Seq<Cell>)
    ensures
        cells_of(rope) == cells_view(rope),
{
    assert forall|k: int| 0 <= k < rope.len() implies cells_of(rope)[k] == cells_view(rope)[k] by {
        assert(cells_of(rope)[k] == rope[k]@);
        assert(cells_view(rope)[k] == rope[k]@);
    }
    assert(cells_of(rope) =~= cells_view(rope));
}

/// Relies on terminal_clipboard::get_string: the system clipboard's text.
/// The result depends on the environment, so nothing is promised of it.
#[verifier::external_body]
fn clipboard_get() -> (r: Option<String>) {
    terminal_clipboard::get_string().ok()
}

/// Relies on terminal_clipboard::set_string: place text on the system
/// clipboard; a failure comes back as its message. Success depends on the
/// environment, so nothing is promised of it.
#[verifier::external_body]
fn clipboard_set(s: &str) -> (r: Result<(), String>) {
    match terminal_clipboard::set_string(s) {
        Ok(()) => Ok(()),
        Err(e) => Err(format!("{}", e)),
    }
}

} // verus!
