use vstd::prelude::*;

use crate::position::Position;
use crate::row::{
    back_nonspace, back_space, back_while_nonspace, back_while_space, cell_at_visual, fwd_nonspace,
    fwd_space, fwd_while_nonspace, fwd_while_space, visual_to_cell, visual_width_upto, width_sum,
    Cell, CellV, Row,
};
use crate::unicode::{char_display_width, char_to_string, char_width};
use crate::util::clamp_usize;

verus! {

/// A key press, already decoded to plain data.
#[derive(Debug, Clone, Copy, PartialEq, Eq, Structural)]
pub enum KeyCode {
    Char(char),
    Tab,
    Enter,
    Backspace,
    Delete,
    Up,
    Down,
    Left,
    Right,
    PageUp,
    PageDown,
    Home,
    End,
    Esc,
}

/// A key press with its modifiers.
#[derive(Debug, Clone, Copy, PartialEq, Eq, Structural)]
pub struct KeyInput {
    pub code: KeyCode,
    pub ctrl: bool,
    pub shift: bool,
    pub alt: bool,
}

/// A single-line text input field, as used by the filename prompt and the
/// search bar: a row of cells, a cursor, and a horizontal scroll offset.
pub struct Input {
    /// Where the field is drawn.
    pub viewbox: Position,
    /// The first visible column.
    pub offset: usize,
    /// The cursor's cell index.
    pub cursor: usize,
    /// The field's width on screen.
    pub max_width: usize,
    /// The text being edited.
    pub buffer: Row,
    /// Whether a mouse selection drag is in progress.
    pub dragging: bool,
}

impl Input {
    /// The input's internal invariant: the cursor stays on the text.
    pub open spec fn wf(self) -> bool {
        self.cursor <= self.buffer@.cells.len()
    }

    pub fn new() -> (r: Input)
        ensures
            r.wf(),
            r.viewbox == (Position { x: 0, y: 0 }),
            r.offset == 0,
            r.cursor == 0,
            r.max_width == 0,
            r.buffer@.cells == Seq::<CellV>::empty(),
            !r.dragging,
    {
        Input {
            viewbox: Position { x: 0, y: 0 },
            offset: 0,
            cursor: 0,
            max_width: 0,
            buffer: Row::default(),
            dragging: false,
        }
    }

    /// Move the cursor one cell left, or to the start of the previous word
    /// run (spaces, then non-spaces) when `ctrl` is held.
    pub fn move_left(&mut self, ctrl: bool)
        requires
            old(self).wf(),
        ensures
            final(self).wf(),
            final(self).buffer == old(self).buffer,
            final(self).cursor == if ctrl {
                back_while_nonspace(
                    old(self).buffer@.cells,
                    back_while_space(old(self).buffer@.cells, old(self).cursor as int),
                )
            } else if old(self).cursor > 0 {
                old(self).cursor - 1
            } else {
                0int
            },
            final(self).offset == old(self).offset,
            final(self).viewbox == old(self).viewbox,
            final(self).max_width == old(self).max_width,
            final(self).dragging == old(self).dragging,
    {
        if ctrl {
            let a = back_space(&self.buffer.rope, self.cursor);
            self.cursor = back_nonspace(&self.buffer.rope, a);
        } else if self.cursor > 0 {
            self.cursor = self.cursor - 1;
        }
    }

    /// Move the cursor one cell right, or past the next word run when `ctrl`
    /// is held.
    pub fn move_right(&mut self, ctrl: bool)
        requires
            old(self).wf(),
        ensures
            final(self).wf(),
            final(self).buffer == old(self).buffer,
            final(self).cursor == if ctrl {
                fwd_while_nonspace(
                    old(self).buffer@.cells,
                    fwd_while_space(old(self).buffer@.cells, old(self).cursor as int),
                )
            } else if old(self).cursor < old(self).buffer@.cells.len() {
                old(self).cursor + 1
            } else {
                old(self).cursor as int
            },
            final(self).offset == old(self).offset,
            final(self).viewbox == old(self).viewbox,
            final(self).max_width == old(self).max_width,
            final(self).dragging == old(self).dragging,
    {
        if ctrl {
            let a = fwd_space(&self.buffer.rope, self.cursor);
            self.cursor = fwd_nonspace(&self.buffer.rope, a);
        } else if self.cursor < self.buffer.len() {
            self.cursor = self.cursor + 1;
        }
    }

    /// Insert the typed character at the cursor and step past it.
    pub fn insert_char(&mut self, c: char)
        requires
            old(self).wf(),
        ensures
            final(self).wf(),
            final(self).buffer@.cells == old(self).buffer@.cells.insert(
                old(self).cursor as int,
                (CellV {
                    text: seq![c],
                    width: (match char_display_width(c) {
                        Option::Some(w) => w as nat,
                        Option::None => 0nat,
                    }),
                }),
            ),
            final(self).cursor == old(self).cursor + 1,
            final(self).offset == old(self).offset,
            final(self).dragging == old(self).dragging,
            final(self).viewbox == old(self).viewbox,
            final(self).max_width == old(self).max_width,
    {
        let text = char_to_string(c);
        let w = match char_width(c) {
            Some(w) => w,
            None => 0,
        };
        self.buffer.insert_cell(self.cursor, Cell::new(text, w));
        let n = self.buffer.len();
        proof {
            assert(self.cursor < n);
        }
        self.cursor = self.cursor + 1;
    }

    /// Delete the cell before the cursor, if any.
    pub fn backspace(&mut self)
        requires
            old(self).wf(),
        ensures
            final(self).wf(),
            old(self).cursor > 0 ==> final(self).buffer@.cells == old(self).buffer@.cells.remove(
                old(self).cursor - 1,
            ) && final(self).cursor == old(self).cursor - 1,
            old(self).cursor == 0 ==> final(self).buffer == old(self).buffer && final(self).cursor
                == 0,
            final(self).offset == old(self).offset,
            final(self).viewbox == old(self).viewbox,
            final(self).max_width == old(self).max_width,
            final(self).dragging == old(self).dragging,
    {
        if self.cursor > 0 {
            self.cursor = self.cursor - 1;
            self.buffer.remove_cell(self.cursor);
        }
    }

    /// Delete the cell under the cursor, if any.
    pub fn delete(&mut self)
        requires
            old(self).wf(),
        ensures
            final(self).wf(),
            old(self).cursor < old(self).buffer@.cells.len() ==> final(self).buffer@.cells == old(
                self,
            ).buffer@.cells.remove(old(self).cursor as int),
            old(self).cursor >= old(self).buffer@.cells.len() ==> final(self).buffer == old(
                self,
            ).buffer,
            final(self).cursor == old(self).cursor,
            final(self).offset == old(self).offset,
            final(self).viewbox == old(self).viewbox,
            final(self).max_width == old(self).max_width,
            final(self).dragging == old(self).dragging,
    {
        if self.cursor < self.buffer.len() {
            self.buffer.remove_cell(self.cursor);
        }
    }

    /// Place the cursor from a click at screen column `x`: columns past the
    /// text land at its end, others on the cell the column falls in.
    pub fn click_at(&mut self, x: usize)
        requires
            old(self).wf(),
        ensures
            final(self).wf(),
            final(self).buffer == old(self).buffer,
            ({
                let cells = old(self).buffer@.cells;
                let sum = if x + old(self).offset > usize::MAX {
                    usize::MAX as int
                } else {
                    x + old(self).offset
                };
                let target = if sum >= old(self).viewbox.x {
                    sum - old(self).viewbox.x
                } else {
                    0int
                };
                if target > width_sum(cells, cells.len() as int) {
                    final(self).cursor == cells.len()
                } else {
                    final(self).cursor == visual_to_cell(cells, target)
                }
            }),
            final(self).offset == old(self).offset,
            final(self).viewbox == old(self).viewbox,
            final(self).max_width == old(self).max_width,
            final(self).dragging == old(self).dragging,
    {
        let target = (x.saturating_add(self.offset)).saturating_sub(self.viewbox.x);
        let total = visual_width_upto(&self.buffer.rope, self.buffer.len());
        if target > total {
            self.cursor = self.buffer.len();
        } else {
            self.cursor = cell_at_visual(&self.buffer.rope, target);
        }
    }

    /// Keep the scroll offset so the cursor stays inside the visible window.
    pub fn clamp_offset(&mut self)
        requires
            old(self).wf(),
        ensures
            final(self).wf(),
            final(self).buffer == old(self).buffer,
            final(self).cursor == old(self).cursor,
            ({
                let capped = if old(self).cursor + 1 > usize::MAX {
                    usize::MAX as int
                } else {
                    old(self).cursor + 1
                };
                let lo = if capped >= old(self).max_width {
                    capped - old(self).max_width
                } else {
                    0int
                };
                final(self).offset == if lo > old(self).cursor {
                    lo
                } else if old(self).offset < lo {
                    lo
                } else if old(self).offset > old(self).cursor {
                    old(self).cursor as int
                } else {
                    old(self).offset as int
                }
            }),
            final(self).viewbox == old(self).viewbox,
            final(self).max_width == old(self).max_width,
            final(self).dragging == old(self).dragging,
    {
        let lo = (self.cursor.saturating_add(1)).saturating_sub(self.max_width);
        if lo > self.cursor {
            self.offset = lo;
        } else {
            self.offset = clamp_usize(self.offset, lo, self.cursor);
        }
    }
}

/// The modal dialog layer: confirm, prompt and alert boxes are driven by the
/// surrounding loop, which borrows the editor and its terminal.
pub struct Tui {}

} // verus!