use vstd::prelude::*;

use crate::position::Position;
use crate::row::{Cell, CellV};
use crate::style::Style;

verus! {

/// One grid position of the renderer: a style and the grapheme cluster shown
/// there. Trailing columns of a wide glyph hold an empty placeholder content,
/// which the flush skips.
pub struct Pixel {
    pub style: Style,
    pub content: String,
    pub width: usize,
}

/// The mathematical value of a `Pixel`.
pub struct PixelV {
    pub style: Style,
    pub content: Seq<char>,
    pub width: nat,
}

impl View for Pixel {
    type V = PixelV;

    open spec fn view(&self) -> PixelV {
        PixelV { style: self.style, content: self.content@, width: self.width as nat }
    }
}

impl Clone for Pixel {
    fn clone(&self) -> (r: Self)
        ensures
            r@ == self@,
    {
        Pixel { style: self.style, content: self.content.clone(), width: self.width }
    }
}

/// The value of a blank pixel: a plain-styled space.
pub open spec fn default_pixel() -> PixelV {
    PixelV { style: Style::plain(), content: seq![' '], width: 1 }
}

impl Default for Pixel {
    fn default() -> (r: Self)
        ensures
            r@ == default_pixel(),
    {
        let content = " ".to_owned();
        proof {
            reveal_strlit(" ");
            assert(content@ =~= seq![' ']);
        }
        Pixel { style: Style::new(), content, width: 1 }
    }
}

/// One terminal output command, ready to be translated to the wire.
pub enum Command {
    /// Hide the terminal cursor.
    Hide,
    /// Show the terminal cursor.
    Show,
    /// Reset foreground and background colors.
    ResetColor,
    /// Reset all text attributes.
    ResetAttributes,
    /// Move the output cursor to (column, row).
    MoveTo(usize, usize),
    /// Make the given style the active output style.
    SetStyle(Style),
    /// Print a grapheme cluster at the output cursor.
    Print(String),
}

/// The mathematical value of a `Command`.
pub enum CommandV {
    Hide,
    Show,
    ResetColor,
    ResetAttributes,
    MoveTo(int, int),
    SetStyle(Style),
    Print(Seq<char>),
}

impl View for Command {
    type V = CommandV;

    open spec fn view(&self) -> CommandV {
        match self {
            Command::Hide => CommandV::Hide,
            Command::Show => CommandV::Show,
            Command::ResetColor => CommandV::ResetColor,
            Command::ResetAttributes => CommandV::ResetAttributes,
            Command::MoveTo(x, y) => CommandV::MoveTo(*x as int, *y as int),
            Command::SetStyle(s) => CommandV::SetStyle(*s),
            Command::Print(s) => CommandV::Print(s@),
        }
    }
}

/// The values of a command list.
pub open spec fn cmds_view(cmds: Seq<Command>) -> Seq<CommandV> {
    cmds.map_values(|c: Command| c@)
}

/// The pixel values of a grid.
pub open spec fn grid_view(g: Seq<Pixel>) -> Seq<PixelV> {
    g.map_values(|p: Pixel| p@)
}

/// A grid of blank pixels.
pub open spec fn blank_grid(n: nat) -> Seq<PixelV> {
    Seq::new(n, |i: int| default_pixel())
}

/// The pixel of grid `g` at row `y`, column `x`, in a grid `w` columns wide.
pub open spec fn at(g: Seq<PixelV>, w: int, y: int, x: int) -> PixelV {
    g[y * w + x]
}

/// Whether the flush treats two pixels as unchanged: same style and content.
pub open spec fn pixel_same(a: PixelV, b: PixelV) -> bool {
    a.style == b.style && a.content == b.content
}

/// Whether the flush emits anything for a cell: a pixel that is no
/// placeholder and differs from the last flushed one.
pub open spec fn cell_changed(f: PixelV, l: PixelV) -> bool {
    f.content.len() != 0 && !pixel_same(f, l)
}

/// Whether any cell of row `y` makes the flush emit something.
pub open spec fn row_changed(front: Seq<PixelV>, last: Seq<PixelV>, w: int, y: int) -> bool {
    exists|x: int|
        0 <= x < w && #[trigger] cell_changed(at(front, w, y, x), at(last, w, y, x))
}

/// The commands one cell contributes to a flush, with the output cursor
/// column and active style carried along: nothing for a placeholder or an
/// unchanged pixel; otherwise a cursor move if the output cursor is not
/// already there, a style change if the style is not the active one (with an
/// attribute reset first when the attributes differ), then the glyph.
pub open spec fn flush_cell(f: PixelV, l: PixelV, x: int, y: int, cx: int, st: Style) -> (
    Seq<CommandV>,
    int,
    Style,
) {
    if f.content.len() == 0 || pixel_same(f, l) {
        (Seq::<CommandV>::empty(), cx, st)
    } else {
        let mv: Seq<CommandV> = if x != cx {
            seq![CommandV::MoveTo(x, y)]
        } else {
            Seq::<CommandV>::empty()
        };
        let sty: Seq<CommandV> = if f.style != st {
            if f.style.bold != st.bold || f.style.underlined != st.underlined {
                seq![CommandV::ResetAttributes, CommandV::SetStyle(f.style)]
            } else {
                seq![CommandV::SetStyle(f.style)]
            }
        } else {
            Seq::<CommandV>::empty()
        };
        let cx2 = if x + f.width > usize::MAX {
            usize::MAX as int
        } else {
            x + f.width
        };
        (mv + sty + seq![CommandV::Print(f.content)], cx2, f.style)
    }
}

/// The commands for the cells of row `y`, from column `x` to the end.
pub open spec fn flush_row(
    front: Seq<PixelV>,
    last: Seq<PixelV>,
    w: int,
    y: int,
    x: int,
    cx: int,
    st: Style,
) -> (Seq<CommandV>, Style)
    decreases w - x,
{
    if x < 0 || x >= w {
        (Seq::<CommandV>::empty(), st)
    } else {
        let (c0, cx2, st2) = flush_cell(at(front, w, y, x), at(last, w, y, x), x, y, cx, st);
        let (rest, st3) = flush_row(front, last, w, y, x + 1, cx2, st2);
        (c0 + rest, st3)
    }
}

/// The commands for the rows from `y` down; a row with a changed cell starts
/// with a cursor move to its first column, a row with none contributes
/// nothing, and the active style carries across rows.
pub open spec fn flush_rows(
    front: Seq<PixelV>,
    last: Seq<PixelV>,
    w: int,
    h: int,
    y: int,
    st: Style,
) -> (Seq<CommandV>, Style)
    decreases h - y,
{
    if y < 0 || y >= h {
        (Seq::<CommandV>::empty(), st)
    } else {
        let (rc, st2) = flush_row(front, last, w, y, 0, 0, st);
        let (rest, st3) = flush_rows(front, last, w, h, y + 1, st2);
        let head: Seq<CommandV> = if row_changed(front, last, w, y) {
            seq![CommandV::MoveTo(0, y)]
        } else {
            Seq::<CommandV>::empty()
        };
        (head + rc + rest, st3)
    }
}

/// Everything one frame flush emits: hide the cursor and reset the output
/// state, write every changed cell in row-major order, then show the cursor
/// where one is declared.
pub open spec fn spec_flush(
    front: Seq<PixelV>,
    last: Seq<PixelV>,
    w: int,
    h: int,
    cursor: Option<Position>,
) -> Seq<CommandV> {
    let prelude = seq![CommandV::Hide, CommandV::ResetColor, CommandV::ResetAttributes];
    let tail: Seq<CommandV> = match cursor {
        Some(p) => seq![CommandV::Show, CommandV::MoveTo(p.x as int, p.y as int)],
        None => Seq::<CommandV>::empty(),
    };
    prelude + flush_rows(front, last, w, h, 0, Style::plain()).0 + tail
}

/// Writing a single cell into a grid at (x, y): the head pixel takes the
/// style, the cell's text and its width; the following `width - 1` pixels
/// become placeholders in the same style. A write that does not fit on the
/// grid is dropped.
pub open spec fn place_cell(
    g: Seq<PixelV>,
    w: int,
    h: int,
    x: int,
    y: int,
    style: Style,
    cell: CellV,
) -> Seq<PixelV> {
    if y >= h || x >= w || x + cell.width > w {
        g
    } else {
        Seq::new(
            g.len(),
            |j: int|
                if j == y * w + x {
                    PixelV { style, content: cell.text, width: cell.width }
                } else if y * w + x < j < y * w + x + cell.width {
                    PixelV { style, content: Seq::empty(), width: 0 }
                } else {
                    g[j]
                },
        )
    }
}

/// Writing a run of cells left to right from (x, y), stopping at the first
/// cell that does not fit.
pub open spec fn place_cells(
    g: Seq<PixelV>,
    w: int,
    h: int,
    x: int,
    y: int,
    style: Style,
    cells: Seq<CellV>,
) -> Seq<PixelV>
    decreases cells.len(),
{
    if cells.len() == 0 {
        g
    } else if y >= h || x >= w || x + cells[0].width > w {
        g
    } else {
        place_cells(
            place_cell(g, w, h, x, y, style, cells[0]),
            w,
            h,
            x + cells[0].width,
            y,
            style,
            cells.drop_first(),
        )
    }
}

/// A double-buffered character grid: the front buffer holds the intended next
/// frame, the last buffer what was actually emitted. A flush writes only the
/// cells where the two differ.
pub struct Terminal {
    pub height: usize,
    pub width: usize,
    /// Where the terminal cursor is shown after a flush; hidden when `None`.
    pub cursor: Option<Position>,
    /// The intended next frame, row-major.
    pub buffer: Vec<Pixel>,
    /// The last flushed frame, row-major.
    pub last_buffer: Vec<Pixel>,
}

impl Terminal {
    /// The grid is well formed: both buffers hold `height * width` pixels,
    /// and the dimensions fit a terminal's 16-bit coordinates.
    pub open spec fn wf(self) -> bool {
        &&& self.height <= 0xFFFF
        &&& self.width <= 0xFFFF
        &&& self.buffer@.len() == self.height * self.width
        &&& self.last_buffer@.len() == self.height * self.width
    }

    /// The front grid's pixel values.
    pub open spec fn front(self) -> Seq<PixelV> {
        grid_view(self.buffer@)
    }

    /// The last flushed grid's pixel values.
    pub open spec fn last(self) -> Seq<PixelV> {
        grid_view(self.last_buffer@)
    }

    /// A terminal grid of the given size, blank on both buffers.
    pub fn new(height: usize, width: usize) -> (r: Terminal)
        requires
            height <= 0xFFFF,
            width <= 0xFFFF,
        ensures
            r.wf(),
            r.height == height,
            r.width == width,
            r.cursor is None,
            r.front() == blank_grid((height * width) as nat),
            r.last() == blank_grid((height * width) as nat),
    {
        proof {
            assert(height * width <= 0xFFFF * 0xFFFF) by (nonlinear_arith)
                requires
                    height <= 0xFFFF,
                    width <= 0xFFFF,
            ;
        }
        let n = height * width;
        let buffer = blank_pixels(n);
        let last_buffer = blank_pixels(n);
        Terminal { height, width, cursor: None, buffer, last_buffer }
    }

    /// Adopt new terminal dimensions: both grids are reallocated blank, so
    /// the next flush has no prior frame to diff against and repaints every
    /// cell that the next frame fills.
    pub fn update_window_size(&mut self, height: u16, width: u16)
        ensures
            final(self).wf(),
            final(self).height == height as usize,
            final(self).width == width as usize,
            final(self).cursor == old(self).cursor,
            final(self).front() == blank_grid((height as nat) * (width as nat)),
            final(self).last() == blank_grid((height as nat) * (width as nat)),
    {
        let h: usize = height as usize;
        let w: usize = width as usize;
        proof {
            assert(h * w <= 0xFFFF * 0xFFFF) by (nonlinear_arith)
                requires
                    h <= 0xFFFF,
                    w <= 0xFFFF,
            ;
        }
        let n = h * w;
        self.height = h;
        self.width = w;
        self.buffer = blank_pixels(n);
        self.last_buffer = blank_pixels(n);
    }

    /// Clear the front grid to blank pixels; the last flushed grid is kept.
    pub fn clear_buffer(&mut self)
        requires
            old(self).wf(),
        ensures
            final(self).wf(),
            final(self).height == old(self).height,
            final(self).width == old(self).width,
            final(self).cursor == old(self).cursor,
            final(self).last_buffer == old(self).last_buffer,
            final(self).front() == blank_grid((old(self).height * old(self).width) as nat),
    {
        let n = self.buffer.len();
        let mut i: usize = 0;
        while i < n
            invariant
                i <= n,
                self.buffer@.len() == n,
                self.height == old(self).height,
                self.width == old(self).width,
                self.cursor == old(self).cursor,
                self.last_buffer == old(self).last_buffer,
                old(self).wf(),
                n == old(self).height * old(self).width,
                forall|k: int| 0 <= k < i ==> #[trigger] self.buffer@[k]@ == default_pixel(),
            decreases n - i,
        {
            let p = Pixel::default();
            self.buffer[i] = p;
            i += 1;
        }
        proof {
            assert forall|k: int| 0 <= k < n implies grid_view(self.buffer@)[k] == blank_grid(
                n as nat,
            )[k] by {
                assert(grid_view(self.buffer@)[k] == self.buffer@[k]@);
            }
            assert(grid_view(self.buffer@) =~= blank_grid(n as nat));
        }
    }

    /// Write one cell into the front grid at `pos`; a write that does not fit
    /// is silently dropped (resizes race with painting).
    pub fn write_cell(&mut self, pos: Position, style: Style, cell: &Cell)
        requires
            old(self).wf(),
        ensures
            final(self).wf(),
            final(self).height == old(self).height,
            final(self).width == old(self).width,
            final(self).cursor == old(self).cursor,
            final(self).last_buffer == old(self).last_buffer,
            final(self).front() == place_cell(
                old(self).front(),
                old(self).width as int,
                old(self).height as int,
                pos.x as int,
                pos.y as int,
                style,
                cell@,
            ),
    {
        if pos.y >= self.height || pos.x >= self.width || cell.width > self.width - pos.x {
            return;
        }
        let total = self.buffer.len();
        proof {
            lemma_cell_fits(
                self.height as int,
                self.width as int,
                pos.y as int,
                pos.x as int,
                cell@.width as int,
            );
            lemma_cell_index(self.height as int, self.width as int, pos.y as int, pos.x as int);
            assert(total == old(self).height * old(self).width);
        }
        let base = pos.y * self.width + pos.x;
        proof {
            assert(base + cell.width <= total);
        }
        let head = Pixel { style, content: cell.text.clone(), width: cell.width };
        self.buffer[base] = head;
        let mut i: usize = 1;
        while i < cell.width
            invariant
                old(self).wf(),
                1 <= i,
                i <= cell.width || i == 1,
                cell.width <= old(self).width - pos.x,
                pos.y < old(self).height,
                pos.x < old(self).width,
                base == pos.y * old(self).width + pos.x,
                base + cell.width <= old(self).buffer@.len(),
                old(self).buffer@.len() <= usize::MAX,
                self.height == old(self).height,
                self.width == old(self).width,
                self.cursor == old(self).cursor,
                self.last_buffer == old(self).last_buffer,
                self.buffer@.len() == old(self).buffer@.len(),
                self.buffer@[base as int]@ == (PixelV {
                    style,
                    content: cell@.text,
                    width: cell@.width,
                }),
                forall|j: int|
                    base < j < base + i ==> #[trigger] self.buffer@[j]@ == (PixelV {
                        style,
                        content: Seq::<char>::empty(),
                        width: 0nat,
                    }),
                forall|j: int|
                    0 <= j < self.buffer@.len() && !(base <= j < base + i) ==> self.buffer@[j]
                        == old(self).buffer@[j],
            decreases cell.width - i,
        {
            let ph = Pixel { style, content: String::new(), width: 0 };
            self.buffer[base + i] = ph;
            i += 1;
        }
        proof {
            let w = old(self).width as int;
            let h = old(self).height as int;
            let g0 = old(self).front();
            let placed = place_cell(g0, w, h, pos.x as int, pos.y as int, style, cell@);
            assert forall|j: int| 0 <= j < g0.len() implies grid_view(self.buffer@)[j] == placed[j]
            by {
                assert(grid_view(self.buffer@)[j] == self.buffer@[j]@);
                assert(g0[j] == old(self).buffer@[j]@);
                let b = pos.y as int * w + pos.x as int;
                if j == b {
                    assert(placed[j] == (PixelV { style, content: cell@.text, width: cell@.width }));
                } else if b < j < b + cell@.width {
                    assert(self.buffer@[j]@ == (PixelV {
                        style,
                        content: Seq::<char>::empty(),
                        width: 0nat,
                    }));
                    assert(placed[j] == (PixelV {
                        style,
                        content: Seq::<char>::empty(),
                        width: 0nat,
                    }));
                } else {
                    assert(self.buffer@[j] == old(self).buffer@[j]);
                    assert(placed[j] == g0[j]);
                }
            }
            assert(grid_view(self.buffer@) =~= placed);
        }
    }

    /// Write a run of styled cells left to right from `pos`, dropping the run
    /// from the first cell that does not fit.
    pub fn write(&mut self, pos: Position, style: Style, cells: &Vec<Cell>)
        requires
            old(self).wf(),
        ensures
            final(self).wf(),
            final(self).height == old(self).height,
            final(self).width == old(self).width,
            final(self).cursor == old(self).cursor,
            final(self).last_buffer == old(self).last_buffer,
            final(self).front() == place_cells(
                old(self).front(),
                old(self).width as int,
                old(self).height as int,
                pos.x as int,
                pos.y as int,
                style,
                cells_of(cells@),
            ),
    {
        let ghost all = cells_of(cells@);
        proof {
            assert(all.skip(0) =~= all);
        }
        let mut x = pos.x;
        let mut i: usize = 0;
        while i < cells.len()
            invariant
                old(self).wf(),
                i <= cells.len(),
                all == cells_of(cells@),
                all.len() == cells.len(),
                self.height == old(self).height,
                self.width == old(self).width,
                self.cursor == old(self).cursor,
                self.last_buffer == old(self).last_buffer,
                self.wf(),
                place_cells(
                    old(self).front(),
                    old(self).width as int,
                    old(self).height as int,
                    pos.x as int,
                    pos.y as int,
                    style,
                    all,
                ) == place_cells(
                    self.front(),
                    self.width as int,
                    self.height as int,
                    x as int,
                    pos.y as int,
                    style,
                    all.skip(i as int),
                ),
            decreases cells.len() - i,
        {
            proof {
                assert(all[i as int] == cells@[i as int]@);
                assert(all.skip(i as int)[0] == all[i as int]);
            }
            let cw = cells[i].width;
            if pos.y >= self.height || x >= self.width || cw > self.width - x {
                proof {
                    assert(place_cells(
                        self.front(),
                        self.width as int,
                        self.height as int,
                        x as int,
                        pos.y as int,
                        style,
                        all.skip(i as int),
                    ) == self.front());
                }
                return;
            }
            let ghost pre = self.front();
            self.write_cell(Position { x, y: pos.y }, style, &cells[i]);
            proof {
                assert(all.skip(i as int).drop_first() =~= all.skip(i + 1));
            }
            x = x + cw;
            i += 1;
        }
        proof {
            assert(all.skip(cells@.len() as int) =~= Seq::<CellV>::empty());
        }
    }

    /// Dim the whole front grid: every pixel keeps its content but is
    /// recolored to dimmed text on the editor background, and the cursor is
    /// hidden. Used to draw the document under a modal overlay.
    pub fn dimmed(&mut self)
        requires
            old(self).wf(),
        ensures
            final(self).wf(),
            final(self).height == old(self).height,
            final(self).width == old(self).width,
            final(self).cursor is None,
            final(self).last_buffer == old(self).last_buffer,
            final(self).front().len() == old(self).front().len(),
            forall|j: int|
                0 <= j < old(self).front().len() ==> #[trigger] final(self).front()[j] == (PixelV {
                    style: Style {
                        fg: Some(crate::style::Color { r: 126, g: 126, b: 126 }),
                        bg: Some(crate::style::Color { r: 34, g: 34, b: 34 }),
                        ..old(self).front()[j].style
                    },
                    ..old(self).front()[j]
                }),
    {
        let n = self.buffer.len();
        let mut i: usize = 0;
        while i < n
            invariant
                i <= n,
                old(self).wf(),
                self.buffer@.len() == n,
                n == old(self).buffer@.len(),
                self.height == old(self).height,
                self.width == old(self).width,
                self.cursor == old(self).cursor,
                self.last_buffer == old(self).last_buffer,
                forall|j: int|
                    0 <= j < i ==> #[trigger] self.buffer@[j]@ == (PixelV {
                        style: Style {
                            fg: Some(crate::style::Color { r: 126, g: 126, b: 126 }),
                            bg: Some(crate::style::Color { r: 34, g: 34, b: 34 }),
                            ..old(self).buffer@[j]@.style
                        },
                        ..old(self).buffer@[j]@
                    }),
                forall|j: int| i <= j < n ==> self.buffer@[j] == old(self).buffer@[j],
            decreases n - i,
        {
            let fg = crate::style::text_dimmed();
            let bg = crate::style::background();
            let style = Style {
                fg: Some(fg),
                bg: Some(bg),
                bold: self.buffer[i].style.bold,
                underlined: self.buffer[i].style.underlined,
            };
            let content = self.buffer[i].content.clone();
            let width = self.buffer[i].width;
            self.buffer[i] = Pixel { style, content, width };
            i += 1;
        }
        self.cursor = None;
        proof {
            assert forall|j: int| 0 <= j < old(self).front().len() implies #[trigger] grid_view(
                self.buffer@,
            )[j] == (PixelV {
                style: Style {
                    fg: Some(crate::style::Color { r: 126, g: 126, b: 126 }),
                    bg: Some(crate::style::Color { r: 34, g: 34, b: 34 }),
                    ..old(self).front()[j].style
                },
                ..old(self).front()[j]
            }) by {
                assert(grid_view(self.buffer@)[j] == self.buffer@[j]@);
                assert(old(self).front()[j] == old(self).buffer@[j]@);
            }
        }
    }

    /// Flush the frame: compare the front grid against the last flushed grid
    /// cell by cell and emit commands for the differences only, coalescing
    /// contiguous runs (no cursor move when the output cursor is already in
    /// place) and repeating no style that is already active. The front grid
    /// becomes the last flushed grid.
    pub fn end_render(&mut self) -> (r: Vec<Command>)
        requires
            old(self).wf(),
        ensures
            final(self).wf(),
            final(self).height == old(self).height,
            final(self).width == old(self).width,
            final(self).cursor == old(self).cursor,
            final(self).buffer == old(self).buffer,
            final(self).last() == old(self).front(),
            cmds_view(r@) == spec_flush(
                old(self).front(),
                old(self).last(),
                old(self).width as int,
                old(self).height as int,
                old(self).cursor,
            ),
    {
        let ghost front = self.front();
        let ghost last = self.last();
        let ghost w = self.width as int;
        let ghost h = self.height as int;
        let mut out: Vec<Command> = Vec::new();
        out.push(Command::Hide);
        out.push(Command::ResetColor);
        out.push(Command::ResetAttributes);
        let ghost prelude = seq![CommandV::Hide, CommandV::ResetColor, CommandV::ResetAttributes];
        proof {
            assert(cmds_view(out@) =~= prelude);
        }
        let mut current_style = Style::new();
        let total = self.buffer.len();
        proof {
            assert(total == old(self).height * old(self).width);
        }
        let mut y: usize = 0;
        while y < self.height
            invariant
                old(self).wf(),
                *self == *old(self),
                front == self.front(),
                last == self.last(),
                w == self.width as int,
                h == self.height as int,
                y <= self.height,
                total == self.buffer@.len(),
                cmds_view(out@) + flush_rows(front, last, w, h, y as int, current_style).0
                    =~= prelude + flush_rows(front, last, w, h, 0, Style::plain()).0,
            decreases self.height - y,
        {
            let ghost style_row0 = current_style;
            let ghost out0 = out@;
            let mut row_dirty = false;
            let mut x: usize = 0;
            while x < self.width
                invariant
                    old(self).wf(),
                    *self == *old(self),
                    front == self.front(),
                    last == self.last(),
                    w == self.width as int,
                    h == self.height as int,
                    y < self.height,
                    x <= self.width,
                    total == self.buffer@.len(),
                    out@ == out0,
                    row_dirty == exists|x0: int|
                        0 <= x0 < x && #[trigger] cell_changed(
                            at(front, w, y as int, x0),
                            at(last, w, y as int, x0),
                        ),
                decreases self.width - x,
            {
                proof {
                    lemma_cell_index(h, w, y as int, x as int);
                    assert(total == h * w);
                }
                let idx = y * self.width + x;
                let not_empty = !self.buffer[idx].content.as_str().is_empty();
                let same = self.buffer[idx].style.style_eq(&self.last_buffer[idx].style)
                    && self.buffer[idx].content == self.last_buffer[idx].content;
                if not_empty && !same {
                    row_dirty = true;
                }
                proof {
                    let f = at(front, w, y as int, x as int);
                    let l = at(last, w, y as int, x as int);
                    assert(f == self.buffer@[idx as int]@);
                    assert(l == self.last_buffer@[idx as int]@);
                    assert((not_empty && !same) == cell_changed(f, l));
                    if !(not_empty && !same) {
                        assert forall|x0: int|
                            0 <= x0 < x + 1 && #[trigger] cell_changed(
                                at(front, w, y as int, x0),
                                at(last, w, y as int, x0),
                            ) implies 0 <= x0 < x by {
                            assert(x0 != x);
                        }
                    }
                }
                x += 1;
            }
            if row_dirty {
                out.push(Command::MoveTo(0, y));
                proof {
                    lemma_cmds_view_push(out0, Command::MoveTo(0, y));
                }
            }
            let mut cursor_x: usize = 0;
            x = 0;
            proof {
                assert(row_dirty == row_changed(front, last, w, y as int));
                let row = flush_row(front, last, w, y as int, 0, 0, style_row0);
                let head: Seq<CommandV> = if row_changed(front, last, w, y as int) {
                    seq![CommandV::MoveTo(0, y as int)]
                } else {
                    Seq::<CommandV>::empty()
                };
                assert(flush_rows(front, last, w, h, y as int, style_row0).0 == head + row.0
                    + flush_rows(front, last, w, h, y + 1, row.1).0);
                assert(cmds_view(out@) + row.0 + flush_rows(front, last, w, h, y + 1, row.1).0
                    =~= cmds_view(out0) + flush_rows(front, last, w, h, y as int, style_row0).0);
            }
            while x < self.width
                invariant
                    old(self).wf(),
                    *self == *old(self),
                    front == self.front(),
                    last == self.last(),
                    w == self.width as int,
                    h == self.height as int,
                    y < self.height,
                    x <= self.width,
                    total == self.buffer@.len(),
                    cmds_view(out@) + flush_row(
                        front,
                        last,
                        w,
                        y as int,
                        x as int,
                        cursor_x as int,
                        current_style,
                    ).0 + flush_rows(
                        front,
                        last,
                        w,
                        h,
                        y + 1,
                        flush_row(
                            front,
                            last,
                            w,
                            y as int,
                            x as int,
                            cursor_x as int,
                            current_style,
                        ).1,
                    ).0 =~= prelude + flush_rows(front, last, w, h, 0, Style::plain()).0,
                decreases self.width - x,
            {
                proof {
                    lemma_cell_index(h, w, y as int, x as int);
                    assert(total == h * w);
                }
                let idx = y * self.width + x;
                let ghost f = at(front, w, y as int, x as int);
                let ghost l = at(last, w, y as int, x as int);
                proof {
                    assert(f == self.buffer@[idx as int]@);
                    assert(l == self.last_buffer@[idx as int]@);
                }
                let ghost step = flush_cell(f, l, x as int, y as int, cursor_x as int, current_style);
                let ghost out0 = out@;
                let ghost cx0 = cursor_x as int;
                let ghost st0 = current_style;
                let not_empty = !self.buffer[idx].content.as_str().is_empty();
                if not_empty {
                    let same = self.buffer[idx].style.style_eq(&self.last_buffer[idx].style)
                        && self.buffer[idx].content == self.last_buffer[idx].content;
                    if !same {
                        if x != cursor_x {
                            let ghost o = out@;
                            out.push(Command::MoveTo(x, y));
                            proof {
                                lemma_cmds_view_push(o, Command::MoveTo(x, y));
                            }
                        }
                        if !self.buffer[idx].style.style_eq(&current_style) {
                            if !self.buffer[idx].style.attrs_eq(&current_style) {
                                let ghost o = out@;
                                out.push(Command::ResetAttributes);
                                proof {
                                    lemma_cmds_view_push(o, Command::ResetAttributes);
                                }
                            }
                            let ghost o = out@;
                            let sty = self.buffer[idx].style;
                            out.push(Command::SetStyle(sty));
                            proof {
                                lemma_cmds_view_push(o, Command::SetStyle(sty));
                            }
                        }
                        let ghost o = out@;
                        let glyph = self.buffer[idx].content.clone();
                        out.push(Command::Print(glyph));
                        proof {
                            lemma_cmds_view_push(o, Command::Print(glyph));
                        }
                        cursor_x = x.saturating_add(self.buffer[idx].width);
                        current_style = self.buffer[idx].style;
                    }
                }
                proof {
                    assert(cmds_view(out@) =~= cmds_view(out0) + step.0);
                    assert(cursor_x as int == step.1 && current_style == step.2);
                    let rest = flush_row(front, last, w, y as int, x + 1, step.1, step.2);
                    assert(flush_row(front, last, w, y as int, x as int, cx0, st0).0 == step.0
                        + rest.0);
                    assert(flush_row(front, last, w, y as int, x as int, cx0, st0).1 == rest.1);
                    assert(cmds_view(out@) + rest.0 + flush_rows(front, last, w, h, y + 1, rest.1).0
                        =~= prelude + flush_rows(front, last, w, h, 0, Style::plain()).0);
                }
                x += 1;
            }
            y += 1;
        }
        proof {
            assert(cmds_view(out@) =~= prelude + flush_rows(front, last, w, h, 0, Style::plain()).0);
        }
        match self.cursor {
            Some(p) => {
                let ghost o1 = out@;
                out.push(Command::Show);
                proof {
                    lemma_cmds_view_push(o1, Command::Show);
                }
                let ghost o2 = out@;
                out.push(Command::MoveTo(p.x, p.y));
                proof {
                    lemma_cmds_view_push(o2, Command::MoveTo(p.x, p.y));
                }
            },
            None => {},
        }
        self.last_buffer = clone_pixels(&self.buffer);
        proof {
            assert(grid_view(self.last_buffer@) =~= grid_view(old(self).buffer@));
            assert(cmds_view(out@) =~= spec_flush(front, last, w, h, old(self).cursor));
        }
        out
    }
}

/// The cell values of a cell vector.
pub open spec fn cells_of(cells: Seq<Cell>) -> Seq<CellV> {
    cells.map_values(|c: Cell| c@)
}

/// Appending one command appends its value to the command list's value.
proof fn lemma_cmds_view_push(s: Seq<Command>, c: Command)
    ensures
        cmds_view(s.push(c)) =~= cmds_view(s).push(c@),
{
    assert forall|k: int| 0 <= k < s.len() + 1 implies cmds_view(s.push(c))[k] == cmds_view(s).push(
        c@,
    )[k] by {
        assert(cmds_view(s.push(c))[k] == s.push(c)[k]@);
        if k < s.len() {
            assert(cmds_view(s)[k] == s[k]@);
        }
    }
}

/// `n` blank pixels.
fn blank_pixels(n: usize) -> (r: Vec<Pixel>)
    ensures
        r@.len() == n,
        grid_view(r@) == blank_grid(n as nat),
{
    let mut out: Vec<Pixel> = Vec::new();
    let mut i: usize = 0;
    while i < n
        invariant
            i <= n,
            out@.len() == i,
            forall|k: int| 0 <= k < i ==> #[trigger] out@[k]@ == default_pixel(),
        decreases n - i,
    {
        let p = Pixel::default();
        out.push(p);
        i += 1;
    }
    proof {
        assert forall|k: int| 0 <= k < n implies grid_view(out@)[k] == blank_grid(n as nat)[k] by {
            assert(grid_view(out@)[k] == out@[k]@);
        }
        assert(grid_view(out@) =~= blank_grid(n as nat));
    }
    out
}

/// A copy of a pixel vector whose pixels stand for the same values.
fn clone_pixels(g: &Vec<Pixel>) -> (r: Vec<Pixel>)
    ensures
        r@.len() == g@.len(),
        grid_view(r@) == grid_view(g@),
{
    let mut out: Vec<Pixel> = Vec::new();
    let mut i: usize = 0;
    while i < g.len()
        invariant
            i <= g.len(),
            out@.len() == i,
            forall|k: int| 0 <= k < i ==> #[trigger] out@[k]@ == g@[k]@,
        decreases g.len() - i,
    {
        out.push(g[i].clone());
        i += 1;
    }
    proof {
        assert forall|k: int| 0 <= k < g@.len() implies grid_view(out@)[k] == grid_view(g@)[k] by {
            assert(grid_view(out@)[k] == out@[k]@);
            assert(grid_view(g@)[k] == g@[k]@);
        }
        assert(grid_view(out@) =~= grid_view(g@));
    }
    out
}

/// In a `h` by `w` grid, the cells of a run starting at column `x` of row `y`
/// that fits the row lie within the grid.
proof fn lemma_cell_fits(h: int, w: int, y: int, x: int, width: int)
    requires
        0 <= y < h,
        0 <= x < w,
        0 <= width,
        x + width <= w,
    ensures
        y * w + x + width <= h * w,
        0 <= y * w + x,
{
    assert(y * w + x + width <= h * w) by (nonlinear_arith)
        requires
            0 <= y < h,
            0 <= x < w,
            0 <= width,
            x + width <= w,
    ;
    assert(0 <= y * w + x) by (nonlinear_arith)
        requires
            0 <= y,
            0 <= x,
            0 < w,
    ;
}

/// In a `h` by `w` grid, the index of the cell at row `y`, column `x` is in
/// range.
proof fn lemma_cell_index(h: int, w: int, y: int, x: int)
    requires
        0 <= y < h,
        0 <= x < w,
    ensures
        0 <= y * w + x < h * w,
{
    assert(0 <= y * w + x < h * w) by (nonlinear_arith)
        requires
            0 <= y < h,
            0 <= x < w,
    ;
}

/// A frame identical to the last flushed one makes every cell and every row
/// contribute nothing: the flush of such a frame emits no command at all, in
/// particular no `Print`.
pub proof fn lemma_unchanged_frame_prints_nothing(g: Seq<PixelV>, w: int, h: int, y: int, st: Style)
    requires
        0 <= y,
    ensures
        flush_rows(g, g, w, h, y, st).0 == Seq::<CommandV>::empty(),
        forall|c: CommandV|
            flush_rows(g, g, w, h, y, st).0.contains(c) ==> !(c is Print),
    decreases h - y,
{
    if y < h {
        lemma_unchanged_row_prints_nothing(g, w, y, 0, 0, st);
        let (rc, st2) = flush_row(g, g, w, y, 0, 0, st);
        lemma_unchanged_frame_prints_nothing(g, w, h, y + 1, st2);
        assert forall|x: int| 0 <= x < w implies !(#[trigger] cell_changed(
            at(g, w, y, x),
            at(g, w, y, x),
        )) by {}
        assert(!row_changed(g, g, w, y));
        assert(flush_rows(g, g, w, h, y, st).0 =~= Seq::<CommandV>::empty());
    }
}

/// Within one row, an unchanged frame contributes no commands at all.
proof fn lemma_unchanged_row_prints_nothing(g: Seq<PixelV>, w: int, y: int, x: int, cx: int, st: Style)
    ensures
        flush_row(g, g, w, y, x, cx, st).0 == Seq::<CommandV>::empty(),
        flush_row(g, g, w, y, x, cx, st).1 == st,
    decreases w - x,
{
    if 0 <= x < w {
        lemma_unchanged_row_prints_nothing(g, w, y, x + 1, cx, st);
        assert(flush_row(g, g, w, y, x, cx, st).0 =~= Seq::<CommandV>::empty());
    }
}

} // verus!
