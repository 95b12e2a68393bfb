//! The terminal grid: cells with colors and style flags, a cursor, and the
//! row operations (clearing, scrolling a region, resizing) the emulator
//! builds on.

use vstd::prelude::*;

verus! {

/// A terminal color.
#[derive(Debug, Clone, Copy, PartialEq, Eq, Structural)]
pub enum Color {
    /// The terminal's default foreground/background color.
    Default,
    /// An index into the 256-color palette (0-15 basic/bright, 16-255 extended).
    Indexed(u8),
    /// A 24-bit truecolor value.
    Rgb(u8, u8, u8),
}

impl Default for Color {
    fn default() -> (c: Color)
        ensures
            c == Color::Default,
    {
        Color::Default
    }
}

/// Style flags applied to a [`Cell`].
#[derive(Debug, Clone, Copy, PartialEq, Eq, Structural)]
pub struct CellFlags {
    pub bold: bool,
    pub italic: bool,
    pub underline: bool,
    pub inverse: bool,
}

/// No style flag set.
pub open spec fn no_flags() -> CellFlags {
    CellFlags { bold: false, italic: false, underline: false, inverse: false }
}

impl Default for CellFlags {
    fn default() -> (f: CellFlags)
        ensures
            f == no_flags(),
    {
        CellFlags { bold: false, italic: false, underline: false, inverse: false }
    }
}

/// A single grid cell: a character plus its colors and style flags.
#[derive(Debug, Clone, Copy, PartialEq, Eq, Structural)]
pub struct Cell {
    pub c: char,
    pub fg: Color,
    pub bg: Color,
    pub flags: CellFlags,
}

/// A blank space with default colors and no flags.
pub open spec fn blank_cell() -> Cell {
    Cell { c: ' ', fg: Color::Default, bg: Color::Default, flags: no_flags() }
}

/// `cols` blank cells.
pub open spec fn blank_line(cols: nat) -> Seq<Cell> {
    Seq::new(cols, |i: int| blank_cell())
}

impl Default for Cell {
    fn default() -> (c: Cell)
        ensures
            c == blank_cell(),
    {
        Cell { c: ' ', fg: Color::Default, bg: Color::Default, flags: CellFlags::default() }
    }
}

/// The cursor position and visibility.
#[derive(Debug, Clone, Copy, PartialEq, Eq, Structural)]
pub struct Cursor {
    pub row: usize,
    pub col: usize,
    pub visible: bool,
}

impl Default for Cursor {
    fn default() -> (c: Cursor)
        ensures
            c == (Cursor { row: 0, col: 0, visible: true }),
    {
        Cursor { row: 0, col: 0, visible: true }
    }
}

/// Largest number of cells a screen may hold: the cells of a grid must fit
/// in the address space.
pub const MAX_CELLS: usize = 0x7fff_ffff;

/// A grid of `rows` x `cols` cells fits in memory.
pub open spec fn fits(rows: nat, cols: nat) -> bool {
    rows * cols <= MAX_CELLS
}

/// The mathematical content of a screen.
#[verifier::ext_equal]
pub struct ScreenView {
    pub rows: nat,
    pub cols: nat,
    /// The rows, top first, each `cols` cells long.
    pub grid: Seq<Seq<Cell>>,
    pub cursor: Cursor,
}

/// A well-formed screen: at least one row and column, every row `cols`
/// cells long, the cursor on the grid.
pub open spec fn view_wf(v: ScreenView) -> bool {
    &&& v.rows >= 1
    &&& v.cols >= 1
    &&& fits(v.rows, v.cols)
    &&& v.rows <= MAX_CELLS
    &&& v.cols <= MAX_CELLS
    &&& v.grid.len() == v.rows
    &&& forall|r: int| 0 <= r < v.rows ==> (#[trigger] v.grid[r]).len() == v.cols
    &&& v.cursor.row < v.rows
    &&& v.cursor.col < v.cols
}

/// A blank `rows` x `cols` grid.
pub open spec fn blank_grid(rows: nat, cols: nat) -> Seq<Seq<Cell>> {
    Seq::new(rows, |r: int| blank_line(cols))
}

/// Rows `top..=bottom` of `g` moved up by `n`, blank rows filling in at the
/// bottom of the region; the other rows unchanged.
pub open spec fn scrolled_up(g: Seq<Seq<Cell>>, cols: nat, top: int, bottom: int, n: int) -> Seq<Seq<Cell>> {
    Seq::new(
        g.len(),
        |r: int|
            if top <= r <= bottom {
                if r + n <= bottom {
                    g[r + n]
                } else {
                    blank_line(cols)
                }
            } else {
                g[r]
            },
    )
}

/// Rows `top..=bottom` of `g` moved down by `n`, blank rows filling in at
/// the top of the region; the other rows unchanged.
pub open spec fn scrolled_down(g: Seq<Seq<Cell>>, cols: nat, top: int, bottom: int, n: int) -> Seq<Seq<Cell>> {
    Seq::new(
        g.len(),
        |r: int|
            if top <= r <= bottom {
                if r >= top + n {
                    g[r - n]
                } else {
                    blank_line(cols)
                }
            } else {
                g[r]
            },
    )
}

/// `g` cut or padded with blanks to `rows` x `cols`, anchored top-left.
pub open spec fn regrid(g: Seq<Seq<Cell>>, rows: nat, cols: nat) -> Seq<Seq<Cell>> {
    Seq::new(
        rows,
        |r: int|
            Seq::new(
                cols,
                |c: int|
                    if r < g.len() && c < g[r].len() {
                        g[r][c]
                    } else {
                        blank_cell()
                    },
            ),
    )
}

/// `o` resized to `r` x `c`: the content that fits is kept (top-left
/// anchored) and the cursor pulled onto the grid; same dimensions change
/// nothing.
pub open spec fn resized(o: ScreenView, r: nat, c: nat) -> ScreenView {
    if r == o.rows && c == o.cols {
        o
    } else {
        ScreenView {
            rows: r,
            cols: c,
            grid: regrid(o.grid, r, c),
            cursor: Cursor {
                row: if o.cursor.row >= r { (r - 1) as usize } else { o.cursor.row },
                col: if o.cursor.col >= c { (c - 1) as usize } else { o.cursor.col },
                visible: o.cursor.visible,
            },
        }
    }
}

/// Row `r` of `g` with cells `from..to` blanked.
pub open spec fn blank_span(g: Seq<Seq<Cell>>, r: int, from: int, to: int) -> Seq<Seq<Cell>> {
    g.update(r, Seq::new(g[r].len(), |c: int| if from <= c < to { blank_cell() } else { g[r][c] }))
}

/// Rows `from..to` of `g` blanked.
pub open spec fn blank_rows(g: Seq<Seq<Cell>>, cols: nat, from: int, to: int) -> Seq<Seq<Cell>> {
    Seq::new(g.len(), |r: int| if from <= r < to { blank_line(cols) } else { g[r] })
}

/// `min(a, b)`.
pub open spec fn min(a: int, b: int) -> int {
    if a < b {
        a
    } else {
        b
    }
}

/// A fixed-size grid of [`Cell`]s with a cursor.
#[derive(Debug, Clone)]
pub struct Screen {
    rows: usize,
    cols: usize,
    lines: Vec<Vec<Cell>>,
    pub(crate) cursor: Cursor,
}

impl View for Screen {
    type V = ScreenView;

    closed spec fn view(&self) -> ScreenView {
        ScreenView {
            rows: self.rows as nat,
            cols: self.cols as nat,
            grid: self.lines@.map_values(|l: Vec<Cell>| l@),
            cursor: self.cursor,
        }
    }
}

/// `cols` blank cells.
fn blank_row(cols: usize) -> (v: Vec<Cell>)
    ensures
        v@ == blank_line(cols as nat),
{
    let mut v: Vec<Cell> = Vec::new();
    let mut i: usize = 0;
    while i < cols
        invariant
            i <= cols,
            v@ == blank_line(i as nat),
        decreases cols - i,
    {
        v.push(Cell::default());
        i = i + 1;
        assert(v@ =~= blank_line(i as nat));
    }
    v
}

/// A copy of a row.
fn copy_row(src: &Vec<Cell>) -> (v: Vec<Cell>)
    ensures
        v@ == src@,
{
    let mut v: Vec<Cell> = Vec::new();
    let mut i: usize = 0;
    while i < src.len()
        invariant
            i <= src@.len(),
            v@ == src@.take(i as int),
        decreases src@.len() - i,
    {
        v.push(src[i]);
        i = i + 1;
        assert(v@ =~= src@.take(i as int));
    }
    assert(src@.take(src@.len() as int) =~= src@);
    v
}

impl Screen {
    /// The representation matches the view and the view is well formed.
    pub closed spec fn wf(&self) -> bool {
        &&& view_wf(self@)
        &&& self.lines@.len() == self.rows
    }

    /// A well-formed screen has a well-formed view.
    pub proof fn lemma_view_wf(&self)
        requires
            self.wf(),
        ensures
            view_wf(self@),
    {
    }

    proof fn lemma_row_len(&self, r: int)
        requires
            self.wf(),
            0 <= r < self.rows,
        ensures
            self.lines@[r]@.len() == self.cols,
            self.lines@[r]@ == self@.grid[r],
    {
        assert(self@.grid[r].len() == self@.cols);
    }

    /// Build a screen from rows of cells, each `cols` long.
    fn from_lines(rows: usize, cols: usize, lines: Vec<Vec<Cell>>, cursor: Cursor) -> (s: Screen)
        requires
            rows >= 1,
            cols >= 1,
            fits(rows as nat, cols as nat),
            lines@.len() == rows,
            forall|r: int| 0 <= r < rows ==> (#[trigger] lines@[r])@.len() == cols,
            cursor.row < rows,
            cursor.col < cols,
        ensures
            s.wf(),
            s@.rows == rows,
            s@.cols == cols,
            s@.grid == lines@.map_values(|l: Vec<Cell>| l@),
            s@.cursor == cursor,
    {
        let s = Screen { rows, cols, lines, cursor };
        assert(rows <= MAX_CELLS && cols <= MAX_CELLS) by (nonlinear_arith)
            requires
                rows >= 1,
                cols >= 1,
                rows * cols <= MAX_CELLS,
        ;
        assert forall|r: int| 0 <= r < s@.rows implies (#[trigger] s@.grid[r]).len() == s@.cols by {
            assert(s@.grid[r] == lines@[r]@);
        }
        s
    }

    /// A blank screen of `rows` x `cols` (each at least 1), cursor home and
    /// visible.
    pub fn new(rows: usize, cols: usize) -> (s: Screen)
        requires
            fits(if rows < 1 { 1nat } else { rows as nat }, if cols < 1 { 1nat } else { cols as nat }),
        ensures
            s.wf(),
            s@.rows == (if rows < 1 { 1 } else { rows }),
            s@.cols == (if cols < 1 { 1 } else { cols }),
            s@.grid == blank_grid(s@.rows, s@.cols),
            s@.cursor == (Cursor { row: 0, col: 0, visible: true }),
    {
        let rows = if rows < 1 { 1 } else { rows };
        let cols = if cols < 1 { 1 } else { cols };
        let mut lines: Vec<Vec<Cell>> = Vec::new();
        let mut r: usize = 0;
        while r < rows
            invariant
                r <= rows,
                lines@.len() == r,
                forall|i: int| 0 <= i < r ==> (#[trigger] lines@[i])@ == blank_line(cols as nat),
            decreases rows - r,
        {
            lines.push(blank_row(cols));
            r = r + 1;
        }
        let s = Screen::from_lines(rows, cols, lines, Cursor::default());
        assert(s@.grid =~= blank_grid(rows as nat, cols as nat));
        s
    }

    pub fn rows(&self) -> (n: usize)
        ensures
            n == self@.rows,
    {
        self.rows
    }

    pub fn cols(&self) -> (n: usize)
        ensures
            n == self@.cols,
    {
        self.cols
    }

    pub fn cursor(&self) -> (c: Cursor)
        ensures
            c == self@.cursor,
    {
        self.cursor
    }

    /// The cell at `(row, col)`.
    pub fn cell(&self, row: usize, col: usize) -> (c: &Cell)
        requires
            self.wf(),
            row < self@.rows,
            col < self@.cols,
        ensures
            *c == self@.grid[row as int][col as int],
    {
        proof {
            self.lemma_row_len(row as int);
        }
        &self.lines[row][col]
    }

    /// Row `n`, left to right.
    pub fn row(&self, n: usize) -> (r: &[Cell])
        requires
            self.wf(),
            n < self@.rows,
        ensures
            r@ == self@.grid[n as int],
    {
        proof {
            self.lemma_row_len(n as int);
        }
        self.lines[n].as_slice()
    }

    /// Store `cell` at `(row, col)`.
    pub(crate) fn set_cell(&mut self, row: usize, col: usize, cell: Cell)
        requires
            old(self).wf(),
            row < old(self)@.rows,
            col < old(self)@.cols,
        ensures
            final(self).wf(),
            final(self)@ == (ScreenView {
                grid: old(self)@.grid.update(row as int, old(self)@.grid[row as int].update(col as int, cell)),
                ..old(self)@
            }),
    {
        proof {
            self.lemma_row_len(row as int);
        }
        self.lines[row].set(col, cell);
        proof {
            assert(self@.grid =~= old(self)@.grid.update(row as int, old(self)@.grid[row as int].update(col as int, cell)));
            assert forall|r: int| 0 <= r < self@.rows implies (#[trigger] self@.grid[r]).len() == self@.cols by {
                if r != row {
                    old(self).lemma_row_len(r);
                }
            }
        }
    }

    /// Blank the cells `from..to` of row `row`.
    pub(crate) fn blank_cells(&mut self, row: usize, from: usize, to: usize)
        requires
            old(self).wf(),
            row < old(self)@.rows,
            from <= to <= old(self)@.cols,
        ensures
            final(self).wf(),
            final(self)@ == (ScreenView { grid: blank_span(old(self)@.grid, row as int, from as int, to as int), ..old(self)@ }),
    {
        let ghost g = old(self)@.grid;
        proof {
            old(self).lemma_row_len(row as int);
            assert(Seq::new(g[row as int].len(), |k: int| if from <= k < from { blank_cell() } else { g[row as int][k] }) =~= g[row as int]);
            assert(g.update(row as int, g[row as int]) =~= g);
        }
        let mut c = from;
        while c < to
            invariant
                g == old(self)@.grid,
                g.len() == self@.rows,
                g[row as int].len() == self@.cols,
                from <= c <= to,
                to <= self@.cols,
                row < self@.rows,
                self.wf(),
                self@.rows == old(self)@.rows,
                self@.cols == old(self)@.cols,
                self@.cursor == old(self)@.cursor,
                self@.grid == blank_span(old(self)@.grid, row as int, from as int, c as int),
            decreases to - c,
        {
            let ghost pre = self@.grid;
            self.set_cell(row, c, Cell::default());
            proof {
                assert(pre[row as int].update(c as int, blank_cell()) =~= blank_span(g, row as int, from as int, c + 1)[row as int]);
                assert(self@.grid[row as int] =~= blank_span(g, row as int, from as int, c + 1)[row as int]);
                assert(self@.grid =~= blank_span(g, row as int, from as int, c + 1));
            }
            c = c + 1;
        }
    }

    /// Replace every row with a copy of the row chosen by `pick`, keeping
    /// the dimensions and cursor.
    fn rebuild(&mut self, target: Ghost<Seq<Seq<Cell>>>, top: usize, bottom: usize, n: usize, up: bool)
        requires
            old(self).wf(),
            top <= bottom < old(self)@.rows,
            n <= bottom - top + 1,
            target@ == (if up {
                scrolled_up(old(self)@.grid, old(self)@.cols, top as int, bottom as int, n as int)
            } else {
                scrolled_down(old(self)@.grid, old(self)@.cols, top as int, bottom as int, n as int)
            }),
        ensures
            final(self).wf(),
            final(self)@ == (ScreenView { grid: target@, ..old(self)@ }),
    {
        let mut lines: Vec<Vec<Cell>> = Vec::new();
        let mut r: usize = 0;
        while r < self.rows
            invariant
                r <= self.rows,
                *self == *old(self),
                self.wf(),
                top <= bottom < self.rows,
                n <= bottom - top + 1,
                lines@.len() == r,
                target@.len() == self.rows,
                forall|i: int| 0 <= i < r ==> (#[trigger] lines@[i])@ == target@[i],
                target@ == (if up {
                    scrolled_up(old(self)@.grid, old(self)@.cols, top as int, bottom as int, n as int)
                } else {
                    scrolled_down(old(self)@.grid, old(self)@.cols, top as int, bottom as int, n as int)
                }),
            decreases self.rows - r,
        {
            let row = if top <= r && r <= bottom {
                if up {
                    if r + n <= bottom {
                        proof {
                            self.lemma_row_len((r + n) as int);
                        }
                        copy_row(&self.lines[r + n])
                    } else {
                        blank_row(self.cols)
                    }
                } else {
                    if r >= top + n {
                        proof {
                            self.lemma_row_len((r - n) as int);
                        }
                        copy_row(&self.lines[r - n])
                    } else {
                        blank_row(self.cols)
                    }
                }
            } else {
                proof {
                    self.lemma_row_len(r as int);
                }
                copy_row(&self.lines[r])
            };
            lines.push(row);
            r = r + 1;
        }
        proof {
            assert forall|i: int| 0 <= i < self.rows implies (#[trigger] lines@[i])@.len() == self.cols by {
                assert(lines@[i]@ == target@[i]);
                if top <= i <= bottom {
                    if up && i + n <= bottom {
                        self.lemma_row_len(i + n);
                    }
                    if !up && i >= top + n {
                        self.lemma_row_len(i - n);
                    }
                } else {
                    self.lemma_row_len(i);
                }
            }
        }
        let s = Screen::from_lines(self.rows, self.cols, lines, self.cursor);
        proof {
            assert(s@.grid =~= target@);
        }
        *self = s;
    }

    /// Scroll rows `top..=bottom` up by `n` (at most the region's height):
    /// the region's top rows are lost, blank rows appear at its bottom. No
    /// effect unless `top <= bottom < rows`.
    pub(crate) fn scroll_region_up(&mut self, top: usize, bottom: usize, n: usize)
        requires
            old(self).wf(),
        ensures
            final(self).wf(),
            final(self)@ == (if top <= bottom && bottom < old(self)@.rows {
                ScreenView {
                    grid: scrolled_up(old(self)@.grid, old(self)@.cols, top as int, bottom as int, min(n as int, bottom - top + 1)),
                    ..old(self)@
                }
            } else {
                old(self)@
            }),
    {
        if top > bottom || bottom >= self.rows {
            return;
        }
        let region = bottom - top + 1;
        let n = if n < region { n } else { region };
        let ghost target = scrolled_up(self@.grid, self@.cols, top as int, bottom as int, n as int);
        self.rebuild(Ghost(target), top, bottom, n, true);
    }

    /// Scroll rows `top..=bottom` down by `n` (at most the region's height):
    /// the region's bottom rows are lost, blank rows appear at its top. No
    /// effect unless `top <= bottom < rows`.
    pub(crate) fn scroll_region_down(&mut self, top: usize, bottom: usize, n: usize)
        requires
            old(self).wf(),
        ensures
            final(self).wf(),
            final(self)@ == (if top <= bottom && bottom < old(self)@.rows {
                ScreenView {
                    grid: scrolled_down(old(self)@.grid, old(self)@.cols, top as int, bottom as int, min(n as int, bottom - top + 1)),
                    ..old(self)@
                }
            } else {
                old(self)@
            }),
    {
        if top > bottom || bottom >= self.rows {
            return;
        }
        let region = bottom - top + 1;
        let n = if n < region { n } else { region };
        let ghost target = scrolled_down(self@.grid, self@.cols, top as int, bottom as int, n as int);
        self.rebuild(Ghost(target), top, bottom, n, false);
    }

    /// Resize to `rows` x `cols` (each at least 1), keeping the content that
    /// fits (top-left anchored) and pulling the cursor onto the new grid.
    pub(crate) fn resize(&mut self, rows: usize, cols: usize)
        requires
            old(self).wf(),
            fits(if rows < 1 { 1nat } else { rows as nat }, if cols < 1 { 1nat } else { cols as nat }),
        ensures
            final(self).wf(),
            final(self)@ == resized(old(self)@, if rows < 1 { 1nat } else { rows as nat }, if cols < 1 { 1nat } else { cols as nat }),
    {
        let rows = if rows < 1 { 1 } else { rows };
        let cols = if cols < 1 { 1 } else { cols };
        if rows == self.rows && cols == self.cols {
            return;
        }
        let ghost target = regrid(self@.grid, rows as nat, cols as nat);
        let mut lines: Vec<Vec<Cell>> = Vec::new();
        let mut r: usize = 0;
        while r < rows
            invariant
                r <= rows,
                *self == *old(self),
                self.wf(),
                lines@.len() == r,
                target == regrid(self@.grid, rows as nat, cols as nat),
                forall|i: int| 0 <= i < r ==> (#[trigger] lines@[i])@ == target[i],
            decreases rows - r,
        {
            let mut line: Vec<Cell> = Vec::new();
            let mut c: usize = 0;
            if r < self.rows {
                proof {
                    self.lemma_row_len(r as int);
                }
            }
            while c < cols
                invariant
                    c <= cols,
                    r < rows,
                    *self == *old(self),
                    self.wf(),
                    r < self.rows ==> self.lines@[r as int]@ == self@.grid[r as int] && self@.grid[r as int].len() == self.cols,
                    line@ == target[r as int].take(c as int),
                    target == regrid(self@.grid, rows as nat, cols as nat),
                decreases cols - c,
            {
                let cell = if r < self.rows && c < self.cols {
                    self.lines[r][c]
                } else {
                    Cell::default()
                };
                line.push(cell);
                c = c + 1;
                assert(line@ =~= target[r as int].take(c as int));
            }
            assert(target[r as int].take(cols as int) =~= target[r as int]);
            lines.push(line);
            r = r + 1;
        }
        let mut cursor = self.cursor;
        if cursor.row >= rows {
            cursor.row = rows - 1;
        }
        if cursor.col >= cols {
            cursor.col = cols - 1;
        }
        let s = Screen::from_lines(rows, cols, lines, cursor);
        proof {
            assert(s@.grid =~= target);
        }
        *self = s;
    }

    /// Move the cursor to `(row, col)`.
    pub(crate) fn set_cursor(&mut self, row: usize, col: usize)
        requires
            old(self).wf(),
            row < old(self)@.rows,
            col < old(self)@.cols,
        ensures
            final(self).wf(),
            final(self)@ == (ScreenView { cursor: Cursor { row, col, ..old(self)@.cursor }, ..old(self)@ }),
    {
        self.cursor.row = row;
        self.cursor.col = col;
    }

    /// Show or hide the cursor.
    pub(crate) fn set_cursor_visible(&mut self, visible: bool)
        requires
            old(self).wf(),
        ensures
            final(self).wf(),
            final(self)@ == (ScreenView { cursor: Cursor { visible, ..old(self)@.cursor }, ..old(self)@ }),
    {
        self.cursor.visible = visible;
    }

    /// Replace row `row` with `line`, which is `cols` cells long.
    pub(crate) fn replace_row(&mut self, row: usize, line: Vec<Cell>)
        requires
            old(self).wf(),
            row < old(self)@.rows,
            line@.len() == old(self)@.cols,
        ensures
            final(self).wf(),
            final(self)@ == (ScreenView { grid: old(self)@.grid.update(row as int, line@), ..old(self)@ }),
    {
        let ghost l = line@;
        self.lines.set(row, line);
        proof {
            assert(self@.grid =~= old(self)@.grid.update(row as int, l));
            assert forall|r: int| 0 <= r < self@.rows implies (#[trigger] self@.grid[r]).len() == self@.cols by {
                if r != row {
                    old(self).lemma_row_len(r);
                }
            }
        }
    }

    /// Blank rows `from..to`.
    pub(crate) fn blank_row_range(&mut self, from: usize, to: usize)
        requires
            old(self).wf(),
            to <= old(self)@.rows,
        ensures
            final(self).wf(),
            final(self)@ == (ScreenView { grid: blank_rows(old(self)@.grid, old(self)@.cols, from as int, to as int), ..old(self)@ }),
    {
        let ghost g = old(self)@.grid;
        if from >= to {
            assert(blank_rows(g, self@.cols, from as int, to as int) =~= g);
            return;
        }
        let mut r = from;
        proof {
            assert(blank_rows(g, self@.cols, from as int, from as int) =~= g);
        }
        while r < to
            invariant
                from <= r <= to,
                to <= self@.rows,
                self.wf(),
                g == old(self)@.grid,
                self@.rows == old(self)@.rows,
                self@.cols == old(self)@.cols,
                self@.cursor == old(self)@.cursor,
                self@.grid == blank_rows(g, self@.cols, from as int, r as int),
            decreases to - r,
        {
            let line = blank_row(self.cols);
            self.replace_row(r, line);
            r = r + 1;
            proof {
                assert(self@.grid =~= blank_rows(g, self@.cols, from as int, r as int));
            }
        }
    }

    /// A copy of row `row`.
    pub(crate) fn row_copy(&self, row: usize) -> (v: Vec<Cell>)
        requires
            self.wf(),
            row < self@.rows,
        ensures
            v@ == self@.grid[row as int],
    {
        proof {
            self.lemma_row_len(row as int);
        }
        copy_row(&self.lines[row])
    }
}

/// Resizing keeps every cell that fits in both the old and the new size.
pub proof fn law_resize_keeps_overlap(o: ScreenView, r: nat, c: nat, row: int, col: int)
    requires
        view_wf(o),
        0 <= row < o.rows && row < r,
        0 <= col < o.cols && col < c,
    ensures
        resized(o, r, c).grid[row][col] == o.grid[row][col],
{
}

/// Growing a screen and shrinking it back to its size gives back the same
/// screen: enlarging the window loses nothing.
pub proof fn law_grow_then_shrink_restores(o: ScreenView, r: nat, c: nat)
    requires
        view_wf(o),
        r >= o.rows,
        c >= o.cols,
    ensures
        resized(resized(o, r, c), o.rows, o.cols) == o,
{
    let g = resized(o, r, c);
    let back = resized(g, o.rows, o.cols);
    if !(r == o.rows && c == o.cols) {
        assert forall|i: int| 0 <= i < o.rows implies #[trigger] back.grid[i] =~= o.grid[i] by {}
        assert(back.grid =~= o.grid);
        assert(back.cursor == o.cursor);
    }
}

} // verus!
