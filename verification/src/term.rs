//! VT/ANSI terminal emulation: the byte stream of a pane, as parsed by the
//! `vte` crate, drives a [`Screen`] grid, a scrollback, the alternate screen
//! and the title / working-directory / notification side channels.
//!
//! The parser reports what it recognised as a list of [`VtAction`]s; each
//! action is applied by a verified step function whose effect is stated over
//! [`TermView`], the mathematical state of the terminal.

use vstd::prelude::*;
use std::collections::VecDeque;
use crate::screen::{
    Cell, Color, CellFlags, Cursor, Screen, ScreenView, blank_cell, blank_grid, blank_line, blank_rows,
    blank_span, fits, min, no_flags, regrid, scrolled_down, scrolled_up, view_wf, MAX_CELLS,
};
use crate::text::{string_from_chars, str_chars};
use crate::workspace::{first_match, lemma_first_match_at};

verus! {

/// The vte parser, carried as an opaque value.
#[verifier::external_type_specification]
#[verifier::external_body]
pub struct ExVteParser<const N: usize>(vte::Parser<N>);

/// The parameters vte hands to a CSI dispatch, carried as an opaque value.
#[verifier::external_type_specification]
#[verifier::external_body]
pub struct ExVteParams(vte::Params);

/// One thing the parser recognised in the byte stream.
#[derive(Debug, Clone, PartialEq, Eq)]
pub enum VtAction {
    /// A printable character.
    Print(char),
    /// A C0 or C1 control byte.
    Execute(u8),
    /// A control sequence: its parameters (each with its sub-parameters),
    /// intermediate bytes and final character.
    Csi { params: Vec<Vec<u16>>, intermediates: Vec<u8>, ignore: bool, action: char },
    /// An escape sequence: intermediate bytes and final byte.
    Esc { intermediates: Vec<u8>, ignore: bool, byte: u8 },
    /// An operating system command: its `;`-separated fields.
    Osc { params: Vec<Vec<u8>>, bell_terminated: bool },
}

/// Collects the parser's callbacks as [`VtAction`]s, in order.
pub struct VtCollector {
    pub actions: Vec<VtAction>,
}

impl vte::Perform for VtCollector {
    #[verifier::external_body]
    fn print(&mut self, c: char) {
        self.actions.push(VtAction::Print(c));
    }

    #[verifier::external_body]
    fn execute(&mut self, byte: u8) {
        self.actions.push(VtAction::Execute(byte));
    }

    #[verifier::external_body]
    fn csi_dispatch(&mut self, params: &vte::Params, intermediates: &[u8], ignore: bool, action: char) {
        let params: Vec<Vec<u16>> = params.iter().map(|p| p.to_vec()).collect();
        let intermediates = intermediates.to_vec();
        self.actions.push(VtAction::Csi { params, intermediates, ignore, action });
    }

    #[verifier::external_body]
    fn esc_dispatch(&mut self, intermediates: &[u8], ignore: bool, byte: u8) {
        let intermediates = intermediates.to_vec();
        self.actions.push(VtAction::Esc { intermediates, ignore, byte });
    }

    #[verifier::external_body]
    fn osc_dispatch(&mut self, params: &[&[u8]], bell_terminated: bool) {
        let params: Vec<Vec<u8>> = params.iter().map(|p| p.to_vec()).collect();
        self.actions.push(VtAction::Osc { params, bell_terminated });
    }
}

/// A fresh parser (`vte::Parser::new`).
#[verifier::external_body]
fn new_parser() -> vte::Parser {
    vte::Parser::new()
}

/// The callbacks (print, execute, CSI, ESC and OSC, in order) that `vte`
/// makes for `bytes` when its parser has been fed the chunks `fed`, in
/// order, since it was made: what a chunk means may depend on the chunks
/// before it (a sequence may span calls), and on nothing else.
pub uninterp spec fn vte_actions(fed: Seq<Seq<u8>>, bytes: Seq<u8>) -> Seq<VtAction>;

/// The `vte` parser, with the chunks fed to it so far.
pub struct VtParser {
    parser: vte::Parser,
    fed: Ghost<Seq<Seq<u8>>>,
}

impl VtParser {
    /// The chunks fed to the parser since it was made, in order.
    pub closed spec fn history(&self) -> Seq<Seq<u8>> {
        self.fed@
    }

    /// A fresh parser.
    pub fn new() -> (p: VtParser)
        ensures
            p.history() == Seq::<Seq<u8>>::empty(),
    {
        VtParser { parser: new_parser(), fed: Ghost(Seq::empty()) }
    }

    /// `vte::Parser::advance` over `bytes`: the callbacks it made, in order,
    /// which are what `vte` makes for `bytes` after the chunks fed before;
    /// `bytes` joins the chunks fed.
    #[verifier::external_body]
    fn advance(&mut self, bytes: &[u8]) -> (acts: Vec<VtAction>)
        ensures
            final(self).history() == old(self).history().push(bytes@),
            acts@ == vte_actions(old(self).history(), bytes@),
    {
        let mut collector = VtCollector { actions: Vec::new() };
        self.parser.advance(&mut collector, bytes);
        collector.actions
    }
}

/// The display width `unicode_width` gives a character.
pub uninterp spec fn display_width(c: char) -> Option<usize>;

/// `UnicodeWidthChar::width`: the columns `c` occupies, `None` for a control
/// character. Its source answers printable ASCII with 1 and the C0/C1
/// control ranges with `None` before consulting its tables, whose entries
/// are bytes.
#[verifier::external_body]
fn char_width(c: char) -> (r: Option<usize>)
    ensures
        r == display_width(c),
        ('\u{20}' <= c && c < '\u{7F}') ==> r == Some(1usize),
        (c < '\u{20}' || ('\u{7F}' <= c && c < '\u{A0}')) ==> r is None,
        r matches Some(w) ==> w <= 255,
{
    unicode_width::UnicodeWidthChar::width(c)
}

/// The text `String::from_utf8_lossy` makes of some bytes.
pub uninterp spec fn utf8_lossy(b: Seq<u8>) -> Seq<char>;

/// `String::from_utf8_lossy`: the bytes as UTF-8, each invalid sequence
/// replaced by U+FFFD; valid UTF-8 is decoded as it stands.
#[verifier::external_body]
fn lossy_string(b: &[u8]) -> (s: String)
    ensures
        s@ == utf8_lossy(b@),
        vstd::utf8::valid_utf8(b@) ==> s@ == vstd::utf8::decode_utf8(b@),
{
    String::from_utf8_lossy(b).into_owned()
}

/// The text `str::to_lowercase` makes of some text.
pub uninterp spec fn lowercase_of(s: Seq<char>) -> Seq<char>;

/// `str::to_lowercase`: Unicode lowercase mapping, which may change the
/// number of characters; empty text stays empty.
#[verifier::external_body]
pub(crate) fn to_lower_text(s: &str) -> (r: String)
    ensures
        r@ == lowercase_of(s@),
        s@.len() == 0 ==> r@.len() == 0,
{
    s.to_lowercase()
}

/// The attributes applied to printed cells.
#[derive(Debug, Clone, Copy, PartialEq, Eq, Structural)]
pub struct Pen {
    pub fg: Color,
    pub bg: Color,
    pub flags: CellFlags,
}

/// Default colors, no flags.
pub open spec fn default_pen() -> Pen {
    Pen { fg: Color::Default, bg: Color::Default, flags: no_flags() }
}

fn fresh_pen() -> (p: Pen)
    ensures
        p == default_pen(),
{
    Pen { fg: Color::Default, bg: Color::Default, flags: CellFlags::default() }
}

/// A saved cursor position (DECSC / `CSI s`).
#[derive(Debug, Clone, Copy, PartialEq, Eq, Structural)]
pub struct SavedCursor {
    pub row: usize,
    pub col: usize,
}

/// Lines kept in scrollback at most.
pub const MAX_SCROLLBACK: usize = 10000;

/// The mathematical state of a terminal.
#[verifier::ext_equal]
pub struct TermView {
    pub screen: ScreenView,
    pub pen: Pen,
    pub bell: bool,
    /// Top scroll margin (0-based, inclusive).
    pub scroll_top: nat,
    /// Bottom scroll margin (0-based, inclusive).
    pub scroll_bottom: nat,
    pub saved_cursor: SavedCursor,
    pub autowrap: bool,
    /// Set after printing into the last column: the next printable
    /// character wraps first.
    pub pending_wrap: bool,
    pub alt_active: bool,
    /// The primary screen while the alternate one is shown.
    pub saved_primary: Option<ScreenView>,
    pub saved_alt_cursor: SavedCursor,
    pub title: Option<Seq<char>>,
    pub cwd: Option<Seq<char>>,
    /// (title, body) of notifications raised by OSC 9 / OSC 777.
    pub notifications: Seq<(Seq<char>, Seq<char>)>,
    /// Lines scrolled off the top of the primary screen, oldest first.
    pub scrollback: Seq<Seq<Cell>>,
}

/// The invariant of a terminal state.
pub open spec fn term_wf(v: TermView) -> bool {
    &&& view_wf(v.screen)
    &&& v.scroll_top <= v.scroll_bottom < v.screen.rows
    &&& v.alt_active == v.saved_primary is Some
    &&& (v.saved_primary matches Some(p) ==> view_wf(p) && p.rows == v.screen.rows && p.cols == v.screen.cols)
    &&& v.scrollback.len() <= MAX_SCROLLBACK
}

// ---- the step functions ------------------------------------------------

/// `v` with the cursor at `(row, col)`.
pub open spec fn at(v: TermView, row: int, col: int) -> TermView {
    TermView {
        screen: ScreenView { cursor: Cursor { row: row as usize, col: col as usize, ..v.screen.cursor }, ..v.screen },
        ..v
    }
}

/// `v` with the deferred wrap cleared.
pub open spec fn unwrapped(v: TermView) -> TermView {
    TermView { pending_wrap: false, ..v }
}

/// `v` with grid `g`.
pub open spec fn with_grid(v: TermView, g: Seq<Seq<Cell>>) -> TermView {
    TermView { screen: ScreenView { grid: g, ..v.screen }, ..v }
}

/// Scrollback `sb` with `line` appended, the oldest line dropped beyond
/// [`MAX_SCROLLBACK`].
pub open spec fn pushed_line(sb: Seq<Seq<Cell>>, line: Seq<Cell>) -> Seq<Seq<Cell>> {
    let s = sb.push(line);
    if s.len() > MAX_SCROLLBACK {
        s.drop_first()
    } else {
        s
    }
}

/// Index (line feed): down one row, or at the bottom margin scroll the
/// region up, keeping the lost top line of a full-screen primary region in
/// scrollback.
pub open spec fn spec_line_feed(v: TermView) -> TermView {
    let s = v.screen;
    if s.cursor.row == v.scroll_bottom {
        let sb = if !v.alt_active && v.scroll_top == 0 {
            pushed_line(v.scrollback, s.grid[0])
        } else {
            v.scrollback
        };
        TermView {
            screen: ScreenView { grid: scrolled_up(s.grid, s.cols, v.scroll_top as int, v.scroll_bottom as int, 1), ..s },
            scrollback: sb,
            ..v
        }
    } else if s.cursor.row + 1 < s.rows {
        at(v, s.cursor.row + 1, s.cursor.col as int)
    } else {
        v
    }
}

/// Reverse index: up one row, or at the top margin scroll the region down.
pub open spec fn spec_reverse_index(v: TermView) -> TermView {
    let s = v.screen;
    if s.cursor.row == v.scroll_top {
        with_grid(v, scrolled_down(s.grid, s.cols, v.scroll_top as int, v.scroll_bottom as int, 1))
    } else if s.cursor.row > 0 {
        at(v, s.cursor.row - 1, s.cursor.col as int)
    } else {
        v
    }
}

/// A cell showing `c` in pen `p`.
pub open spec fn pen_cell(p: Pen, c: char) -> Cell {
    Cell { c, fg: p.fg, bg: p.bg, flags: p.flags }
}

/// Write a glyph `w` columns wide at the cursor (blanking the spacer cell
/// of a wide glyph) and advance, latching a deferred wrap at the edge.
pub open spec fn put_glyph(v: TermView, c: char, w: int) -> TermView {
    let s = v.screen;
    let row = s.cursor.row as int;
    let col = s.cursor.col as int;
    let cols = s.cols as int;
    let g1 = s.grid.update(row, s.grid[row].update(col, pen_cell(v.pen, c)));
    let g2 = if w == 2 && col + 1 < cols {
        g1.update(row, g1[row].update(col + 1, pen_cell(v.pen, ' ')))
    } else {
        g1
    };
    if col + w >= cols {
        TermView {
            screen: ScreenView { grid: g2, cursor: Cursor { col: (cols - 1) as usize, ..s.cursor }, ..s },
            pending_wrap: if v.autowrap { true } else { v.pending_wrap },
            ..v
        }
    } else {
        TermView { screen: ScreenView { grid: g2, cursor: Cursor { col: (col + w) as usize, ..s.cursor }, ..s }, ..v }
    }
}

/// Print `c`, `w` columns wide: zero-width characters are dropped; a
/// deferred wrap is resolved first, and a wide glyph that cannot fit before
/// the edge wraps first (with autowrap on).
pub open spec fn spec_write_char(v: TermView, c: char, w: int) -> TermView {
    if w == 0 {
        v
    } else {
        let v1 = if v.pending_wrap {
            if v.autowrap {
                spec_line_feed(at(unwrapped(v), v.screen.cursor.row as int, 0))
            } else {
                unwrapped(v)
            }
        } else {
            v
        };
        let v2 = if w == 2 && v1.autowrap && v1.screen.cursor.col + 1 >= v1.screen.cols {
            spec_line_feed(at(v1, v1.screen.cursor.row as int, 0))
        } else {
            v1
        };
        put_glyph(v2, c, w)
    }
}

/// The width a printed character takes: 0 for control characters.
pub open spec fn print_width(c: char) -> int {
    match display_width(c) {
        Some(w) => w as int,
        None => 0,
    }
}

/// A C0 control byte.
pub open spec fn spec_execute(v: TermView, b: u8) -> TermView {
    let row = v.screen.cursor.row as int;
    let col = v.screen.cursor.col as int;
    if b == 0x0a || b == 0x0b || b == 0x0c {
        spec_line_feed(unwrapped(v))
    } else if b == 0x0d {
        at(unwrapped(v), row, 0)
    } else if b == 0x09 {
        at(unwrapped(v), row, min((col / 8 + 1) * 8, v.screen.cols - 1))
    } else if b == 0x08 {
        if col > 0 {
            at(unwrapped(v), row, col - 1)
        } else {
            unwrapped(v)
        }
    } else if b == 0x07 {
        TermView { bell: true, ..v }
    } else {
        v
    }
}

/// DECSTBM from 1-based margins (0 meaning absent): an empty or inverted
/// region is the whole screen. Homes the cursor.
pub open spec fn spec_set_scroll_region(v: TermView, top: int, bottom: int) -> TermView {
    let rows = v.screen.rows as int;
    let t0 = if top == 0 && bottom == 0 {
        0
    } else {
        min(if top < 1 { 0 } else { top - 1 }, rows - 1)
    };
    let b0 = if top == 0 && bottom == 0 {
        rows - 1
    } else if bottom == 0 {
        rows - 1
    } else {
        min(bottom - 1, rows - 1)
    };
    let (t, b) = if t0 >= b0 { (0, rows - 1) } else { (t0, b0) };
    at(TermView { scroll_top: t as nat, scroll_bottom: b as nat, pending_wrap: false, ..v }, 0, 0)
}

/// IL: `n` blank lines at the cursor row, within the scroll region.
pub open spec fn spec_insert_lines(v: TermView, n: int) -> TermView {
    let row = v.screen.cursor.row as int;
    if row < v.scroll_top || row > v.scroll_bottom {
        v
    } else {
        unwrapped(with_grid(
            v,
            scrolled_down(v.screen.grid, v.screen.cols, row, v.scroll_bottom as int, min(n, v.scroll_bottom - row + 1)),
        ))
    }
}

/// DL: delete `n` lines at the cursor row, within the scroll region.
pub open spec fn spec_delete_lines(v: TermView, n: int) -> TermView {
    let row = v.screen.cursor.row as int;
    if row < v.scroll_top || row > v.scroll_bottom {
        v
    } else {
        unwrapped(with_grid(
            v,
            scrolled_up(v.screen.grid, v.screen.cols, row, v.scroll_bottom as int, min(n, v.scroll_bottom - row + 1)),
        ))
    }
}

/// `line` with `n` blanks inserted at `col`, cells pushed past the end lost.
pub open spec fn shifted_right(line: Seq<Cell>, col: int, n: int) -> Seq<Cell> {
    Seq::new(line.len(), |c: int| if c < col { line[c] } else if c >= col + n { line[c - n] } else { blank_cell() })
}

/// `line` with `n` cells deleted at `col`, blanks filling in at the end.
pub open spec fn shifted_left(line: Seq<Cell>, col: int, n: int) -> Seq<Cell> {
    Seq::new(line.len(), |c: int| if c < col { line[c] } else if c + n < line.len() { line[c + n] } else { blank_cell() })
}

/// ICH: `n` blank cells at the cursor.
pub open spec fn spec_insert_chars(v: TermView, n: int) -> TermView {
    let row = v.screen.cursor.row as int;
    let col = v.screen.cursor.col as int;
    let k = min(n, v.screen.cols - col);
    unwrapped(with_grid(v, v.screen.grid.update(row, shifted_right(v.screen.grid[row], col, k))))
}

/// DCH: delete `n` cells at the cursor.
pub open spec fn spec_delete_chars(v: TermView, n: int) -> TermView {
    let row = v.screen.cursor.row as int;
    let col = v.screen.cursor.col as int;
    let k = min(n, v.screen.cols - col);
    unwrapped(with_grid(v, v.screen.grid.update(row, shifted_left(v.screen.grid[row], col, k))))
}

/// ECH: blank `n` cells at the cursor, in place.
pub open spec fn spec_erase_chars(v: TermView, n: int) -> TermView {
    let row = v.screen.cursor.row as int;
    let col = v.screen.cursor.col as int;
    unwrapped(with_grid(v, blank_span(v.screen.grid, row, col, min(col + n, v.screen.cols as int))))
}

/// ED: erase below (0), above (1) or all (otherwise), the cursor cell included.
pub open spec fn spec_erase_display(v: TermView, mode: u16) -> TermView {
    let s = v.screen;
    let row = s.cursor.row as int;
    let col = s.cursor.col as int;
    if mode == 0 {
        with_grid(v, blank_rows(blank_span(s.grid, row, col, s.cols as int), s.cols, row + 1, s.rows as int))
    } else if mode == 1 {
        with_grid(v, blank_span(blank_rows(s.grid, s.cols, 0, row), row, 0, col + 1))
    } else {
        with_grid(v, blank_grid(s.rows, s.cols))
    }
}

/// EL: erase to the right (0), to the left (1) or the whole line.
pub open spec fn spec_erase_line(v: TermView, mode: u16) -> TermView {
    let s = v.screen;
    let row = s.cursor.row as int;
    let col = s.cursor.col as int;
    if mode == 0 {
        with_grid(v, blank_span(s.grid, row, col, s.cols as int))
    } else if mode == 1 {
        with_grid(v, blank_span(s.grid, row, 0, col + 1))
    } else {
        with_grid(v, blank_span(s.grid, row, 0, s.cols as int))
    }
}

/// Switch to a blank alternate screen, keeping the primary one (and, for
/// `?1049`, the cursor position).
pub open spec fn spec_enter_alt(v: TermView, save_cursor: bool) -> TermView {
    if v.alt_active {
        v
    } else {
        TermView {
            saved_alt_cursor: if save_cursor {
                SavedCursor { row: v.screen.cursor.row, col: v.screen.cursor.col }
            } else {
                v.saved_alt_cursor
            },
            screen: ScreenView {
                rows: v.screen.rows,
                cols: v.screen.cols,
                grid: blank_grid(v.screen.rows, v.screen.cols),
                cursor: Cursor { row: 0, col: 0, visible: true },
            },
            saved_primary: Some(v.screen),
            alt_active: true,
            pending_wrap: false,
            ..v
        }
    }
}

/// Return to the primary screen (and, for `?1049`, the saved cursor).
pub open spec fn spec_leave_alt(v: TermView, restore_cursor: bool) -> TermView {
    if !v.alt_active {
        v
    } else {
        let s = match v.saved_primary {
            Some(p) => p,
            None => v.screen,
        };
        let s2 = if restore_cursor {
            ScreenView {
                cursor: Cursor {
                    row: min(v.saved_alt_cursor.row as int, s.rows - 1) as usize,
                    col: min(v.saved_alt_cursor.col as int, s.cols - 1) as usize,
                    ..s.cursor
                },
                ..s
            }
        } else {
            s
        };
        TermView { screen: s2, saved_primary: None, alt_active: false, pending_wrap: false, ..v }
    }
}

/// DECSC: remember the cursor position.
pub open spec fn spec_save_cursor(v: TermView) -> TermView {
    TermView { saved_cursor: SavedCursor { row: v.screen.cursor.row, col: v.screen.cursor.col }, ..v }
}

/// DECRC: return to the remembered position, pulled onto the grid.
pub open spec fn spec_restore_cursor(v: TermView) -> TermView {
    unwrapped(at(
        v,
        min(v.saved_cursor.row as int, v.screen.rows - 1),
        min(v.saved_cursor.col as int, v.screen.cols - 1),
    ))
}

/// `p` with its foreground (`fg`) or background color set to `c`.
pub open spec fn set_color(p: Pen, fg: bool, c: Color) -> Pen {
    if fg {
        Pen { fg: c, ..p }
    } else {
        Pen { bg: c, ..p }
    }
}

/// The effect of a single SGR code other than 38/48.
pub open spec fn sgr_code(p: Pen, code: u16) -> Pen {
    if code == 0 {
        default_pen()
    } else if code == 1 {
        Pen { flags: CellFlags { bold: true, ..p.flags }, ..p }
    } else if code == 3 {
        Pen { flags: CellFlags { italic: true, ..p.flags }, ..p }
    } else if code == 4 {
        Pen { flags: CellFlags { underline: true, ..p.flags }, ..p }
    } else if code == 7 {
        Pen { flags: CellFlags { inverse: true, ..p.flags }, ..p }
    } else if code == 22 {
        Pen { flags: CellFlags { bold: false, ..p.flags }, ..p }
    } else if code == 23 {
        Pen { flags: CellFlags { italic: false, ..p.flags }, ..p }
    } else if code == 24 {
        Pen { flags: CellFlags { underline: false, ..p.flags }, ..p }
    } else if code == 27 {
        Pen { flags: CellFlags { inverse: false, ..p.flags }, ..p }
    } else if 30 <= code <= 37 {
        Pen { fg: Color::Indexed((code - 30) as u8), ..p }
    } else if code == 39 {
        Pen { fg: Color::Default, ..p }
    } else if 40 <= code <= 47 {
        Pen { bg: Color::Indexed((code - 40) as u8), ..p }
    } else if code == 49 {
        Pen { bg: Color::Default, ..p }
    } else if 90 <= code <= 97 {
        Pen { fg: Color::Indexed((code - 90 + 8) as u8), ..p }
    } else if 100 <= code <= 107 {
        Pen { bg: Color::Indexed((code - 100 + 8) as u8), ..p }
    } else {
        p
    }
}

/// The SGR codes `f[i..]` applied to `p`; `38`/`48` take `5;n` (palette)
/// or `2;r;g;b` (truecolor) after them.
pub open spec fn sgr_from(p: Pen, f: Seq<u16>, i: int) -> Pen
    decreases f.len() - i,
{
    if i < 0 || i >= f.len() {
        p
    } else {
        let code = f[i];
        if code == 38 || code == 48 {
            let fg = code == 38;
            if i + 1 < f.len() && f[i + 1] == 5 && i + 2 < f.len() {
                sgr_from(set_color(p, fg, Color::Indexed(f[i + 2] as u8)), f, i + 3)
            } else if i + 1 < f.len() && f[i + 1] == 2 && i + 4 < f.len() {
                sgr_from(set_color(p, fg, Color::Rgb(f[i + 2] as u8, f[i + 3] as u8, f[i + 4] as u8)), f, i + 5)
            } else {
                sgr_from(p, f, i + 1)
            }
        } else {
            sgr_from(sgr_code(p, code), f, i + 1)
        }
    }
}

/// All parameters and sub-parameters, in order.
pub open spec fn flat_params(ps: Seq<Seq<u16>>) -> Seq<u16>
    decreases ps.len(),
{
    if ps.len() == 0 {
        Seq::empty()
    } else {
        flat_params(ps.drop_last()) + ps.last()
    }
}

/// SGR: the flattened parameters applied to the pen; none resets it.
pub open spec fn spec_sgr(v: TermView, params: Seq<Seq<u16>>) -> TermView {
    let f = flat_params(params);
    TermView { pen: if f.len() == 0 { default_pen() } else { sgr_from(v.pen, f, 0) }, ..v }
}

/// The first value of parameter `n`, if present.
pub open spec fn param_value(params: Seq<Seq<u16>>, n: int) -> Option<u16> {
    if 0 <= n < params.len() && params[n].len() > 0 {
        Some(params[n][0])
    } else {
        None
    }
}

/// The first parameter as a count: absent or zero means `d`.
pub open spec fn spec_param_or(params: Seq<Seq<u16>>, d: u16) -> u16 {
    match param_value(params, 0) {
        Some(v) => if v == 0 { d } else { v },
        None => d,
    }
}

/// Parameter `n`, absent or zero meaning `None`.
pub open spec fn spec_nth_param(params: Seq<Seq<u16>>, n: int) -> Option<u16> {
    match param_value(params, n) {
        Some(v) => if v == 0 { None } else { Some(v) },
        None => None,
    }
}

/// The first parameter verbatim, 0 when absent.
pub open spec fn spec_first_raw(params: Seq<Seq<u16>>) -> u16 {
    match param_value(params, 0) {
        Some(v) => v,
        None => 0,
    }
}

/// DEC private modes `params[i..]` set (`h`) or reset (`l`).
pub open spec fn spec_dec_modes(v: TermView, params: Seq<Seq<u16>>, set: bool, i: int) -> TermView
    decreases params.len() - i,
{
    if i < 0 || i >= params.len() {
        v
    } else {
        let v2 = match param_value(params, i) {
            Some(m) => if m == 7 {
                TermView { autowrap: set, ..v }
            } else if m == 25 {
                TermView { screen: ScreenView { cursor: Cursor { visible: set, ..v.screen.cursor }, ..v.screen }, ..v }
            } else if m == 47 || m == 1047 {
                if set {
                    spec_enter_alt(v, false)
                } else {
                    spec_leave_alt(v, false)
                }
            } else if m == 1049 {
                if set {
                    spec_enter_alt(v, true)
                } else {
                    spec_leave_alt(v, true)
                }
            } else {
                v
            },
            None => v,
        };
        spec_dec_modes(v2, params, set, i + 1)
    }
}

/// `a - b`, or 0 when `b > a`.
pub open spec fn sat_sub(a: int, b: int) -> int {
    if a > b {
        a - b
    } else {
        0
    }
}

/// A control sequence with final character `action`.
pub open spec fn spec_csi(v: TermView, params: Seq<Seq<u16>>, inter: Seq<u8>, action: char) -> TermView {
    let row = v.screen.cursor.row as int;
    let col = v.screen.cursor.col as int;
    let rows = v.screen.rows as int;
    let cols = v.screen.cols as int;
    let n = spec_param_or(params, 1) as int;
    if action == 'A' {
        at(unwrapped(v), sat_sub(row, n), col)
    } else if action == 'B' {
        at(unwrapped(v), min(row + n, rows - 1), col)
    } else if action == 'C' {
        at(unwrapped(v), row, min(col + n, cols - 1))
    } else if action == 'D' {
        at(unwrapped(v), row, sat_sub(col, n))
    } else if action == 'H' || action == 'f' {
        let r = match spec_nth_param(params, 0) {
            Some(x) => x as int,
            None => 1,
        };
        let c = match spec_nth_param(params, 1) {
            Some(x) => x as int,
            None => 1,
        };
        at(unwrapped(v), min(r - 1, rows - 1), min(c - 1, cols - 1))
    } else if action == 'J' {
        spec_erase_display(v, spec_first_raw(params))
    } else if action == 'K' {
        spec_erase_line(v, spec_first_raw(params))
    } else if action == 'L' {
        spec_insert_lines(v, n)
    } else if action == 'M' {
        spec_delete_lines(v, n)
    } else if action == '@' {
        spec_insert_chars(v, n)
    } else if action == 'P' {
        spec_delete_chars(v, n)
    } else if action == 'X' {
        spec_erase_chars(v, n)
    } else if action == 'r' {
        let t = match spec_nth_param(params, 0) {
            Some(x) => x as int,
            None => 0,
        };
        let b = match spec_nth_param(params, 1) {
            Some(x) => x as int,
            None => 0,
        };
        spec_set_scroll_region(v, t, b)
    } else if action == 's' {
        spec_save_cursor(v)
    } else if action == 'u' {
        spec_restore_cursor(v)
    } else if action == 'm' {
        spec_sgr(v, params)
    } else if (action == 'h' || action == 'l') && inter.len() > 0 && inter[0] == 0x3f {
        spec_dec_modes(v, params, action == 'h', 0)
    } else {
        v
    }
}

/// An escape sequence with final byte `b`.
pub open spec fn spec_esc(v: TermView, b: u8) -> TermView {
    if b == 0x37 {
        spec_save_cursor(v)
    } else if b == 0x38 {
        spec_restore_cursor(v)
    } else if b == 0x44 {
        spec_line_feed(unwrapped(v))
    } else if b == 0x45 {
        spec_line_feed(at(unwrapped(v), v.screen.cursor.row as int, 0))
    } else if b == 0x4d {
        spec_reverse_index(unwrapped(v))
    } else {
        v
    }
}

/// The value of a hexadecimal digit byte.
pub open spec fn hex_value(b: u8) -> Option<u32> {
    if 0x30 <= b <= 0x39 {
        Some((b - 0x30) as u32)
    } else if 0x61 <= b <= 0x66 {
        Some((b - 0x61 + 10) as u32)
    } else if 0x41 <= b <= 0x46 {
        Some((b - 0x41 + 10) as u32)
    } else {
        None
    }
}

/// `b[i..]` with each `%XX` (two hex digits) decoded to its byte.
pub open spec fn percent_from(b: Seq<u8>, i: int) -> Seq<u8>
    decreases b.len() - i,
{
    if i < 0 || i >= b.len() {
        Seq::empty()
    } else if b[i] == 0x25 && i + 2 < b.len() && hex_value(b[i + 1]) is Some && hex_value(b[i + 2]) is Some {
        seq![(hex_value(b[i + 1])->0 * 16 + hex_value(b[i + 2])->0) as u8] + percent_from(b, i + 3)
    } else {
        seq![b[i]] + percent_from(b, i + 1)
    }
}

/// The text of `s` with `%XX` escapes decoded.
pub open spec fn spec_percent_decode(s: Seq<char>) -> Seq<char> {
    utf8_lossy(percent_from(vstd::utf8::encode_utf8(s), 0))
}

/// `file://`
pub open spec fn file_scheme() -> Seq<char> {
    seq!['f', 'i', 'l', 'e', ':', '/', '/']
}


/// The path of a `file://host/path` URI, percent-decoded; `None` for another
/// scheme, a missing path or an empty result.
pub open spec fn spec_cwd_from_uri(uri: Seq<char>) -> Option<Seq<char>> {
    if uri.len() >= 7 && uri.take(7) == file_scheme() {
        let rest = uri.skip(7);
        match first_match(rest, |ch: char| ch == '/') {
            Some(k) => {
                let d = spec_percent_decode(rest.skip(k));
                if d.len() == 0 {
                    None
                } else {
                    Some(d)
                }
            },
            None => None,
        }
    } else {
        None
    }
}

/// `Notification`
pub open spec fn notification_word() -> Seq<char> {
    seq!['N', 'o', 't', 'i', 'f', 'i', 'c', 'a', 't', 'i', 'o', 'n']
}

/// `notify`
pub open spec fn notify_word() -> Seq<u8> {
    seq![0x6e, 0x6f, 0x74, 0x69, 0x66, 0x79]
}

/// An operating system command: 0/1/2 set the title, 7 the working
/// directory, 9 and 777;notify raise a notification.
pub open spec fn spec_osc(v: TermView, ps: Seq<Seq<u8>>) -> TermView {
    if ps.len() == 0 {
        v
    } else {
        let code = ps[0];
        if code == seq![0x30u8] || code == seq![0x31u8] || code == seq![0x32u8] {
            if ps.len() > 1 {
                TermView { title: Some(utf8_lossy(ps[1])), ..v }
            } else {
                v
            }
        } else if code == seq![0x37u8] {
            if ps.len() > 1 {
                match spec_cwd_from_uri(utf8_lossy(ps[1])) {
                    Some(p) => TermView { cwd: Some(p), ..v },
                    None => v,
                }
            } else {
                v
            }
        } else if code == seq![0x39u8] {
            if ps.len() > 1 && utf8_lossy(ps[1]).len() > 0 {
                TermView { notifications: v.notifications.push((notification_word(), utf8_lossy(ps[1]))), ..v }
            } else {
                v
            }
        } else if code == seq![0x37u8, 0x37u8, 0x37u8] {
            if ps.len() > 1 && ps[1] == notify_word() {
                let title = if ps.len() > 2 { utf8_lossy(ps[2]) } else { Seq::empty() };
                let body = if ps.len() > 3 { utf8_lossy(ps[3]) } else { Seq::empty() };
                TermView { notifications: v.notifications.push((title, body)), ..v }
            } else {
                v
            }
        } else {
            v
        }
    }
}

/// The parameters of a control sequence, as sequences.
pub open spec fn csi_params(p: Seq<Vec<u16>>) -> Seq<Seq<u16>> {
    p.map_values(|x: Vec<u16>| x@)
}

/// The fields of an operating system command, as sequences.
pub open spec fn osc_params(p: Seq<Vec<u8>>) -> Seq<Seq<u8>> {
    p.map_values(|x: Vec<u8>| x@)
}

/// The effect of one parser action.
pub open spec fn spec_action(v: TermView, a: VtAction) -> TermView {
    match a {
        VtAction::Print(c) => spec_write_char(v, c, print_width(c)),
        VtAction::Execute(b) => spec_execute(v, b),
        VtAction::Csi { params, intermediates, action, .. } => spec_csi(v, csi_params(params@), intermediates@, action),
        VtAction::Esc { byte, .. } => spec_esc(v, byte),
        VtAction::Osc { params, .. } => spec_osc(v, osc_params(params@)),
    }
}

/// The effect of a list of actions, in order.
pub open spec fn spec_run(v: TermView, acts: Seq<VtAction>) -> TermView
    decreases acts.len(),
{
    if acts.len() == 0 {
        v
    } else {
        spec_action(spec_run(v, acts.drop_last()), acts.last())
    }
}


/// An optional string as text.
pub open spec fn opt_text(o: Option<String>) -> Option<Seq<char>> {
    match o {
        Some(s) => Some(s@),
        None => None,
    }
}

/// The emulator state the parser's actions act on.
struct TermState {
    screen: Screen,
    pen: Pen,
    bell: bool,
    scroll_top: usize,
    scroll_bottom: usize,
    saved_cursor: SavedCursor,
    autowrap: bool,
    pending_wrap: bool,
    alt_active: bool,
    saved_primary: Option<Screen>,
    saved_alt_cursor: SavedCursor,
    title: Option<String>,
    cwd: Option<String>,
    notifications: Vec<(String, String)>,
    scrollback: VecDeque<Vec<Cell>>,
}

impl View for TermState {
    type V = TermView;

    closed spec fn view(&self) -> TermView {
        TermView {
            screen: self.screen@,
            pen: self.pen,
            bell: self.bell,
            scroll_top: self.scroll_top as nat,
            scroll_bottom: self.scroll_bottom as nat,
            saved_cursor: self.saved_cursor,
            autowrap: self.autowrap,
            pending_wrap: self.pending_wrap,
            alt_active: self.alt_active,
            saved_primary: match self.saved_primary {
                Some(p) => Some(p@),
                None => None,
            },
            saved_alt_cursor: self.saved_alt_cursor,
            title: opt_text(self.title),
            cwd: opt_text(self.cwd),
            notifications: self.notifications@.map_values(|p: (String, String)| (p.0@, p.1@)),
            scrollback: self.scrollback@.map_values(|l: Vec<Cell>| l@),
        }
    }
}

impl TermState {
    closed spec fn wf(&self) -> bool {
        &&& self.screen.wf()
        &&& (self.saved_primary matches Some(p) ==> p.wf())
        &&& term_wf(self@)
    }

    fn push_scrollback(&mut self, line: Vec<Cell>)
        requires
            old(self).wf(),
        ensures
            final(self).wf(),
            final(self)@ == (TermView { scrollback: pushed_line(old(self)@.scrollback, line@), ..old(self)@ }),
    {
        let ghost s0 = self.scrollback@.push(line);
        self.scrollback.push_back(line);
        if self.scrollback.len() > MAX_SCROLLBACK {
            self.scrollback.pop_front();
            assert(self.scrollback@ =~= s0.drop_first());
        }
        proof {
            let m = |l: Vec<Cell>| l@;
            assert(s0.map_values(m) =~= old(self).scrollback@.map_values(m).push(line@));
            if s0.len() > MAX_SCROLLBACK {
                assert(s0.drop_first().map_values(m) =~= s0.map_values(m).drop_first());
            }
            assert(self@ =~= TermView { scrollback: pushed_line(old(self)@.scrollback, line@), ..old(self)@ });
        }
    }

    fn line_feed(&mut self)
        requires
            old(self).wf(),
        ensures
            final(self).wf(),
            final(self)@ == spec_line_feed(old(self)@),
    {
        let top = self.scroll_top;
        let bottom = self.scroll_bottom;
        let cur = self.screen.cursor();
        if cur.row == bottom {
            if !self.alt_active && top == 0 {
                let line = self.screen.row_copy(0);
                self.push_scrollback(line);
            }
            self.screen.scroll_region_up(top, bottom, 1);
            proof {
                assert(self@ =~= spec_line_feed(old(self)@));
            }
        } else if cur.row + 1 < self.screen.rows() {
            self.screen.set_cursor(cur.row + 1, cur.col);
            proof {
                assert(self@ =~= spec_line_feed(old(self)@));
            }
        }
    }

    fn reverse_index(&mut self)
        requires
            old(self).wf(),
        ensures
            final(self).wf(),
            final(self)@ == spec_reverse_index(old(self)@),
    {
        let top = self.scroll_top;
        let bottom = self.scroll_bottom;
        let cur = self.screen.cursor();
        if cur.row == top {
            self.screen.scroll_region_down(top, bottom, 1);
            proof {
                assert(self@ =~= spec_reverse_index(old(self)@));
            }
        } else if cur.row > 0 {
            self.screen.set_cursor(cur.row - 1, cur.col);
            proof {
                assert(self@ =~= spec_reverse_index(old(self)@));
            }
        }
    }

    /// Move the cursor to `(row, col)`.
    fn move_to(&mut self, row: usize, col: usize)
        requires
            old(self).wf(),
            row < old(self)@.screen.rows,
            col < old(self)@.screen.cols,
        ensures
            final(self).wf(),
            final(self)@ == at(old(self)@, row as int, col as int),
    {
        self.screen.set_cursor(row, col);
        proof {
            assert(self@ =~= at(old(self)@, row as int, col as int));
        }
    }

    /// Write the glyph at the cursor and advance.
    fn put_glyph(&mut self, c: char, width: usize)
        requires
            old(self).wf(),
            1 <= width <= 255,
        ensures
            final(self).wf(),
            final(self)@ == put_glyph(old(self)@, c, width as int),
    {
        let pen = self.pen;
        let cols = self.screen.cols();
        let cur = self.screen.cursor();
        let col = cur.col;
        let row = cur.row;
        self.screen.set_cell(row, col, Cell { c, fg: pen.fg, bg: pen.bg, flags: pen.flags });
        if width == 2 && col + 1 < cols {
            self.screen.set_cell(row, col + 1, Cell { c: ' ', fg: pen.fg, bg: pen.bg, flags: pen.flags });
        }
        let new_col = col + width;
        if new_col >= cols {
            self.screen.set_cursor(row, cols - 1);
            if self.autowrap {
                self.pending_wrap = true;
            }
        } else {
            self.screen.set_cursor(row, new_col);
        }
        proof {
            assert(self@ =~= put_glyph(old(self)@, c, width as int));
        }
    }

    fn write_char(&mut self, c: char)
        requires
            old(self).wf(),
        ensures
            final(self).wf(),
            final(self)@ == spec_write_char(old(self)@, c, print_width(c)),
    {
        let width = match char_width(c) {
            Some(w) => w,
            None => 0,
        };
        if width == 0 {
            return;
        }
        if self.pending_wrap {
            self.pending_wrap = false;
            if self.autowrap {
                let row = self.screen.cursor().row;
                self.move_to(row, 0);
                self.line_feed();
            }
        }
        let cols = self.screen.cols();
        if width == 2 && self.autowrap && self.screen.cursor().col + 1 >= cols {
            let row = self.screen.cursor().row;
            self.move_to(row, 0);
            self.line_feed();
        }
        self.put_glyph(c, width);
    }

    fn execute(&mut self, byte: u8)
        requires
            old(self).wf(),
        ensures
            final(self).wf(),
            final(self)@ == spec_execute(old(self)@, byte),
    {
        let cur = self.screen.cursor();
        if byte == 0x0a || byte == 0x0b || byte == 0x0c {
            self.pending_wrap = false;
            self.line_feed();
        } else if byte == 0x0d {
            self.pending_wrap = false;
            self.move_to(cur.row, 0);
        } else if byte == 0x09 {
            self.pending_wrap = false;
            let next = (cur.col / 8 + 1) * 8;
            let cols = self.screen.cols();
            let col = if next < cols - 1 { next } else { cols - 1 };
            self.move_to(cur.row, col);
        } else if byte == 0x08 {
            self.pending_wrap = false;
            if cur.col > 0 {
                self.move_to(cur.row, cur.col - 1);
            }
        } else if byte == 0x07 {
            self.bell = true;
        }
        proof {
            assert(self@ =~= spec_execute(old(self)@, byte));
        }
    }

    fn set_scroll_region(&mut self, top: u16, bottom: u16)
        requires
            old(self).wf(),
        ensures
            final(self).wf(),
            final(self)@ == spec_set_scroll_region(old(self)@, top as int, bottom as int),
    {
        let rows = self.screen.rows();
        let (t0, b0): (usize, usize) = if top == 0 && bottom == 0 {
            (0, rows - 1)
        } else {
            let t1: usize = if top < 1 { 0 } else { (top - 1) as usize };
            let t = if t1 < rows - 1 { t1 } else { rows - 1 };
            let b = if bottom == 0 {
                rows - 1
            } else {
                let b1: usize = (bottom - 1) as usize;
                if b1 < rows - 1 { b1 } else { rows - 1 }
            };
            (t, b)
        };
        let (t, b) = if t0 >= b0 { (0, rows - 1) } else { (t0, b0) };
        self.scroll_top = t;
        self.scroll_bottom = b;
        self.pending_wrap = false;
        self.screen.set_cursor(0, 0);
        proof {
            assert(self@ =~= spec_set_scroll_region(old(self)@, top as int, bottom as int));
        }
    }

    fn insert_lines(&mut self, n: usize)
        requires
            old(self).wf(),
        ensures
            final(self).wf(),
            final(self)@ == spec_insert_lines(old(self)@, n as int),
    {
        let row = self.screen.cursor().row;
        if row < self.scroll_top || row > self.scroll_bottom {
            return;
        }
        let bottom = self.scroll_bottom;
        self.screen.scroll_region_down(row, bottom, n);
        self.pending_wrap = false;
        proof {
            assert(self@ =~= spec_insert_lines(old(self)@, n as int));
        }
    }

    fn delete_lines(&mut self, n: usize)
        requires
            old(self).wf(),
        ensures
            final(self).wf(),
            final(self)@ == spec_delete_lines(old(self)@, n as int),
    {
        let row = self.screen.cursor().row;
        if row < self.scroll_top || row > self.scroll_bottom {
            return;
        }
        let bottom = self.scroll_bottom;
        self.screen.scroll_region_up(row, bottom, n);
        self.pending_wrap = false;
        proof {
            assert(self@ =~= spec_delete_lines(old(self)@, n as int));
        }
    }

    /// Rebuild the cursor row shifted right (`right`) or left by `n` cells
    /// from the cursor column.
    fn shift_cursor_row(&mut self, n: usize, right: bool)
        requires
            old(self).wf(),
        ensures
            final(self).wf(),
            final(self)@ == (if right {
                spec_insert_chars(old(self)@, n as int)
            } else {
                spec_delete_chars(old(self)@, n as int)
            }),
    {
        let cols = self.screen.cols();
        let cur = self.screen.cursor();
        let row = cur.row;
        let col = cur.col;
        let k = if n < cols - col { n } else { cols - col };
        let line = self.screen.row(row);
        let ghost target = if right {
            shifted_right(line@, col as int, k as int)
        } else {
            shifted_left(line@, col as int, k as int)
        };
        let mut out: Vec<Cell> = Vec::new();
        let mut c: usize = 0;
        while c < cols
            invariant
                c <= cols,
                cols <= MAX_CELLS,
                cols == line@.len(),
                col < cols,
                k <= cols - col,
                target == (if right {
                    shifted_right(line@, col as int, k as int)
                } else {
                    shifted_left(line@, col as int, k as int)
                }),
                out@ == target.take(c as int),
            decreases cols - c,
        {
            let cell = if c < col {
                line[c]
            } else if right {
                if c >= col + k {
                    line[c - k]
                } else {
                    Cell::default()
                }
            } else {
                if c + k < cols {
                    line[c + k]
                } else {
                    Cell::default()
                }
            };
            out.push(cell);
            c = c + 1;
            assert(out@ =~= target.take(c as int));
        }
        assert(target.take(cols as int) =~= target);
        self.screen.replace_row(row, out);
        self.pending_wrap = false;
        proof {
            if right {
                assert(self@ =~= spec_insert_chars(old(self)@, n as int));
            } else {
                assert(self@ =~= spec_delete_chars(old(self)@, n as int));
            }
        }
    }

    fn erase_chars(&mut self, n: usize)
        requires
            old(self).wf(),
        ensures
            final(self).wf(),
            final(self)@ == spec_erase_chars(old(self)@, n as int),
    {
        let cols = self.screen.cols();
        let cur = self.screen.cursor();
        let end = if n < cols - cur.col { cur.col + n } else { cols };
        self.screen.blank_cells(cur.row, cur.col, end);
        self.pending_wrap = false;
        proof {
            assert(self@ =~= spec_erase_chars(old(self)@, n as int));
        }
    }

    fn enter_alt_screen(&mut self, save_cursor: bool)
        requires
            old(self).wf(),
        ensures
            final(self).wf(),
            final(self)@ == spec_enter_alt(old(self)@, save_cursor),
    {
        if self.alt_active {
            return;
        }
        let cur = self.screen.cursor();
        if save_cursor {
            self.saved_alt_cursor = SavedCursor { row: cur.row, col: cur.col };
        }
        let rows = self.screen.rows();
        let cols = self.screen.cols();
        let mut primary = Screen::new(rows, cols);
        std::mem::swap(&mut primary, &mut self.screen);
        self.saved_primary = Some(primary);
        self.alt_active = true;
        self.pending_wrap = false;
        proof {
            assert(self@ =~= spec_enter_alt(old(self)@, save_cursor));
        }
    }

    fn leave_alt_screen(&mut self, restore_cursor: bool)
        requires
            old(self).wf(),
        ensures
            final(self).wf(),
            final(self)@ == spec_leave_alt(old(self)@, restore_cursor),
    {
        if !self.alt_active {
            return;
        }
        let saved = self.saved_primary.take();
        match saved {
            Some(primary) => {
                self.screen = primary;
            },
            None => {},
        }
        if restore_cursor {
            let rows = self.screen.rows();
            let cols = self.screen.cols();
            let r = if self.saved_alt_cursor.row < rows - 1 { self.saved_alt_cursor.row } else { rows - 1 };
            let c = if self.saved_alt_cursor.col < cols - 1 { self.saved_alt_cursor.col } else { cols - 1 };
            self.screen.set_cursor(r, c);
        }
        self.alt_active = false;
        self.pending_wrap = false;
        proof {
            assert(self@ =~= spec_leave_alt(old(self)@, restore_cursor));
        }
    }

    fn save_cursor(&mut self)
        requires
            old(self).wf(),
        ensures
            final(self).wf(),
            final(self)@ == spec_save_cursor(old(self)@),
    {
        let cur = self.screen.cursor();
        self.saved_cursor = SavedCursor { row: cur.row, col: cur.col };
        proof {
            assert(self@ =~= spec_save_cursor(old(self)@));
        }
    }

    fn restore_cursor(&mut self)
        requires
            old(self).wf(),
        ensures
            final(self).wf(),
            final(self)@ == spec_restore_cursor(old(self)@),
    {
        let rows = self.screen.rows();
        let cols = self.screen.cols();
        let r = if self.saved_cursor.row < rows - 1 { self.saved_cursor.row } else { rows - 1 };
        let c = if self.saved_cursor.col < cols - 1 { self.saved_cursor.col } else { cols - 1 };
        self.screen.set_cursor(r, c);
        self.pending_wrap = false;
        proof {
            assert(self@ =~= spec_restore_cursor(old(self)@));
        }
    }

    fn erase_display(&mut self, mode: u16)
        requires
            old(self).wf(),
        ensures
            final(self).wf(),
            final(self)@ == spec_erase_display(old(self)@, mode),
    {
        let rows = self.screen.rows();
        let cols = self.screen.cols();
        let cur = self.screen.cursor();
        if mode == 0 {
            self.screen.blank_cells(cur.row, cur.col, cols);
            self.screen.blank_row_range(cur.row + 1, rows);
        } else if mode == 1 {
            self.screen.blank_row_range(0, cur.row);
            self.screen.blank_cells(cur.row, 0, cur.col + 1);
        } else {
            self.screen.blank_row_range(0, rows);
            proof {
                assert(blank_rows(old(self)@.screen.grid, old(self)@.screen.cols, 0, rows as int) =~= blank_grid(
                    old(self)@.screen.rows,
                    old(self)@.screen.cols,
                ));
            }
        }
        proof {
            assert(self@ =~= spec_erase_display(old(self)@, mode));
        }
    }

    fn erase_line(&mut self, mode: u16)
        requires
            old(self).wf(),
        ensures
            final(self).wf(),
            final(self)@ == spec_erase_line(old(self)@, mode),
    {
        let cols = self.screen.cols();
        let cur = self.screen.cursor();
        if mode == 0 {
            self.screen.blank_cells(cur.row, cur.col, cols);
        } else if mode == 1 {
            self.screen.blank_cells(cur.row, 0, cur.col + 1);
        } else {
            self.screen.blank_cells(cur.row, 0, cols);
        }
        proof {
            assert(self@ =~= spec_erase_line(old(self)@, mode));
        }
    }

    fn apply_sgr(&mut self, params: &Vec<Vec<u16>>)
        requires
            old(self).wf(),
        ensures
            final(self).wf(),
            final(self)@ == spec_sgr(old(self)@, csi_params(params@)),
    {
        let ghost ps = csi_params(params@);
        let mut flat: Vec<u16> = Vec::new();
        let mut k: usize = 0;
        while k < params.len()
            invariant
                k <= params@.len(),
                ps == csi_params(params@),
                flat@ == flat_params(ps.take(k as int)),
            decreases params@.len() - k,
        {
            let mut i: usize = 0;
            let ghost before = flat@;
            while i < params[k].len()
                invariant
                    k < params@.len(),
                    i <= params@[k as int]@.len(),
                    flat@ == before + params@[k as int]@.take(i as int),
                decreases params@[k as int]@.len() - i,
            {
                flat.push(params[k][i]);
                i = i + 1;
                assert(flat@ =~= before + params@[k as int]@.take(i as int));
            }
            proof {
                assert(params@[k as int]@.take(i as int) =~= params@[k as int]@);
                assert(ps.take(k + 1).drop_last() =~= ps.take(k as int));
            }
            k = k + 1;
        }
        proof {
            assert(ps.take(k as int) =~= ps);
        }
        if flat.len() == 0 {
            self.pen = fresh_pen();
            proof {
                assert(self@ =~= spec_sgr(old(self)@, ps));
            }
            return;
        }
        let mut pen = self.pen;
        let mut i: usize = 0;
        while i < flat.len()
            invariant
                i <= flat@.len() + 4,
                flat@ == flat_params(ps),
                sgr_from(pen, flat@, i as int) == sgr_from(old(self).pen, flat@, 0),
            decreases flat@.len() - i,
        {
            let code = flat[i];
            if code == 38 || code == 48 {
                let fg = code == 38;
                if i + 1 < flat.len() && flat[i + 1] == 5 && flat.len() - i > 2 {
                    let c = Color::Indexed(flat[i + 2] as u8);
                    pen = if fg { Pen { fg: c, ..pen } } else { Pen { bg: c, ..pen } };
                    i = i + 3;
                } else if i + 1 < flat.len() && flat[i + 1] == 2 && flat.len() - i > 4 {
                    let c = Color::Rgb(flat[i + 2] as u8, flat[i + 3] as u8, flat[i + 4] as u8);
                    pen = if fg { Pen { fg: c, ..pen } } else { Pen { bg: c, ..pen } };
                    i = i + 5;
                } else {
                    i = i + 1;
                }
            } else {
                pen = sgr_step(pen, code);
                i = i + 1;
            }
        }
        self.pen = pen;
        proof {
            assert(self@ =~= spec_sgr(old(self)@, ps));
        }
    }

    /// Set (`h`) or reset (`l`) the DEC private modes listed in `params`.
    fn dec_modes(&mut self, params: &Vec<Vec<u16>>, set: bool)
        requires
            old(self).wf(),
        ensures
            final(self).wf(),
            final(self)@ == spec_dec_modes(old(self)@, csi_params(params@), set, 0),
    {
        let ghost ps = csi_params(params@);
        let mut i: usize = 0;
        while i < params.len()
            invariant
                i <= params@.len(),
                ps == csi_params(params@),
                self.wf(),
                spec_dec_modes(self@, ps, set, i as int) == spec_dec_modes(old(self)@, ps, set, 0),
            decreases params@.len() - i,
        {
            let m = first_of(&params[i]);
            assert(m == param_value(ps, i as int));
            match m {
                Some(7) => {
                    self.autowrap = set;
                },
                Some(25) => {
                    self.screen.set_cursor_visible(set);
                },
                Some(47) | Some(1047) => {
                    if set {
                        self.enter_alt_screen(false);
                    } else {
                        self.leave_alt_screen(false);
                    }
                },
                Some(1049) => {
                    if set {
                        self.enter_alt_screen(true);
                    } else {
                        self.leave_alt_screen(true);
                    }
                },
                _ => {},
            }
            i = i + 1;
        }
    }

    fn csi_dispatch(&mut self, params: &Vec<Vec<u16>>, intermediates: &Vec<u8>, action: char)
        requires
            old(self).wf(),
        ensures
            final(self).wf(),
            final(self)@ == spec_csi(old(self)@, csi_params(params@), intermediates@, action),
    {
        let ghost ps = csi_params(params@);
        let rows = self.screen.rows();
        let cols = self.screen.cols();
        let cur = self.screen.cursor();
        let n = param_or(params, 1) as usize;
        if action == 'A' {
            self.pending_wrap = false;
            let r = if cur.row > n { cur.row - n } else { 0 };
            self.move_to(r, cur.col);
        } else if action == 'B' {
            self.pending_wrap = false;
            let r = if cur.row + n < rows - 1 { cur.row + n } else { rows - 1 };
            self.move_to(r, cur.col);
        } else if action == 'C' {
            self.pending_wrap = false;
            let c = if cur.col + n < cols - 1 { cur.col + n } else { cols - 1 };
            self.move_to(cur.row, c);
        } else if action == 'D' {
            self.pending_wrap = false;
            let c = if cur.col > n { cur.col - n } else { 0 };
            self.move_to(cur.row, c);
        } else if action == 'H' || action == 'f' {
            self.pending_wrap = false;
            let r = match nth_param(params, 0) {
                Some(x) => x as usize,
                None => 1,
            } - 1;
            let c = match nth_param(params, 1) {
                Some(x) => x as usize,
                None => 1,
            } - 1;
            let r = if r < rows - 1 { r } else { rows - 1 };
            let c = if c < cols - 1 { c } else { cols - 1 };
            self.move_to(r, c);
        } else if action == 'J' {
            self.erase_display(first_param_raw(params));
        } else if action == 'K' {
            self.erase_line(first_param_raw(params));
        } else if action == 'L' {
            self.insert_lines(n);
        } else if action == 'M' {
            self.delete_lines(n);
        } else if action == '@' {
            self.shift_cursor_row(n, true);
        } else if action == 'P' {
            self.shift_cursor_row(n, false);
        } else if action == 'X' {
            self.erase_chars(n);
        } else if action == 'r' {
            let t = match nth_param(params, 0) {
                Some(x) => x,
                None => 0,
            };
            let b = match nth_param(params, 1) {
                Some(x) => x,
                None => 0,
            };
            self.set_scroll_region(t, b);
        } else if action == 's' {
            self.save_cursor();
        } else if action == 'u' {
            self.restore_cursor();
        } else if action == 'm' {
            self.apply_sgr(params);
        } else if (action == 'h' || action == 'l') && intermediates.len() > 0 && intermediates[0] == 0x3f {
            self.dec_modes(params, action == 'h');
        }
        proof {
            if action == 'A' || action == 'B' || action == 'C' || action == 'D' || action == 'H' || action == 'f' {
                assert(self@ =~= spec_csi(old(self)@, ps, intermediates@, action));
            }
        }
    }

    fn esc_dispatch(&mut self, byte: u8)
        requires
            old(self).wf(),
        ensures
            final(self).wf(),
            final(self)@ == spec_esc(old(self)@, byte),
    {
        if byte == 0x37 {
            self.save_cursor();
        } else if byte == 0x38 {
            self.restore_cursor();
        } else if byte == 0x44 {
            self.pending_wrap = false;
            self.line_feed();
        } else if byte == 0x45 {
            self.pending_wrap = false;
            let row = self.screen.cursor().row;
            self.move_to(row, 0);
            self.line_feed();
        } else if byte == 0x4d {
            self.pending_wrap = false;
            self.reverse_index();
        }
    }

    fn push_notification(&mut self, title: String, body: String)
        requires
            old(self).wf(),
        ensures
            final(self).wf(),
            final(self)@ == (TermView { notifications: old(self)@.notifications.push((title@, body@)), ..old(self)@ }),
    {
        let ghost t = title@;
        let ghost b = body@;
        self.notifications.push((title, body));
        proof {
            let m = |p: (String, String)| (p.0@, p.1@);
            assert(self.notifications@.map_values(m) =~= old(self).notifications@.map_values(m).push((t, b)));
            assert(self@ =~= TermView { notifications: old(self)@.notifications.push((t, b)), ..old(self)@ });
        }
    }

    fn osc_dispatch(&mut self, params: &Vec<Vec<u8>>)
        requires
            old(self).wf(),
        ensures
            final(self).wf(),
            final(self)@ == spec_osc(old(self)@, osc_params(params@)),
    {
        let ghost ps = osc_params(params@);
        if params.len() == 0 {
            return;
        }
        assert(ps[0] == params@[0]@);
        assert(seq![0x30u8, 0u8, 0u8].take(1) =~= seq![0x30u8]);
        assert(seq![0x31u8, 0u8, 0u8].take(1) =~= seq![0x31u8]);
        assert(seq![0x32u8, 0u8, 0u8].take(1) =~= seq![0x32u8]);
        assert(seq![0x37u8, 0u8, 0u8].take(1) =~= seq![0x37u8]);
        assert(seq![0x39u8, 0u8, 0u8].take(1) =~= seq![0x39u8]);
        assert(seq![0x37u8, 0x37u8, 0x37u8].take(3) =~= seq![0x37u8, 0x37u8, 0x37u8]);
        let code = &params[0];
        if bytes_are(code, 0x30, 0, 0, 1) || bytes_are(code, 0x31, 0, 0, 1) || bytes_are(code, 0x32, 0, 0, 1) {
            if params.len() > 1 {
                self.title = Some(lossy_string(params[1].as_slice()));
                proof {
                    assert(self@ =~= spec_osc(old(self)@, ps));
                }
            }
        } else if bytes_are(code, 0x37, 0, 0, 1) {
            if params.len() > 1 {
                let uri = lossy_string(params[1].as_slice());
                match cwd_from_file_uri(uri.as_str()) {
                    Some(p) => {
                        self.cwd = Some(p);
                        proof {
                            assert(self@ =~= spec_osc(old(self)@, ps));
                        }
                    },
                    None => {},
                }
            }
        } else if bytes_are(code, 0x39, 0, 0, 1) {
            if params.len() > 1 {
                let body = lossy_string(params[1].as_slice());
                if !body.as_str().is_empty() {
                    let title = "Notification".to_owned();
                    proof {
                        reveal_strlit("Notification");
                        assert(title@ =~= notification_word());
                    }
                    self.push_notification(title, body);
                }
            }
        } else if bytes_are(code, 0x37, 0x37, 0x37, 3) {
            if params.len() > 1 && is_notify(&params[1]) {
                let title = if params.len() > 2 {
                    lossy_string(params[2].as_slice())
                } else {
                    String::new()
                };
                let body = if params.len() > 3 {
                    lossy_string(params[3].as_slice())
                } else {
                    String::new()
                };
                self.push_notification(title, body);
            }
        }
    }

    fn apply_action(&mut self, a: &VtAction)
        requires
            old(self).wf(),
        ensures
            final(self).wf(),
            final(self)@ == spec_action(old(self)@, *a),
    {
        match a {
            VtAction::Print(c) => self.write_char(*c),
            VtAction::Execute(b) => self.execute(*b),
            VtAction::Csi { params, intermediates, action, .. } => self.csi_dispatch(params, intermediates, *action),
            VtAction::Esc { byte, .. } => self.esc_dispatch(*byte),
            VtAction::Osc { params, .. } => self.osc_dispatch(params),
        }
    }
}


/// The first value of a parameter, if any.
fn first_of(p: &Vec<u16>) -> (r: Option<u16>)
    ensures
        r == (if p@.len() > 0 { Some(p@[0]) } else { None::<u16> }),
{
    if p.len() > 0 {
        Some(p[0])
    } else {
        None
    }
}

/// The first parameter as a count, absent or zero meaning `default`.
fn param_or(params: &Vec<Vec<u16>>, default: u16) -> (r: u16)
    ensures
        r == spec_param_or(csi_params(params@), default),
{
    if params.len() == 0 {
        return default;
    }
    match first_of(&params[0]) {
        Some(0) | None => default,
        Some(v) => v,
    }
}

/// Parameter `n`, absent or zero meaning `None`.
fn nth_param(params: &Vec<Vec<u16>>, n: usize) -> (r: Option<u16>)
    ensures
        r == spec_nth_param(csi_params(params@), n as int),
{
    if n >= params.len() {
        return None;
    }
    match first_of(&params[n]) {
        Some(0) | None => None,
        Some(v) => Some(v),
    }
}

/// The first parameter verbatim, 0 when absent.
fn first_param_raw(params: &Vec<Vec<u16>>) -> (r: u16)
    ensures
        r == spec_first_raw(csi_params(params@)),
{
    if params.len() == 0 {
        return 0;
    }
    match first_of(&params[0]) {
        Some(v) => v,
        None => 0,
    }
}

/// The pen after one SGR code other than 38/48.
fn sgr_step(p: Pen, code: u16) -> (r: Pen)
    ensures
        r == sgr_code(p, code),
{
    let mut p = p;
    if code == 0 {
        p = fresh_pen();
    } else if code == 1 {
        p.flags.bold = true;
    } else if code == 3 {
        p.flags.italic = true;
    } else if code == 4 {
        p.flags.underline = true;
    } else if code == 7 {
        p.flags.inverse = true;
    } else if code == 22 {
        p.flags.bold = false;
    } else if code == 23 {
        p.flags.italic = false;
    } else if code == 24 {
        p.flags.underline = false;
    } else if code == 27 {
        p.flags.inverse = false;
    } else if 30 <= code && code <= 37 {
        p.fg = Color::Indexed((code - 30) as u8);
    } else if code == 39 {
        p.fg = Color::Default;
    } else if 40 <= code && code <= 47 {
        p.bg = Color::Indexed((code - 40) as u8);
    } else if code == 49 {
        p.bg = Color::Default;
    } else if 90 <= code && code <= 97 {
        p.fg = Color::Indexed((code - 90 + 8) as u8);
    } else if 100 <= code && code <= 107 {
        p.bg = Color::Indexed((code - 100 + 8) as u8);
    }
    p
}

/// Whether `v` holds exactly the first `n` (1 to 3) of `a`, `b`, `c`.
fn bytes_are(v: &Vec<u8>, a: u8, b: u8, c: u8, n: usize) -> (r: bool)
    requires
        1 <= n <= 3,
    ensures
        r == (v@ == seq![a, b, c].take(n as int)),
{
    let r = v.len() == n && v[0] == a && (n < 2 || v[1] == b) && (n < 3 || v[2] == c);
    proof {
        if r {
            assert(v@ =~= seq![a, b, c].take(n as int));
        }
    }
    r
}

/// Whether `v` holds the bytes of `notify`.
fn is_notify(v: &Vec<u8>) -> (r: bool)
    ensures
        r == (v@ == notify_word()),
{
    let r = v.len() == 6 && v[0] == 0x6e && v[1] == 0x6f && v[2] == 0x74 && v[3] == 0x69 && v[4] == 0x66 && v[5] == 0x79;
    proof {
        if r {
            assert(v@ =~= notify_word());
        }
    }
    r
}

/// The value of a hexadecimal digit byte (`char::to_digit(16)`).
fn hex_digit(b: u8) -> (r: Option<u32>)
    ensures
        r == hex_value(b),
{
    if 0x30 <= b && b <= 0x39 {
        Some((b - 0x30) as u32)
    } else if 0x61 <= b && b <= 0x66 {
        Some((b - 0x61 + 10) as u32)
    } else if 0x41 <= b && b <= 0x46 {
        Some((b - 0x41 + 10) as u32)
    } else {
        None
    }
}

/// Minimal `%XX` percent-decoding of an OSC 7 path.
fn percent_decode(s: &str) -> (r: String)
    ensures
        r@ == spec_percent_decode(s@),
{
    let b = s.as_bytes();
    let ghost bs = b@;
    let mut out: Vec<u8> = Vec::new();
    let mut i: usize = 0;
    while i < b.len()
        invariant
            i <= b@.len(),
            bs == b@,
            out@ + percent_from(bs, i as int) == percent_from(bs, 0),
        decreases b@.len() - i,
    {
        if b[i] == 0x25 && b.len() - i > 2 {
            let hi = hex_digit(b[i + 1]);
            let lo = hex_digit(b[i + 2]);
            match (hi, lo) {
                (Some(h), Some(l)) => {
                    let ghost rest = percent_from(bs, i + 3);
                    out.push((h * 16 + l) as u8);
                    assert(out@ + rest =~= out@.drop_last() + percent_from(bs, i as int));
                    i = i + 3;
                    continue;
                },
                _ => {},
            }
        }
        let ghost rest = percent_from(bs, i + 1);
        out.push(b[i]);
        assert(out@ + rest =~= out@.drop_last() + percent_from(bs, i as int));
        i = i + 1;
    }
    assert(out@ =~= percent_from(bs, 0));
    lossy_string(out.as_slice())
}

/// The path of an OSC 7 `file://host/path` URI, percent-decoded; `None` for
/// another scheme, no path or an empty result.
fn cwd_from_file_uri(uri: &str) -> (r: Option<String>)
    ensures
        opt_text(r) == spec_cwd_from_uri(uri@),
{
    let chars = str_chars(uri);
    let ghost u = uri@;
    let scheme = ['f', 'i', 'l', 'e', ':', '/', '/'];
    if chars.len() < 7 {
        return None;
    }
    let mut i: usize = 0;
    while i < 7
        invariant
            i <= 7,
            chars@ == u,
            u == uri@,
            chars@.len() >= 7,
            scheme@ == file_scheme(),
            forall|j: int| 0 <= j < i ==> chars@[j] == scheme@[j],
        decreases 7 - i,
    {
        if chars[i] != scheme[i] {
            assert(chars@.take(7)[i as int] != file_scheme()[i as int]);
            return None;
        }
        i = i + 1;
    }
    assert(chars@.take(7) =~= file_scheme());
    let ghost rest = chars@.skip(7);
    let mut k: usize = 7;
    while k < chars.len()
        invariant
            7 <= k <= chars@.len(),
            rest == chars@.skip(7),
            forall|j: int| 0 <= j < k - 7 ==> !(|ch: char| ch == '/')(#[trigger] rest[j]),
        ensures
            7 <= k <= chars@.len(),
            forall|j: int| 0 <= j < k - 7 ==> !(|ch: char| ch == '/')(#[trigger] rest[j]),
            k == chars@.len() || rest[k - 7] == '/',
        decreases chars@.len() - k,
    {
        if chars[k] == '/' {
            break;
        }
        k = k + 1;
    }
    proof {
        lemma_first_match_at(rest, |ch: char| ch == '/', k - 7);
    }
    if k == chars.len() {
        return None;
    }
    let mut tail: Vec<char> = Vec::new();
    let mut j = k;
    while j < chars.len()
        invariant
            k <= j <= chars@.len(),
            tail@ == chars@.subrange(k as int, j as int),
        decreases chars@.len() - j,
    {
        tail.push(chars[j]);
        j = j + 1;
        assert(tail@ =~= chars@.subrange(k as int, j as int));
    }
    let path = string_from_chars(tail.as_slice());
    assert(path@ =~= rest.skip(k - 7));
    let decoded = percent_decode(path.as_str());
    if decoded.as_str().is_empty() {
        None
    } else {
        Some(decoded)
    }
}

/// A search hit: a line (0 = oldest scrollback line, then the screen rows)
/// and a character column.
#[derive(Debug, Clone, Copy, PartialEq, Eq, Structural)]
pub struct Match {
    pub line: usize,
    pub col: usize,
}

/// The characters of a row of cells.
pub open spec fn line_text(l: Seq<Cell>) -> Seq<char> {
    l.map_values(|c: Cell| c.c)
}

/// Start positions `s..` (ascending) where `needle` occurs in `hay`; none
/// for an empty needle.
pub open spec fn hits_from(hay: Seq<char>, needle: Seq<char>, s: int) -> Seq<int>
    decreases hay.len() - s,
{
    if needle.len() == 0 || s < 0 || s + needle.len() > hay.len() {
        Seq::empty()
    } else {
        (if hay.subrange(s, s + needle.len()) == needle {
            seq![s]
        } else {
            Seq::<int>::empty()
        }) + hits_from(hay, needle, s + 1)
    }
}

/// The hits of `needle` in line number `line`, whose lowercased text is `hay`.
pub open spec fn line_hits(line: int, hay: Seq<char>, needle: Seq<char>) -> Seq<Match> {
    hits_from(hay, needle, 0).map_values(|c: int| Match { line: line as usize, col: c as usize })
}

/// The hits of `needle` in `lines` (each lowercased), line by line.
pub open spec fn search_lines(lines: Seq<Seq<Cell>>, needle: Seq<char>) -> Seq<Match>
    decreases lines.len(),
{
    if lines.len() == 0 {
        Seq::empty()
    } else {
        search_lines(lines.drop_last(), needle) + line_hits(
            lines.len() - 1,
            lowercase_of(line_text(lines.last())),
            needle,
        )
    }
}

/// Case-insensitive search of scrollback then screen.
pub open spec fn spec_search(v: TermView, query: Seq<char>) -> Seq<Match> {
    if query.len() == 0 {
        Seq::empty()
    } else {
        search_lines(v.scrollback + v.screen.grid, lowercase_of(query))
    }
}

/// `line` cut or padded with blanks to `cols` cells.
pub open spec fn fit_line(line: Seq<Cell>, cols: nat) -> Seq<Cell> {
    Seq::new(cols, |c: int| if c < line.len() { line[c] } else { blank_cell() })
}

/// The screen-high window of scrollback + screen ending `offset` lines (at
/// most the scrollback) above the bottom, padded with blank rows.
pub open spec fn spec_viewport(v: TermView, offset: int) -> Seq<Seq<Cell>> {
    let sb = v.scrollback;
    let rows = v.screen.rows as int;
    let cols = v.screen.cols;
    let off = min(offset, sb.len() as int);
    let end = sb.len() + rows - off;
    let start = sat_sub(end, rows);
    Seq::new(
        rows as nat,
        |k: int| {
            let i = start + k;
            if i < end {
                if i < sb.len() {
                    fit_line(sb[i], cols)
                } else {
                    v.screen.grid[i - sb.len()]
                }
            } else {
                blank_line(cols)
            }
        },
    )
}

/// The characters of `row` from column `c`, a double-width glyph skipping
/// its spacer cell.
pub open spec fn row_glyphs(row: Seq<Cell>, c: int) -> Seq<char>
    decreases row.len() + 1 - c,
{
    if c < 0 || c >= row.len() {
        Seq::empty()
    } else {
        seq![row[c].c] + row_glyphs(row, c + if display_width(row[c].c) == Some(2usize) { 2int } else { 1int })
    }
}

/// `s` without its trailing spaces.
pub open spec fn trim_spaces_end(s: Seq<char>) -> Seq<char>
    decreases s.len(),
{
    if s.len() > 0 && s.last() == ' ' {
        trim_spaces_end(s.drop_last())
    } else {
        s
    }
}

/// Rows `0..k` rendered, one line each, joined by newlines.
pub open spec fn render_rows(g: Seq<Seq<Cell>>, k: int) -> Seq<char>
    decreases k,
{
    if k <= 0 {
        Seq::empty()
    } else {
        let line = trim_spaces_end(row_glyphs(g[k - 1], 0));
        if k == 1 {
            line
        } else {
            render_rows(g, k - 1) + seq!['\n'] + line
        }
    }
}

/// A fresh terminal of `rows` x `cols`.
pub open spec fn initial_view(rows: nat, cols: nat) -> TermView {
    TermView {
        screen: ScreenView { rows, cols, grid: blank_grid(rows, cols), cursor: Cursor { row: 0, col: 0, visible: true } },
        pen: default_pen(),
        bell: false,
        scroll_top: 0,
        scroll_bottom: (rows - 1) as nat,
        saved_cursor: SavedCursor { row: 0, col: 0 },
        autowrap: true,
        pending_wrap: false,
        alt_active: false,
        saved_primary: None,
        saved_alt_cursor: SavedCursor { row: 0, col: 0 },
        title: None,
        cwd: None,
        notifications: Seq::empty(),
        scrollback: Seq::empty(),
    }
}

/// A terminal emulator: the vte parser and the state its output drives.
pub struct Terminal {
    parser: VtParser,
    state: TermState,
}

impl View for Terminal {
    type V = TermView;

    closed spec fn view(&self) -> TermView {
        self.state@
    }
}

/// Starts of `needle` in `hay`, ascending.
fn find_all(hay: &Vec<char>, needle: &Vec<char>) -> (v: Vec<usize>)
    ensures
        v@.map_values(|x: usize| x as int) == hits_from(hay@, needle@, 0),
{
    let mut out: Vec<usize> = Vec::new();
    if needle.len() == 0 || needle.len() > hay.len() {
        return out;
    }
    let n = needle.len();
    let hl = hay.len();
    let last = hl - n;
    let mut s: usize = 0;
    while s <= last
        invariant
            n == needle@.len(),
            n > 0,
            hl == hay@.len(),
            last == hay@.len() - n,
            s <= last + 1,
            out@.map_values(|x: usize| x as int) + hits_from(hay@, needle@, s as int) == hits_from(hay@, needle@, 0),
        decreases last + 1 - s,
    {
        let mut j: usize = 0;
        let mut eq = true;
        while j < n
            invariant
                j <= n,
                n == needle@.len(),
                hl == hay@.len(),
                s + n <= hay@.len(),
                eq == (forall|t: int| 0 <= t < j ==> hay@[s + t] == needle@[t]),
            decreases n - j,
        {
            if hay[s + j] != needle[j] {
                eq = false;
            }
            j = j + 1;
        }
        let ghost rest = hits_from(hay@, needle@, s + 1);
        proof {
            if eq {
                assert(hay@.subrange(s as int, s + n) =~= needle@);
            } else {
                let t = choose|t: int| 0 <= t < n && hay@[s + t] != needle@[t];
                assert(hay@.subrange(s as int, s + n)[t] != needle@[t]);
            }
        }
        if eq {
            out.push(s);
            assert(out@.map_values(|x: usize| x as int) =~= out@.drop_last().map_values(|x: usize| x as int).push(s as int));
        }
        s = s + 1;
    }
    assert(hits_from(hay@, needle@, s as int) =~= Seq::<int>::empty());
    assert(out@.map_values(|x: usize| x as int) =~= hits_from(hay@, needle@, 0));
    out
}

/// The characters of a row of cells, as a string.
fn row_string(line: &[Cell]) -> (s: String)
    ensures
        s@ == line_text(line@),
{
    let mut v: Vec<char> = Vec::new();
    let mut i: usize = 0;
    while i < line.len()
        invariant
            i <= line@.len(),
            v@ == line_text(line@.take(i as int)),
        decreases line@.len() - i,
    {
        v.push(line[i].c);
        i = i + 1;
        assert(v@ =~= line_text(line@.take(i as int)));
    }
    assert(line@.take(i as int) =~= line@);
    string_from_chars(v.as_slice())
}

/// Append the hits of `needle` in the line numbered `line` to `out`.
fn push_line_hits(out: &mut Vec<Match>, line: usize, cells: &[Cell], needle: &Vec<char>)
    ensures
        final(out)@ == old(out)@ + line_hits(line as int, lowercase_of(line_text(cells@)), needle@),
{
    let text = row_string(cells);
    let lower = to_lower_text(text.as_str());
    let hay = str_chars(lower.as_str());
    let starts = find_all(&hay, needle);
    let ghost base = out@;
    let ghost hs = hits_from(hay@, needle@, 0);
    let mut k: usize = 0;
    while k < starts.len()
        invariant
            k <= starts@.len(),
            hs == starts@.map_values(|x: usize| x as int),
            out@ == base + hs.take(k as int).map_values(|c: int| Match { line: line as usize, col: c as usize }),
        decreases starts@.len() - k,
    {
        out.push(Match { line, col: starts[k] });
        k = k + 1;
        assert(out@ =~= base + hs.take(k as int).map_values(|c: int| Match { line: line as usize, col: c as usize }));
    }
    assert(hs.take(k as int) =~= hs);
}

impl Terminal {
    /// The emulator state is well formed.
    pub closed spec fn wf(&self) -> bool {
        self.state.wf()
    }

    /// The chunks of bytes fed to the emulator since it was made, in order.
    pub closed spec fn history(&self) -> Seq<Seq<u8>> {
        self.parser.history()
    }

    /// A well-formed emulator has a well-formed view: the cursor on the
    /// grid, every row full width, the scroll region on the screen and the
    /// scrollback within its cap.
    pub proof fn lemma_view_wf(&self)
        requires
            self.wf(),
        ensures
            term_wf(self@),
    {
    }

    /// A terminal with a blank `rows` x `cols` screen (each at least 1).
    pub fn new(rows: usize, cols: usize) -> (t: Terminal)
        requires
            fits(if rows < 1 { 1nat } else { rows as nat }, if cols < 1 { 1nat } else { cols as nat }),
        ensures
            t.wf(),
            t@ == initial_view(if rows < 1 { 1nat } else { rows as nat }, if cols < 1 { 1nat } else { cols as nat }),
            t.history() == Seq::<Seq<u8>>::empty(),
    {
        let screen = Screen::new(rows, cols);
        let bottom = screen.rows() - 1;
        let t = Terminal {
            parser: VtParser::new(),
            state: TermState {
                screen,
                pen: fresh_pen(),
                bell: false,
                scroll_top: 0,
                scroll_bottom: bottom,
                saved_cursor: SavedCursor { row: 0, col: 0 },
                autowrap: true,
                pending_wrap: false,
                alt_active: false,
                saved_primary: None,
                saved_alt_cursor: SavedCursor { row: 0, col: 0 },
                title: None,
                cwd: None,
                notifications: Vec::new(),
                scrollback: VecDeque::new(),
            },
        };
        proof {
            assert(t@ =~= initial_view(t@.screen.rows, t@.screen.cols));
            t.state.screen.lemma_view_wf();
        }
        t
    }

    /// Apply parser actions in order.
    pub fn apply(&mut self, actions: &Vec<VtAction>)
        requires
            old(self).wf(),
        ensures
            final(self).wf(),
            final(self)@ == spec_run(old(self)@, actions@),
            final(self).history() == old(self).history(),
    {
        let mut i: usize = 0;
        while i < actions.len()
            invariant
                i <= actions@.len(),
                self.wf(),
                self@ == spec_run(old(self)@, actions@.take(i as int)),
                self.history() == old(self).history(),
            decreases actions@.len() - i,
        {
            self.state.apply_action(&actions[i]);
            proof {
                assert(actions@.take(i + 1).drop_last() =~= actions@.take(i as int));
            }
            i = i + 1;
        }
        proof {
            assert(actions@.take(i as int) =~= actions@);
        }
    }

    /// Run the parser over `bytes` and apply what it recognised; a sequence
    /// split across calls is completed by a later call.
    pub fn feed(&mut self, bytes: &[u8])
        requires
            old(self).wf(),
        ensures
            final(self).wf(),
            final(self)@ == spec_run(old(self)@, vte_actions(old(self).history(), bytes@)),
            final(self).history() == old(self).history().push(bytes@),
    {
        let actions = self.parser.advance(bytes);
        self.apply(&actions);
    }

    /// Resize the grid (no reflow): content that fits is kept, the cursor
    /// stays on the grid, the scroll region becomes the whole screen and any
    /// deferred wrap is dropped. The saved primary screen is resized too.
    pub fn resize(&mut self, rows: usize, cols: usize)
        requires
            old(self).wf(),
            fits(if rows < 1 { 1nat } else { rows as nat }, if cols < 1 { 1nat } else { cols as nat }),
        ensures
            final(self).wf(),
            final(self)@ == term_resized(
                old(self)@,
                if rows < 1 { 1nat } else { rows as nat },
                if cols < 1 { 1nat } else { cols as nat },
            ),
            final(self).history() == old(self).history(),
    {
        self.state.screen.resize(rows, cols);
        let saved = self.state.saved_primary.take();
        match saved {
            Some(mut p) => {
                p.resize(rows, cols);
                self.state.saved_primary = Some(p);
            },
            None => {},
        }
        self.state.scroll_top = 0;
        self.state.scroll_bottom = self.state.screen.rows() - 1;
        self.state.pending_wrap = false;
        proof {
            self.state.screen.lemma_view_wf();
            if self.state.saved_primary is Some {
                self.state.saved_primary->0.lemma_view_wf();
            }
            let r = if rows < 1 { 1nat } else { rows as nat };
            let c = if cols < 1 { 1nat } else { cols as nat };
            let o = old(self)@;
            assert(self@ =~= TermView {
                screen: crate::screen::resized(o.screen, r, c),
                saved_primary: match o.saved_primary {
                    Some(p) => Some(crate::screen::resized(p, r, c)),
                    None => None,
                },
                scroll_top: 0,
                scroll_bottom: (r - 1) as nat,
                pending_wrap: false,
                ..o
            });
        }
    }

    /// Whether the alternate screen (vim, less, htop) is shown.
    pub fn is_alt_screen(&self) -> (b: bool)
        ensures
            b == self@.alt_active,
    {
        self.state.alt_active
    }

    pub fn rows(&self) -> (n: usize)
        ensures
            n == self@.screen.rows,
    {
        self.state.screen.rows()
    }

    pub fn cols(&self) -> (n: usize)
        ensures
            n == self@.screen.cols,
    {
        self.state.screen.cols()
    }

    pub fn cursor(&self) -> (c: Cursor)
        ensures
            c == self@.screen.cursor,
    {
        self.state.screen.cursor()
    }

    /// The cell at `(row, col)`.
    pub fn cell(&self, row: usize, col: usize) -> (c: &Cell)
        requires
            self.wf(),
            row < self@.screen.rows,
            col < self@.screen.cols,
        ensures
            *c == self@.screen.grid[row as int][col as int],
    {
        self.state.screen.cell(row, col)
    }

    /// Row `n` of the screen.
    pub fn row(&self, n: usize) -> (r: &[Cell])
        requires
            self.wf(),
            n < self@.screen.rows,
        ensures
            r@ == self@.screen.grid[n as int],
    {
        self.state.screen.row(n)
    }

    /// The screen shown.
    pub fn screen(&self) -> (s: &Screen)
        requires
            self.wf(),
        ensures
            s.wf(),
            s@ == self@.screen,
    {
        &self.state.screen
    }

    /// Whether a BEL has rung since the last [`Terminal::take_bell`].
    pub fn bell_rang(&self) -> (b: bool)
        ensures
            b == self@.bell,
    {
        self.state.bell
    }

    /// Whether a BEL has rung; clears the flag.
    pub fn take_bell(&mut self) -> (b: bool)
        requires
            old(self).wf(),
        ensures
            final(self).wf(),
            b == old(self)@.bell,
            final(self)@ == (TermView { bell: false, ..old(self)@ }),
            final(self).history() == old(self).history(),
    {
        let rang = self.state.bell;
        self.state.bell = false;
        proof {
            assert(self@ =~= TermView { bell: false, ..old(self)@ });
        }
        rang
    }

    /// The window title last set by OSC 0/1/2.
    pub fn title(&self) -> (t: Option<&str>)
        ensures
            match t {
                Some(s) => self@.title == Some(s@),
                None => self@.title is None,
            },
    {
        match &self.state.title {
            Some(s) => Some(s.as_str()),
            None => None,
        }
    }

    /// The title set since the last call, cleared.
    pub fn take_title(&mut self) -> (t: Option<String>)
        requires
            old(self).wf(),
        ensures
            final(self).wf(),
            opt_text(t) == old(self)@.title,
            final(self)@ == (TermView { title: None, ..old(self)@ }),
            final(self).history() == old(self).history(),
    {
        let mut t: Option<String> = None;
        std::mem::swap(&mut t, &mut self.state.title);
        proof {
            assert(self@ =~= TermView { title: None, ..old(self)@ });
        }
        t
    }

    /// The working directory set by OSC 7 since the last call, cleared.
    pub fn take_cwd(&mut self) -> (c: Option<String>)
        requires
            old(self).wf(),
        ensures
            final(self).wf(),
            opt_text(c) == old(self)@.cwd,
            final(self)@ == (TermView { cwd: None, ..old(self)@ }),
            final(self).history() == old(self).history(),
    {
        let mut c: Option<String> = None;
        std::mem::swap(&mut c, &mut self.state.cwd);
        proof {
            assert(self@ =~= TermView { cwd: None, ..old(self)@ });
        }
        c
    }

    /// The (title, body) notifications raised since the last call, cleared.
    pub fn take_notifications(&mut self) -> (v: Vec<(String, String)>)
        requires
            old(self).wf(),
        ensures
            final(self).wf(),
            v@.map_values(|p: (String, String)| (p.0@, p.1@)) == old(self)@.notifications,
            final(self)@ == (TermView { notifications: Seq::empty(), ..old(self)@ }),
            final(self).history() == old(self).history(),
    {
        let mut v: Vec<(String, String)> = Vec::new();
        std::mem::swap(&mut v, &mut self.state.notifications);
        proof {
            assert(self@ =~= TermView { notifications: Seq::empty(), ..old(self)@ });
        }
        v
    }

    /// Lines kept in scrollback.
    pub fn scrollback_len(&self) -> (n: usize)
        ensures
            n == self@.scrollback.len(),
    {
        proof {
            assert(self.state.scrollback@.len() == self@.scrollback.len());
        }
        self.state.scrollback.len()
    }

    /// Scrollback lines plus screen rows.
    pub fn total_lines(&self) -> (n: usize)
        requires
            self.wf(),
        ensures
            n == self@.scrollback.len() + self@.screen.rows,
    {
        proof {
            assert(self.state.scrollback@.len() == self@.scrollback.len());
        }
        self.state.scrollback.len() + self.state.screen.rows()
    }

    /// Case-insensitive search of scrollback then screen; hits in line
    /// order, then column order.
    pub fn search(&self, query: &str) -> (v: Vec<Match>)
        requires
            self.wf(),
        ensures
            v@ == spec_search(self@, query@),
    {
        let mut out: Vec<Match> = Vec::new();
        if query.is_empty() {
            return out;
        }
        let lower = to_lower_text(query);
        let needle = str_chars(lower.as_str());
        let ghost lines = self@.scrollback + self@.screen.grid;
        let sb_len = self.state.scrollback.len();
        let mut i: usize = 0;
        while i < sb_len
            invariant
                i <= sb_len,
                sb_len == self@.scrollback.len(),
                self.wf(),
                lines == self@.scrollback + self@.screen.grid,
                needle@ == lowercase_of(query@),
                out@ == search_lines(lines.take(i as int), needle@),
            decreases sb_len - i,
        {
            let line = &self.state.scrollback[i];
            assert(line@ == lines[i as int]);
            push_line_hits(&mut out, i, line.as_slice(), &needle);
            proof {
                assert(lines.take(i + 1).drop_last() =~= lines.take(i as int));
            }
            i = i + 1;
        }
        let rows = self.state.screen.rows();
        let mut r: usize = 0;
        while r < rows
            invariant
                r <= rows,
                rows == self@.screen.rows,
                sb_len == self@.scrollback.len(),
                self.wf(),
                lines == self@.scrollback + self@.screen.grid,
                needle@ == lowercase_of(query@),
                out@ == search_lines(lines.take(sb_len + r), needle@),
            decreases rows - r,
        {
            let line = self.state.screen.row(r);
            assert(line@ == lines[sb_len + r]);
            push_line_hits(&mut out, sb_len + r, line, &needle);
            proof {
                assert(lines.take(sb_len + r + 1).drop_last() =~= lines.take(sb_len + r));
            }
            r = r + 1;
        }
        proof {
            assert(lines.take(sb_len + r) =~= lines);
        }
        out
    }

    /// The screen scrolled back by `offset` lines (0 = live screen, at most
    /// the scrollback): exactly `rows()` rows, drawing from scrollback above
    /// the screen.
    pub fn viewport(&self, offset: usize) -> (v: Vec<Vec<Cell>>)
        requires
            self.wf(),
        ensures
            v@.map_values(|l: Vec<Cell>| l@) == spec_viewport(self@, offset as int),
    {
        let rows = self.state.screen.rows();
        let cols = self.state.screen.cols();
        let sb_len = self.state.scrollback.len();
        let off = if offset < sb_len { offset } else { sb_len };
        let end = sb_len + rows - off;
        let start = if end > rows { end - rows } else { 0 };
        let ghost target = spec_viewport(self@, offset as int);
        let mut out: Vec<Vec<Cell>> = Vec::new();
        let mut k: usize = 0;
        while k < rows
            invariant
                k <= rows,
                rows == self@.screen.rows,
                cols == self@.screen.cols,
                sb_len == self@.scrollback.len(),
                self.wf(),
                off == min(offset as int, sb_len as int),
                end == sb_len + rows - off,
                start == sat_sub(end as int, rows as int),
                target == spec_viewport(self@, offset as int),
                out@.map_values(|l: Vec<Cell>| l@) == target.take(k as int),
            decreases rows - k,
        {
            let i = start + k;
            let line: Vec<Cell> = if i < end {
                if i < sb_len {
                    let src = &self.state.scrollback[i];
                    let mut l: Vec<Cell> = Vec::new();
                    let mut c: usize = 0;
                    while c < cols
                        invariant
                            c <= cols,
                            l@ == fit_line(src@, cols as nat).take(c as int),
                        decreases cols - c,
                    {
                        if c < src.len() {
                            l.push(src[c]);
                        } else {
                            l.push(Cell::default());
                        }
                        c = c + 1;
                        assert(l@ =~= fit_line(src@, cols as nat).take(c as int));
                    }
                    assert(fit_line(src@, cols as nat).take(cols as int) =~= fit_line(src@, cols as nat));
                    l
                } else {
                    self.state.screen.row_copy(i - sb_len)
                }
            } else {
                let mut l: Vec<Cell> = Vec::new();
                let mut c: usize = 0;
                while c < cols
                    invariant
                        c <= cols,
                        l@ == blank_line(c as nat),
                    decreases cols - c,
                {
                    l.push(Cell::default());
                    c = c + 1;
                    assert(l@ =~= blank_line(c as nat));
                }
                l
            };
            let ghost lv = line@;
            let ghost prev = out@;
            proof {
                assert(lv == target[k as int]);
            }
            out.push(line);
            k = k + 1;
            proof {
                assert(out@ == prev.push(out@.last()));
                assert(out@.map_values(|l: Vec<Cell>| l@) =~= prev.map_values(|l: Vec<Cell>| l@).push(lv));
                assert(target.take(k as int) =~= target.take(k - 1).push(target[k - 1]));
            }
        }
        proof {
            assert(target.take(k as int) =~= target);
        }
        out
    }

    /// The screen as plain text: one line per row, trailing spaces trimmed,
    /// a double-width glyph counted once.
    pub fn render_to_string(&self) -> (s: String)
        requires
            self.wf(),
        ensures
            s@ == render_rows(self@.screen.grid, self@.screen.rows as int),
    {
        let rows = self.state.screen.rows();
        let cols = self.state.screen.cols();
        let mut out = String::new();
        let mut r: usize = 0;
        while r < rows
            invariant
                r <= rows,
                rows == self@.screen.rows,
                cols == self@.screen.cols,
                self.wf(),
                out@ == render_rows(self@.screen.grid, r as int),
            decreases rows - r,
        {
            let row = self.state.screen.row(r);
            let mut line: Vec<char> = Vec::new();
            let mut c: usize = 0;
            while c < cols
                invariant
                    c <= cols + 1,
                    cols == row@.len(),
                    cols <= MAX_CELLS,
                    line@ + row_glyphs(row@, c as int) == row_glyphs(row@, 0),
                decreases cols + 1 - c,
            {
                let ch = row[c].c;
                line.push(ch);
                let ghost rest = row_glyphs(row@, c as int);
                if char_width(ch) == Some(2usize) {
                    c = c + 2;
                } else {
                    c = c + 1;
                }
                assert(line@ + row_glyphs(row@, c as int) =~= line@.drop_last() + rest);
            }
            assert(row_glyphs(row@, c as int) =~= Seq::<char>::empty());
            let mut end = line.len();
            assert(line@.take(end as int) =~= line@);
            while end > 0 && line[end - 1] == ' '
                invariant
                    end <= line@.len(),
                    trim_spaces_end(line@.take(end as int)) == trim_spaces_end(line@),
                decreases end,
            {
                assert(line@.take(end as int).drop_last() =~= line@.take(end - 1));
                end = end - 1;
            }
            if r > 0 {
                crate::text::string_push(&mut out, '\n');
            }
            let ghost before = out@;
            let mut k: usize = 0;
            while k < end
                invariant
                    k <= end,
                    end <= line@.len(),
                    out@ == before + line@.take(k as int),
                decreases end - k,
            {
                crate::text::string_push(&mut out, line[k]);
                k = k + 1;
                assert(out@ =~= before + line@.take(k as int));
            }
            proof {
                assert(trim_spaces_end(line@.take(end as int)) == line@.take(end as int)) by {
                    if end > 0 {
                        assert(line@.take(end as int).last() == line@[end - 1]);
                    }
                }
                if r == 0 {
                    assert(out@ =~= render_rows(self@.screen.grid, 1));
                } else {
                    assert(out@ =~= render_rows(self@.screen.grid, r + 1));
                }
            }
            r = r + 1;
        }
        out
    }
}
/// Feeding actions in two batches leaves the emulator as feeding them all
/// at once does: `run(v, a + b) == run(run(v, a), b)`.
pub proof fn law_run_concat(v: TermView, a: Seq<VtAction>, b: Seq<VtAction>)
    ensures
        spec_run(v, a + b) == spec_run(spec_run(v, a), b),
    decreases b.len(),
{
    if b.len() == 0 {
        assert(a + b =~= a);
    } else {
        assert((a + b).drop_last() =~= a + b.drop_last());
        assert((a + b).last() == b.last());
        law_run_concat(v, a, b.drop_last());
    }
}

/// While the alternate screen is shown, no action adds to the scrollback.
pub proof fn law_alt_screen_keeps_scrollback(v: TermView, a: VtAction)
    requires
        v.alt_active,
    ensures
        spec_action(v, a).scrollback == v.scrollback,
{
    match a {
        VtAction::Print(c) => {
            let w = print_width(c);
            if w != 0 {
                let v1 = if v.pending_wrap {
                    if v.autowrap {
                        spec_line_feed(at(unwrapped(v), v.screen.cursor.row as int, 0))
                    } else {
                        unwrapped(v)
                    }
                } else {
                    v
                };
                assert(v1.alt_active && v1.scrollback == v.scrollback);
            }
        },
        VtAction::Execute(b) => {},
        VtAction::Csi { params, intermediates, action, .. } => {
            lemma_dec_modes_keep_scrollback(v, csi_params(params@), action == 'h', 0);
        },
        VtAction::Esc { byte, .. } => {},
        VtAction::Osc { params, .. } => {},
    }
}

proof fn lemma_dec_modes_keep_scrollback(v: TermView, params: Seq<Seq<u16>>, set: bool, i: int)
    ensures
        spec_dec_modes(v, params, set, i).scrollback == v.scrollback,
    decreases params.len() - i,
{
    if 0 <= i < params.len() {
        let v2 = match param_value(params, i) {
            Some(m) => if m == 7 {
                TermView { autowrap: set, ..v }
            } else if m == 25 {
                TermView { screen: ScreenView { cursor: Cursor { visible: set, ..v.screen.cursor }, ..v.screen }, ..v }
            } else if m == 47 || m == 1047 {
                if set {
                    spec_enter_alt(v, false)
                } else {
                    spec_leave_alt(v, false)
                }
            } else if m == 1049 {
                if set {
                    spec_enter_alt(v, true)
                } else {
                    spec_leave_alt(v, true)
                }
            } else {
                v
            },
            None => v,
        };
        lemma_dec_modes_keep_scrollback(v2, params, set, i + 1);
    }
}

/// The emulator resized to `r` x `c` (no reflow): content that fits is
/// kept, the cursor stays on the grid, the scroll region becomes the whole
/// screen and any deferred wrap is dropped; a saved primary screen is
/// resized too.
pub open spec fn term_resized(o: TermView, r: nat, c: nat) -> TermView {
    TermView {
        screen: crate::screen::resized(o.screen, r, c),
        saved_primary: match o.saved_primary {
            Some(p) => Some(crate::screen::resized(p, r, c)),
            None => None,
        },
        scroll_top: 0,
        scroll_bottom: (r - 1) as nat,
        pending_wrap: false,
        ..o
    }
}


/// The DEC private modes of `params` from `i` on name none of the
/// alternate-screen modes (47, 1047, 1049).
pub open spec fn no_alt_mode(params: Seq<Seq<u16>>, i: int) -> bool {
    forall|j: int|
        i <= j < params.len() ==> !(#[trigger] param_value(params, j) matches Some(m) && (m == 47 || m == 1047
            || m == 1049))
}

/// `a` may switch between the primary and the alternate screen: a mode
/// set or reset naming 47, 1047 or 1049.
pub open spec fn switches_screen(a: VtAction) -> bool {
    a matches VtAction::Csi { params, action, .. } && (action == 'h' || action == 'l') && !no_alt_mode(
        csi_params(params@),
        0,
    )
}

/// The parts of a state that entering the alternate screen saves.
pub open spec fn same_screens(a: TermView, b: TermView) -> bool {
    &&& b.alt_active == a.alt_active
    &&& b.saved_primary == a.saved_primary
    &&& b.saved_alt_cursor == a.saved_alt_cursor
    &&& b.scrollback == a.scrollback
}

proof fn lemma_dec_modes_keep_screens(v: TermView, params: Seq<Seq<u16>>, set: bool, i: int)
    requires
        no_alt_mode(params, i),
        v.alt_active,
    ensures
        same_screens(v, spec_dec_modes(v, params, set, i)),
    decreases params.len() - i,
{
    if 0 <= i < params.len() {
        assert(!(param_value(params, i) matches Some(m) && (m == 47 || m == 1047 || m == 1049)));
        let v2 = match param_value(params, i) {
            Some(m) => if m == 7 {
                TermView { autowrap: set, ..v }
            } else if m == 25 {
                TermView { screen: ScreenView { cursor: Cursor { visible: set, ..v.screen.cursor }, ..v.screen }, ..v }
            } else {
                v
            },
            None => v,
        };
        assert(spec_dec_modes(v, params, set, i) == spec_dec_modes(v2, params, set, i + 1));
        lemma_dec_modes_keep_screens(v2, params, set, i + 1);
    }
}

proof fn lemma_action_keeps_screens(v: TermView, a: VtAction)
    requires
        v.alt_active,
        !switches_screen(a),
    ensures
        same_screens(v, spec_action(v, a)),
{
    law_alt_screen_keeps_scrollback(v, a);
    match a {
        VtAction::Print(c) => {},
        VtAction::Execute(b) => {},
        VtAction::Csi { params, intermediates, action, .. } => {
            if action == 'h' || action == 'l' {
                lemma_dec_modes_keep_screens(v, csi_params(params@), action == 'h', 0);
            }
        },
        VtAction::Esc { byte, .. } => {},
        VtAction::Osc { params, .. } => {},
    }
}

proof fn lemma_run_keeps_screens(v: TermView, acts: Seq<VtAction>)
    requires
        v.alt_active,
        forall|i: int| 0 <= i < acts.len() ==> !switches_screen(#[trigger] acts[i]),
    ensures
        same_screens(v, spec_run(v, acts)),
    decreases acts.len(),
{
    if acts.len() > 0 {
        let d = acts.drop_last();
        assert forall|i: int| 0 <= i < d.len() implies !switches_screen(#[trigger] d[i]) by {
            assert(d[i] == acts[i]);
        }
        lemma_run_keeps_screens(v, d);
        assert(!switches_screen(acts[acts.len() - 1]));
        lemma_action_keeps_screens(spec_run(v, d), acts.last());
    }
}

/// The alternate screen is a scratch screen: whatever a program draws on it,
/// leaving it brings back the primary screen exactly as it was when the
/// program entered it — contents and cursor — and the scrollback unchanged.
/// (This holds when the program does not switch screens in between.)
pub proof fn law_alt_screen_round_trip(v: TermView, save_cursor: bool, acts: Seq<VtAction>)
    requires
        term_wf(v),
        !v.alt_active,
        forall|i: int| 0 <= i < acts.len() ==> !switches_screen(#[trigger] acts[i]),
    ensures
        spec_leave_alt(spec_run(spec_enter_alt(v, save_cursor), acts), save_cursor).screen == v.screen,
        spec_leave_alt(spec_run(spec_enter_alt(v, save_cursor), acts), save_cursor).scrollback == v.scrollback,
        !spec_leave_alt(spec_run(spec_enter_alt(v, save_cursor), acts), save_cursor).alt_active,
{
    let w0 = spec_enter_alt(v, save_cursor);
    lemma_run_keeps_screens(w0, acts);
    let w = spec_run(w0, acts);
    assert(w.saved_primary == Some(v.screen));
    if save_cursor {
        assert(v.screen.cursor.row < v.screen.rows && v.screen.cursor.col < v.screen.cols);
        assert(spec_leave_alt(w, save_cursor).screen =~= v.screen);
    }
}

/// The lines a viewport draws from: the scrollback, oldest first, then the
/// screen rows.
pub open spec fn all_lines(v: TermView) -> Seq<Seq<Cell>> {
    v.scrollback + v.screen.grid
}

/// A viewport is a screen-high window onto the scrollback followed by the
/// screen: it has one full-width row per screen row; row `i`, for an
/// offset `o` (at most the scrollback), is line `scrollback - o + i` of
/// scrollback-then-screen, a scrollback line padded or cut to the width;
/// asking for more than the scrollback gives the oldest window; and at
/// offset 0 it is the screen itself.
pub proof fn law_viewport_window(v: TermView, offset: int)
    requires
        term_wf(v),
        offset >= 0,
    ensures
        spec_viewport(v, offset).len() == v.screen.rows,
        forall|i: int| 0 <= i < v.screen.rows ==> (#[trigger] spec_viewport(v, offset)[i]).len() == v.screen.cols,
        forall|i: int|
            0 <= i < v.screen.rows ==> {
                let o = min(offset, v.scrollback.len() as int);
                let k = v.scrollback.len() - o + i;
                #[trigger] spec_viewport(v, offset)[i] == if k < v.scrollback.len() {
                    fit_line(all_lines(v)[k], v.screen.cols)
                } else {
                    all_lines(v)[k]
                }
            },
        spec_viewport(v, offset) == spec_viewport(v, min(offset, v.scrollback.len() as int)),
        spec_viewport(v, 0) == v.screen.grid,
{
    let sb = v.scrollback;
    let rows = v.screen.rows as int;
    assert forall|i: int| 0 <= i < rows implies (#[trigger] spec_viewport(v, offset)[i]).len() == v.screen.cols by {
        let o = min(offset, sb.len() as int);
        let k = sb.len() - o + i;
        if k >= sb.len() {
            assert(v.screen.grid[k - sb.len()].len() == v.screen.cols);
        }
    }
    assert forall|i: int| 0 <= i < rows implies {
        let o = min(offset, sb.len() as int);
        let k = sb.len() - o + i;
        #[trigger] spec_viewport(v, offset)[i] == if k < sb.len() {
            fit_line(all_lines(v)[k], v.screen.cols)
        } else {
            all_lines(v)[k]
        }
    } by {
        let o = min(offset, sb.len() as int);
        let k = sb.len() - o + i;
        if k < sb.len() {
            assert(all_lines(v)[k] == sb[k]);
        } else {
            assert(all_lines(v)[k] == v.screen.grid[k - sb.len()]);
        }
    }
    assert(spec_viewport(v, offset) =~= spec_viewport(v, min(offset, sb.len() as int)));
    assert(spec_viewport(v, 0) =~= v.screen.grid);
}

/// Printing a character: a zero-width one changes nothing; any other
/// leaves the cursor on the grid; a one-column character with no wrap
/// pending is written at the cursor in the current pen, and the cursor
/// moves one column right, or at the last column stays there and (with
/// autowrap) latches a wrap.
pub proof fn law_write_char(v: TermView, c: char, w: int)
    requires
        term_wf(v),
        0 <= w <= 2,
    ensures
        w == 0 ==> spec_write_char(v, c, w) == v,
        spec_write_char(v, c, w).screen.cursor.row < v.screen.rows,
        spec_write_char(v, c, w).screen.cursor.col < v.screen.cols,
        w == 1 && !v.pending_wrap ==> {
            let row = v.screen.cursor.row as int;
            let col = v.screen.cursor.col as int;
            let post = spec_write_char(v, c, w);
            &&& post.screen.grid[row][col] == pen_cell(v.pen, c)
            &&& post.screen.cursor.row == row
            &&& if col + 1 < v.screen.cols {
                post.screen.cursor.col == col + 1 && post.pending_wrap == v.pending_wrap
            } else {
                post.screen.cursor.col == v.screen.cols - 1 && post.pending_wrap == v.autowrap
            }
        },
{
}

/// What single SGR codes do to the pen: 0 resets colors and styles; 39 and
/// 49 reset only the foreground and only the background to the terminal's
/// default; 30-37 and 90-97 pick a palette foreground, 40-47 and 100-107 a
/// palette background, each leaving the other color and the styles alone;
/// and 39 undoes whatever foreground an earlier code chose.
pub proof fn law_sgr_color_codes(p: Pen, code: u16)
    ensures
        sgr_code(p, 0).fg == Color::Default && sgr_code(p, 0).bg == Color::Default,
        !sgr_code(p, 0).flags.bold && !sgr_code(p, 0).flags.italic,
        !sgr_code(p, 0).flags.underline && !sgr_code(p, 0).flags.inverse,
        sgr_code(p, 39) == (Pen { fg: Color::Default, bg: p.bg, flags: p.flags }),
        sgr_code(p, 49) == (Pen { fg: p.fg, bg: Color::Default, flags: p.flags }),
        30 <= code <= 37 ==> sgr_code(p, code) == (Pen {
            fg: Color::Indexed((code - 30) as u8),
            bg: p.bg,
            flags: p.flags,
        }),
        40 <= code <= 47 ==> sgr_code(p, code) == (Pen {
            fg: p.fg,
            bg: Color::Indexed((code - 40) as u8),
            flags: p.flags,
        }),
        90 <= code <= 97 ==> sgr_code(p, code) == (Pen {
            fg: Color::Indexed((code - 82) as u8),
            bg: p.bg,
            flags: p.flags,
        }),
        100 <= code <= 107 ==> sgr_code(p, code) == (Pen {
            fg: p.fg,
            bg: Color::Indexed((code - 92) as u8),
            flags: p.flags,
        }),
        sgr_code(sgr_code(p, code), 39).fg == Color::Default,
        sgr_code(sgr_code(p, code), 49).bg == Color::Default,
        (30 <= code <= 37 || 90 <= code <= 97) ==> sgr_code(sgr_code(p, code), 39) == sgr_code(p, 39),
        (40 <= code <= 47 || 100 <= code <= 107) ==> sgr_code(sgr_code(p, code), 49) == sgr_code(p, 49),
{
}


/// What the style codes do to the pen: 1, 3, 4 and 7 turn on bold, italic,
/// underline and inverse, and 22, 23, 24 and 27 turn the same one off,
/// each touching nothing else; turning a style on and then off again gives
/// the pen as the off code alone would.
pub proof fn law_sgr_style_codes(p: Pen)
    ensures
        sgr_code(p, 1) == (Pen { flags: CellFlags { bold: true, ..p.flags }, ..p }),
        sgr_code(p, 3) == (Pen { flags: CellFlags { italic: true, ..p.flags }, ..p }),
        sgr_code(p, 4) == (Pen { flags: CellFlags { underline: true, ..p.flags }, ..p }),
        sgr_code(p, 7) == (Pen { flags: CellFlags { inverse: true, ..p.flags }, ..p }),
        sgr_code(p, 22) == (Pen { flags: CellFlags { bold: false, ..p.flags }, ..p }),
        sgr_code(p, 23) == (Pen { flags: CellFlags { italic: false, ..p.flags }, ..p }),
        sgr_code(p, 24) == (Pen { flags: CellFlags { underline: false, ..p.flags }, ..p }),
        sgr_code(p, 27) == (Pen { flags: CellFlags { inverse: false, ..p.flags }, ..p }),
        sgr_code(sgr_code(p, 1), 22) == sgr_code(p, 22),
        sgr_code(sgr_code(p, 3), 23) == sgr_code(p, 23),
        sgr_code(sgr_code(p, 4), 24) == sgr_code(p, 24),
        sgr_code(sgr_code(p, 7), 27) == sgr_code(p, 27),
{
}

} // verus!
