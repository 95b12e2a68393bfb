//! Turning terminal rows into styled text runs for the webview: each row
//! becomes the maximal runs of same-styled cells, with CSS colors from the
//! xterm palette and an optional selection tint.

use vstd::prelude::*;
use crate::screen::{Cell, Color};
use crate::text::{decimal, push_decimal, str_chars, string_push};

verus! {

/// The default foreground: a CSS variable the active theme sets.
pub const DEFAULT_FG: &'static str = "var(--term-fg, #cdd6f4)";

/// The default background: a CSS variable the active theme sets.
pub const DEFAULT_BG: &'static str = "var(--term-bg, #1e1e2e)";

/// A maximal run of same-styled cells within a row.
#[derive(Debug, Clone, PartialEq)]
pub struct StyledRun {
    pub style: String,
    pub text: String,
}

/// A normalised selection over a viewport, in (row, col) cell coordinates.
#[derive(Debug, Clone, Copy, PartialEq, Eq)]
pub struct ViewportSelection {
    pub start: (usize, usize),
    pub end: (usize, usize),
}

/// `a` comes no later than `b` in reading order.
pub open spec fn reads_before(a: (usize, usize), b: (usize, usize)) -> bool {
    a.0 < b.0 || (a.0 == b.0 && a.1 <= b.1)
}

/// The selected columns of `row` for a row `width` cells wide.
pub open spec fn spec_cols_for_row(s: ViewportSelection, row: usize, width: usize) -> Option<(usize, usize)> {
    if width == 0 || row < s.start.0 || row > s.end.0 {
        None
    } else {
        let last = (width - 1) as usize;
        let lo = if row == s.start.0 {
            if s.start.1 < last { s.start.1 } else { last }
        } else {
            0
        };
        let hi = if row == s.end.0 {
            if s.end.1 < last { s.end.1 } else { last }
        } else {
            last
        };
        Some((lo, hi))
    }
}

impl ViewportSelection {
    /// The selection between an anchor and the current point, in reading
    /// order.
    pub fn new(a: (usize, usize), b: (usize, usize)) -> (s: ViewportSelection)
        ensures
            reads_before(a, b) ==> s.start == a && s.end == b,
            !reads_before(a, b) ==> s.start == b && s.end == a,
    {
        if a.0 < b.0 || (a.0 == b.0 && a.1 <= b.1) {
            ViewportSelection { start: a, end: b }
        } else {
            ViewportSelection { start: b, end: a }
        }
    }

    /// Inclusive `(lo, hi)` selected columns of `row`, `width` cells wide;
    /// `None` when the row is outside the selection.
    pub fn cols_for_row(&self, row: usize, width: usize) -> (r: Option<(usize, usize)>)
        ensures
            r == spec_cols_for_row(*self, row, width),
    {
        if width == 0 || row < self.start.0 || row > self.end.0 {
            return None;
        }
        let last = width - 1;
        let lo = if row == self.start.0 {
            if self.start.1 < last { self.start.1 } else { last }
        } else {
            0
        };
        let hi = if row == self.end.0 {
            if self.end.1 < last { self.end.1 } else { last }
        } else {
            last
        };
        Some((lo, hi))
    }
}

/// The xterm 256-color palette: 16 system colors, a 6x6x6 cube and a
/// 24-step gray ramp.
pub open spec fn spec_xterm256(i: u8) -> (u8, u8, u8) {
    if i < 16 {
        if i == 0 {
            (0, 0, 0)
        } else if i == 1 {
            (205, 0, 0)
        } else if i == 2 {
            (0, 205, 0)
        } else if i == 3 {
            (205, 205, 0)
        } else if i == 4 {
            (0, 0, 238)
        } else if i == 5 {
            (205, 0, 205)
        } else if i == 6 {
            (0, 205, 205)
        } else if i == 7 {
            (229, 229, 229)
        } else if i == 8 {
            (127, 127, 127)
        } else if i == 9 {
            (255, 0, 0)
        } else if i == 10 {
            (0, 255, 0)
        } else if i == 11 {
            (255, 255, 0)
        } else if i == 12 {
            (92, 92, 255)
        } else if i == 13 {
            (255, 0, 255)
        } else if i == 14 {
            (0, 255, 255)
        } else {
            (255, 255, 255)
        }
    } else if i < 232 {
        let j = i - 16;
        (cube_step(j / 36), cube_step((j % 36) / 6), cube_step(j % 6))
    } else {
        let v = (8 + (i - 232) * 10) as u8;
        (v, v, v)
    }
}

/// The level of a cube coordinate `0..=5`.
pub open spec fn cube_step(v: int) -> u8 {
    if v == 0 {
        0
    } else {
        (55 + v * 40) as u8
    }
}

/// The standard xterm 256-color palette entry `i` as RGB.
pub fn xterm256(i: u8) -> (rgb: (u8, u8, u8))
    ensures
        rgb == spec_xterm256(i),
{
    if i < 16 {
        if i == 0 {
            (0, 0, 0)
        } else if i == 1 {
            (205, 0, 0)
        } else if i == 2 {
            (0, 205, 0)
        } else if i == 3 {
            (205, 205, 0)
        } else if i == 4 {
            (0, 0, 238)
        } else if i == 5 {
            (205, 0, 205)
        } else if i == 6 {
            (0, 205, 205)
        } else if i == 7 {
            (229, 229, 229)
        } else if i == 8 {
            (127, 127, 127)
        } else if i == 9 {
            (255, 0, 0)
        } else if i == 10 {
            (0, 255, 0)
        } else if i == 11 {
            (255, 255, 0)
        } else if i == 12 {
            (92, 92, 255)
        } else if i == 13 {
            (255, 0, 255)
        } else if i == 14 {
            (0, 255, 255)
        } else {
            (255, 255, 255)
        }
    } else if i < 232 {
        let j = i - 16;
        let r = j / 36;
        let g = (j % 36) / 6;
        let b = j % 6;
        let sr: u8 = if r == 0 { 0 } else { 55 + r * 40 };
        let sg: u8 = if g == 0 { 0 } else { 55 + g * 40 };
        let sb: u8 = if b == 0 { 0 } else { 55 + b * 40 };
        (sr, sg, sb)
    } else {
        let v = 8 + (i - 232) * 10;
        (v, v, v)
    }
}

/// `rgb(r,g,b)`
pub open spec fn rgb_css(r: u8, g: u8, b: u8) -> Seq<char> {
    "rgb("@ + decimal(r as nat) + ","@ + decimal(g as nat) + ","@ + decimal(b as nat) + ")"@
}

/// The CSS color of a terminal color; `fg` picks which default.
pub open spec fn spec_color_css(c: Color, fg: bool) -> Seq<char> {
    match c {
        Color::Default => if fg {
            DEFAULT_FG@
        } else {
            DEFAULT_BG@
        },
        Color::Rgb(r, g, b) => rgb_css(r, g, b),
        Color::Indexed(i) => {
            let (r, g, b) = spec_xterm256(i);
            rgb_css(r, g, b)
        },
    }
}

fn push_text(out: &mut String, s: &str)
    ensures
        final(out)@ == old(out)@ + s@,
{
    let cs = str_chars(s);
    let mut i: usize = 0;
    while i < cs.len()
        invariant
            i <= cs@.len(),
            cs@ == s@,
            out@ == old(out)@ + cs@.take(i as int),
        decreases cs@.len() - i,
    {
        string_push(out, cs[i]);
        i = i + 1;
        assert(out@ =~= old(out)@ + cs@.take(i as int));
    }
    assert(cs@.take(i as int) =~= cs@);
}

fn rgb_string(r: u8, g: u8, b: u8) -> (s: String)
    ensures
        s@ == rgb_css(r, g, b),
{
    let mut s = String::new();
    push_text(&mut s, "rgb(");
    push_decimal(&mut s, r as u64);
    push_text(&mut s, ",");
    push_decimal(&mut s, g as u64);
    push_text(&mut s, ",");
    push_decimal(&mut s, b as u64);
    push_text(&mut s, ")");
    proof {
        assert(s@ =~= rgb_css(r, g, b));
    }
    s
}

/// The CSS color for a terminal [`Color`]; `is_fg` picks the default.
pub fn color_css(c: Color, is_fg: bool) -> (s: String)
    ensures
        s@ == spec_color_css(c, is_fg),
{
    match c {
        Color::Default => {
            if is_fg {
                DEFAULT_FG.to_owned()
            } else {
                DEFAULT_BG.to_owned()
            }
        },
        Color::Rgb(r, g, b) => rgb_string(r, g, b),
        Color::Indexed(i) => {
            let (r, g, b) = xterm256(i);
            rgb_string(r, g, b)
        },
    }
}

/// The inline style of a cell: its colors (swapped when inverse), then
/// bold, italic and underline.
pub open spec fn spec_cell_style(c: Cell) -> Seq<char> {
    let fg = if c.flags.inverse { spec_color_css(c.bg, false) } else { spec_color_css(c.fg, true) };
    let bg = if c.flags.inverse { spec_color_css(c.fg, true) } else { spec_color_css(c.bg, false) };
    "color:"@ + fg + ";background-color:"@ + bg + ";"@ + (if c.flags.bold {
        "font-weight:bold;"@
    } else {
        Seq::empty()
    }) + (if c.flags.italic {
        "font-style:italic;"@
    } else {
        Seq::empty()
    }) + (if c.flags.underline {
        "text-decoration:underline;"@
    } else {
        Seq::empty()
    })
}

fn cell_style(cell: &Cell) -> (s: String)
    ensures
        s@ == spec_cell_style(*cell),
{
    let mut fg = color_css(cell.fg, true);
    let mut bg = color_css(cell.bg, false);
    if cell.flags.inverse {
        std::mem::swap(&mut fg, &mut bg);
    }
    let mut s = String::new();
    push_text(&mut s, "color:");
    push_text(&mut s, fg.as_str());
    push_text(&mut s, ";background-color:");
    push_text(&mut s, bg.as_str());
    push_text(&mut s, ";");
    if cell.flags.bold {
        push_text(&mut s, "font-weight:bold;");
    }
    if cell.flags.italic {
        push_text(&mut s, "font-style:italic;");
    }
    if cell.flags.underline {
        push_text(&mut s, "text-decoration:underline;");
    }
    proof {
        assert(s@ =~= spec_cell_style(*cell));
    }
    s
}

/// The style suffix of a selected cell.
pub open spec fn selection_tint() -> Seq<char> {
    "background-color:var(--sel-bg,#5b6078);"@
}

/// The style of cell `i` of a row with the selected columns `sel`.
pub open spec fn styled_cell(c: Cell, i: int, sel: Option<(usize, usize)>) -> Seq<char> {
    spec_cell_style(c) + (match sel {
        Some((lo, hi)) => if lo <= i <= hi {
            selection_tint()
        } else {
            Seq::empty()
        },
        None => Seq::empty(),
    })
}

/// The character a cell shows (NUL as a space).
pub open spec fn shown(c: Cell) -> char {
    if c.c == '\0' {
        ' '
    } else {
        c.c
    }
}

/// The runs (style, text) of the first `k` cells of `row`.
pub open spec fn runs_upto(row: Seq<Cell>, sel: Option<(usize, usize)>, k: int) -> Seq<(Seq<char>, Seq<char>)>
    decreases k,
{
    if k <= 0 {
        Seq::empty()
    } else {
        let prev = runs_upto(row, sel, k - 1);
        let st = styled_cell(row[k - 1], k - 1, sel);
        let ch = shown(row[k - 1]);
        if prev.len() > 0 && prev.last().0 == st {
            prev.update(prev.len() - 1, (st, prev.last().1.push(ch)))
        } else {
            prev.push((st, seq![ch]))
        }
    }
}

/// The runs of a row: maximal same-styled stretches; an empty row is one
/// unstyled blank.
pub open spec fn spec_row_runs(row: Seq<Cell>, sel: Option<(usize, usize)>) -> Seq<(Seq<char>, Seq<char>)> {
    let r = runs_upto(row, sel, row.len() as int);
    if r.len() == 0 {
        seq![(Seq::empty(), seq![' '])]
    } else {
        r
    }
}

/// A run as (style, text).
pub open spec fn run_view(r: StyledRun) -> (Seq<char>, Seq<char>) {
    (r.style@, r.text@)
}

fn row_to_runs(row: &[Cell], sel_cols: Option<(usize, usize)>) -> (runs: Vec<StyledRun>)
    ensures
        runs@.map_values(|r: StyledRun| run_view(r)) == spec_row_runs(row@, sel_cols),
{
    let mut runs: Vec<StyledRun> = Vec::new();
    let mut i: usize = 0;
    while i < row.len()
        invariant
            i <= row@.len(),
            runs@.map_values(|r: StyledRun| run_view(r)) == runs_upto(row@, sel_cols, i as int),
        decreases row@.len() - i,
    {
        let cell = &row[i];
        let mut style = cell_style(cell);
        let selected = match sel_cols {
            Some((lo, hi)) => i >= lo && i <= hi,
            None => false,
        };
        if selected {
            push_text(&mut style, "background-color:var(--sel-bg,#5b6078);");
        }
        let ch = if cell.c == '\0' { ' ' } else { cell.c };
        let ghost st = style@;
        let ghost prev = runs@.map_values(|r: StyledRun| run_view(r));
        proof {
            assert(st == styled_cell(row@[i as int], i as int, sel_cols));
        }
        let n = runs.len();
        if n > 0 && crate::text::text_eq(runs[n - 1].style.as_str(), style.as_str()) {
            let mut last = runs.pop().unwrap();
            string_push(&mut last.text, ch);
            runs.push(last);
            proof {
                assert(runs@.map_values(|r: StyledRun| run_view(r)) =~= prev.update(
                    prev.len() - 1,
                    (st, prev.last().1.push(ch)),
                ));
            }
        } else {
            let mut text = String::new();
            string_push(&mut text, ch);
            runs.push(StyledRun { style, text });
            proof {
                assert(text@ =~= seq![ch]);
                assert(runs@.map_values(|r: StyledRun| run_view(r)) =~= prev.push((st, seq![ch])));
            }
        }
        i = i + 1;
    }
    if runs.len() == 0 {
        let mut text = String::new();
        string_push(&mut text, ' ');
        runs.push(StyledRun { style: String::new(), text });
        proof {
            assert(runs@.map_values(|r: StyledRun| run_view(r)) =~= seq![(Seq::<char>::empty(), seq![' '])]);
        }
    }
    runs
}

/// The runs of each row of a viewport, tinting the cells `sel` covers.
pub open spec fn spec_viewport_runs(rows: Seq<Seq<Cell>>, sel: Option<ViewportSelection>) -> Seq<Seq<(Seq<char>, Seq<char>)>> {
    Seq::new(
        rows.len(),
        |r: int|
            spec_row_runs(
                rows[r],
                match sel {
                    Some(s) => spec_cols_for_row(s, r as usize, rows[r].len() as usize),
                    None => None,
                },
            ),
    )
}

/// Coalesce the rows of a viewport into styled runs, tinting the cells
/// covered by `sel`.
pub fn viewport_to_runs_sel(rows: &[Vec<Cell>], sel: Option<ViewportSelection>) -> (v: Vec<Vec<StyledRun>>)
    ensures
        v@.len() == rows@.len(),
        forall|r: int|
            0 <= r < rows@.len() ==> (#[trigger] v@[r])@.map_values(|x: StyledRun| run_view(x))
                == spec_viewport_runs(rows@.map_values(|l: Vec<Cell>| l@), sel)[r],
{
    let mut out: Vec<Vec<StyledRun>> = Vec::new();
    let mut r: usize = 0;
    while r < rows.len()
        invariant
            r <= rows@.len(),
            out@.len() == r,
            forall|k: int|
                0 <= k < r ==> (#[trigger] out@[k])@.map_values(|x: StyledRun| run_view(x))
                    == spec_viewport_runs(rows@.map_values(|l: Vec<Cell>| l@), sel)[k],
        decreases rows@.len() - r,
    {
        let row = &rows[r];
        let cols = match sel {
            Some(s) => s.cols_for_row(r, row.len()),
            None => None,
        };
        out.push(row_to_runs(row.as_slice(), cols));
        r = r + 1;
    }
    out
}


/// The texts of `runs`, joined in order.
pub open spec fn joined_text(runs: Seq<(Seq<char>, Seq<char>)>) -> Seq<char>
    decreases runs.len(),
{
    if runs.len() == 0 {
        Seq::empty()
    } else {
        joined_text(runs.drop_last()) + runs.last().1
    }
}

/// No two neighbouring runs share a style, and no run is empty.
pub open spec fn maximal_runs(runs: Seq<(Seq<char>, Seq<char>)>) -> bool {
    &&& forall|i: int| 0 <= i < runs.len() - 1 ==> (#[trigger] runs[i]).0 != runs[i + 1].0
    &&& forall|i: int| 0 <= i < runs.len() ==> (#[trigger] runs[i]).1.len() > 0
}

proof fn lemma_runs_upto(row: Seq<Cell>, sel: Option<(usize, usize)>, k: int)
    requires
        0 <= k <= row.len(),
    ensures
        joined_text(runs_upto(row, sel, k)) == row.take(k).map_values(|c: Cell| shown(c)),
        maximal_runs(runs_upto(row, sel, k)),
        k > 0 ==> runs_upto(row, sel, k).len() > 0,
    decreases k,
{
    if k == 0 {
        assert(row.take(0).map_values(|c: Cell| shown(c)) =~= Seq::<char>::empty());
    } else {
        lemma_runs_upto(row, sel, k - 1);
        let prev = runs_upto(row, sel, k - 1);
        let st = styled_cell(row[k - 1], k - 1, sel);
        let ch = shown(row[k - 1]);
        let cur = runs_upto(row, sel, k);
        assert(row.take(k).map_values(|c: Cell| shown(c)) =~= row.take(k - 1).map_values(|c: Cell| shown(c)).push(ch));
        if prev.len() > 0 && prev.last().0 == st {
            let t = prev.last().1;
            assert(cur.drop_last() =~= prev.drop_last());
            assert(cur.last() == (st, t.push(ch)));
            assert(joined_text(prev) == joined_text(prev.drop_last()) + t);
            assert(joined_text(cur) =~= joined_text(prev).push(ch));
            assert forall|i: int| 0 <= i < cur.len() - 1 implies (#[trigger] cur[i]).0 != cur[i + 1].0 by {
                assert(prev[i].0 != prev[i + 1].0);
            }
            assert forall|i: int| 0 <= i < cur.len() implies (#[trigger] cur[i]).1.len() > 0 by {
                if i < cur.len() - 1 {
                    assert(cur[i] == prev[i]);
                }
            }
        } else {
            assert(cur.drop_last() =~= prev);
            assert(joined_text(cur) =~= joined_text(prev).push(ch));
            assert forall|i: int| 0 <= i < cur.len() - 1 implies (#[trigger] cur[i]).0 != cur[i + 1].0 by {
                if i < cur.len() - 2 {
                    assert(prev[i].0 != prev[i + 1].0);
                }
            }
            assert forall|i: int| 0 <= i < cur.len() implies (#[trigger] cur[i]).1.len() > 0 by {
                if i < cur.len() - 1 {
                    assert(cur[i] == prev[i]);
                }
            }
        }
    }
}

/// A row is drawn as maximal styled runs: their texts, joined, are the
/// characters the row's cells show, no two neighbouring runs share a style
/// and no run is empty.
pub proof fn law_row_runs_cover_row(row: Seq<Cell>, sel: Option<(usize, usize)>)
    requires
        row.len() > 0,
    ensures
        joined_text(spec_row_runs(row, sel)) == row.map_values(|c: Cell| shown(c)),
        maximal_runs(spec_row_runs(row, sel)),
{
    lemma_runs_upto(row, sel, row.len() as int);
    assert(row.take(row.len() as int) =~= row);
}
} // verus!
