use cmux::screen::Color;
use cmux::term::Terminal;

#[test]
fn print_hello_advances_cursor() {
    let mut t = Terminal::new(24, 80);
    t.feed(b"hello");
    assert_eq!(t.cell(0, 0).c, 'h');
    assert_eq!(t.cell(0, 1).c, 'e');
    assert_eq!(t.cell(0, 2).c, 'l');
    assert_eq!(t.cell(0, 3).c, 'l');
    assert_eq!(t.cell(0, 4).c, 'o');
    assert_eq!(t.cursor().col, 5);
    assert_eq!(t.cursor().row, 0);
}

#[test]
fn crlf_moves_to_next_row() {
    let mut t = Terminal::new(24, 80);
    t.feed(b"a\r\nb");
    assert_eq!(t.cell(0, 0).c, 'a');
    assert_eq!(t.cell(1, 0).c, 'b');
    assert_eq!(t.cursor().row, 1);
    assert_eq!(t.cursor().col, 1);
}

#[test]
fn sgr_red_foreground() {
    let mut t = Terminal::new(24, 80);
    t.feed(b"\x1b[31mX");
    assert_eq!(t.cell(0, 0).c, 'X');
    assert_eq!(t.cell(0, 0).fg, Color::Indexed(1));
}

#[test]
fn sgr_bright_bold_256_and_rgb() {
    let mut t = Terminal::new(24, 80);
    // bold (1) + bright green fg (92 -> index 10)
    t.feed(b"\x1b[1;92mA");
    assert_eq!(t.cell(0, 0).fg, Color::Indexed(10));
    assert!(t.cell(0, 0).flags.bold);
    // reset, then 256-color fg index 200
    t.feed(b"\x1b[0m\x1b[38;5;200mB");
    assert_eq!(t.cell(0, 1).fg, Color::Indexed(200));
    assert!(!t.cell(0, 1).flags.bold);
    // truecolor bg
    t.feed(b"\x1b[48;2;10;20;30mC");
    assert_eq!(t.cell(0, 2).bg, Color::Rgb(10, 20, 30));
    // colon-subparam form 38:5:99
    t.feed(b"\x1b[0m\x1b[38:5:99mD");
    assert_eq!(t.cell(0, 3).fg, Color::Indexed(99));
}

#[test]
fn cup_positions_cursor() {
    let mut t = Terminal::new(24, 80);
    t.feed(b"\x1b[3;5HZ");
    assert_eq!(t.cell(2, 4).c, 'Z');
}

#[test]
fn scrollback_accumulates_and_viewport_scrolls_back() {
    let mut t = Terminal::new(2, 6);
    // On a 2-row grid, L0 and L1 scroll into history as L2/L3 arrive.
    t.feed(b"L0\r\nL1\r\nL2\r\nL3");
    assert_eq!(t.scrollback_len(), 2);

    let live = t.viewport(0);
    assert_eq!(live.len(), 2);
    let live_top: String = live[0].iter().map(|c| c.c).collect();
    assert!(live_top.trim_end().starts_with("L2"));

    // Scroll all the way back: the oldest line (L0) is at the top.
    let back = t.viewport(t.scrollback_len());
    let back_top: String = back[0].iter().map(|c| c.c).collect();
    assert!(back_top.trim_end().starts_with("L0"));
}

#[test]
fn search_finds_matches_in_scrollback_and_screen() {
    let mut t = Terminal::new(2, 10);
    // "needle" on the first line scrolls into history; "needle" again live.
    t.feed(b"needle\r\nfiller\r\nneedle");
    let hits = t.search("needle");
    assert_eq!(hits.len(), 2);
    // Case-insensitive, and column reported.
    assert_eq!(t.search("NEEDLE").len(), 2);
    assert_eq!(hits[0].col, 0);
    // First hit is older (lower absolute line) than the second.
    assert!(hits[0].line < hits[1].line);
    assert!(t.search("absent").is_empty());
    assert!(t.search("").is_empty());
}

#[test]
fn alt_screen_does_not_grow_scrollback() {
    let mut t = Terminal::new(2, 6);
    t.feed(b"\x1b[?1049h"); // enter alt screen
    t.feed(b"A\r\nB\r\nC\r\nD");
    assert_eq!(t.scrollback_len(), 0);
}

#[test]
fn wide_char_occupies_two_cells() {
    let mut t = Terminal::new(2, 10);
    t.feed("世界".as_bytes());
    assert_eq!(t.cell(0, 0).c, '世');
    assert_eq!(t.cell(0, 1).c, ' '); // spacer
    assert_eq!(t.cell(0, 2).c, '界');
    assert_eq!(t.cell(0, 3).c, ' '); // spacer
    // Cursor advanced by 2 per wide glyph.
    assert_eq!(t.cursor().col, 4);
    // render_to_string doesn't pad wide glyphs with stray spaces.
    assert!(t.render_to_string().starts_with("世界"));
}

#[test]
fn wide_char_wraps_when_it_cannot_fit() {
    // 3-col grid: 'a' then a wide glyph can't fit in the remaining 2 cols
    // after column 2, so it wraps to the next line.
    let mut t = Terminal::new(2, 3);
    t.feed(b"ab");
    t.feed("世".as_bytes());
    // 'a','b' on row 0; wide glyph wrapped to row 1 col 0.
    assert_eq!(t.cell(1, 0).c, '世');
}

#[test]
fn osc_7_sets_working_directory() {
    let mut t = Terminal::new(3, 10);
    t.feed(b"\x1b]7;file://host/home/me/proj%20x\x07");
    assert_eq!(t.take_cwd().as_deref(), Some("/home/me/proj x"));
    assert!(t.take_cwd().is_none());
    // file:/// (empty host) also works.
    t.feed(b"\x1b]7;file:///srv\x07");
    assert_eq!(t.take_cwd().as_deref(), Some("/srv"));
}

#[test]
fn osc_sets_window_title() {
    let mut t = Terminal::new(3, 10);
    t.feed(b"\x1b]0;my-shell\x07");
    assert_eq!(t.title(), Some("my-shell"));
    assert_eq!(t.take_title().as_deref(), Some("my-shell"));
    assert_eq!(t.title(), None);
}

#[test]
fn osc_9_raises_notification() {
    let mut t = Terminal::new(3, 10);
    t.feed(b"\x1b]9;build finished\x07");
    let n = t.take_notifications();
    assert_eq!(n.len(), 1);
    assert_eq!(n[0], ("Notification".to_string(), "build finished".to_string()));
    assert!(t.take_notifications().is_empty());
}

#[test]
fn osc_777_notify_title_and_body() {
    let mut t = Terminal::new(3, 10);
    t.feed(b"\x1b]777;notify;Agent;needs input\x07");
    let n = t.take_notifications();
    assert_eq!(n, vec![("Agent".to_string(), "needs input".to_string())]);
}

#[test]
fn ed_2_clears_screen() {
    let mut t = Terminal::new(5, 10);
    t.feed(b"hello\r\nworld");
    t.feed(b"\x1b[2J");
    for r in 0..t.rows() {
        for c in 0..t.cols() {
            assert_eq!(t.cell(r, c).c, ' ');
        }
    }
}

#[test]
fn el_erase_start_to_cursor() {
    let mut t = Terminal::new(3, 10);
    t.feed(b"abcdef");
    t.feed(b"\x1b[1;4H"); // row 0, col 3
    t.feed(b"\x1b[1K"); // erase cols 0..=3
    assert_eq!(t.cell(0, 0).c, ' ');
    assert_eq!(t.cell(0, 3).c, ' ');
    assert_eq!(t.cell(0, 4).c, 'e');
}

#[test]
fn bell_flag_set_and_reset() {
    let mut t = Terminal::new(4, 4);
    assert!(!t.bell_rang());
    t.feed(b"\x07");
    assert!(t.bell_rang());
    assert!(t.take_bell());
    assert!(!t.bell_rang());
    assert!(!t.take_bell());
}

#[test]
fn scroll_on_overflow() {
    let mut t = Terminal::new(2, 5);
    t.feed(b"one\r\ntwo\r\nthree");
    // After 3 lines on a 2-row grid, "one" scrolled off.
    assert_eq!(t.cell(0, 0).c, 't');
    assert_eq!(t.cell(0, 1).c, 'w');
    assert_eq!(t.cell(0, 2).c, 'o');
    assert_eq!(t.cell(1, 0).c, 't');
    assert_eq!(t.cell(1, 4).c, 'e');
}

#[test]
fn render_to_string_trims_and_joins() {
    let mut t = Terminal::new(3, 10);
    t.feed(b"hi\r\nthere");
    assert_eq!(t.render_to_string(), "hi\nthere\n");
}

#[test]
fn backspace_and_tab() {
    let mut t = Terminal::new(2, 20);
    t.feed(b"ab\x08");
    assert_eq!(t.cursor().col, 1);
    t.feed(b"\x1b[1;1H\t");
    assert_eq!(t.cursor().col, 8);
}

#[test]
fn cursor_movement_csi() {
    let mut t = Terminal::new(10, 10);
    t.feed(b"\x1b[5;5H"); // row 4 col 4
    t.feed(b"\x1b[2A"); // up 2 -> row 2
    assert_eq!(t.cursor().row, 2);
    t.feed(b"\x1b[3B"); // down 3 -> row 5
    assert_eq!(t.cursor().row, 5);
    t.feed(b"\x1b[2C"); // forward 2 -> col 6
    assert_eq!(t.cursor().col, 6);
    t.feed(b"\x1b[4D"); // back 4 -> col 2
    assert_eq!(t.cursor().col, 2);
}

#[test]
fn resize_preserves_content_and_clamps_cursor() {
    let mut t = Terminal::new(5, 10);
    t.feed(b"hello");
    t.resize(3, 4);
    assert_eq!(t.rows(), 3);
    assert_eq!(t.cols(), 4);
    assert_eq!(t.cell(0, 0).c, 'h');
    assert_eq!(t.cell(0, 3).c, 'l');
    // cursor col was 5, clamped to 3.
    assert_eq!(t.cursor().col, 3);
}

#[test]
fn wrap_at_end_of_row() {
    let mut t = Terminal::new(3, 3);
    t.feed(b"abcd");
    assert_eq!(t.cell(0, 0).c, 'a');
    assert_eq!(t.cell(0, 2).c, 'c');
    assert_eq!(t.cell(1, 0).c, 'd');
    assert_eq!(t.cursor().row, 1);
    assert_eq!(t.cursor().col, 1);
}

#[test]
fn cursor_visibility_toggle() {
    let mut t = Terminal::new(4, 4);
    assert!(t.cursor().visible);
    t.feed(b"\x1b[?25l");
    assert!(!t.cursor().visible);
    t.feed(b"\x1b[?25h");
    assert!(t.cursor().visible);
}

#[test]
fn row_accessor_matches_cells() {
    let mut t = Terminal::new(2, 4);
    t.feed(b"hi");
    let r0 = t.row(0);
    assert_eq!(r0.len(), 4);
    assert_eq!(r0[0].c, 'h');
    assert_eq!(r0[1].c, 'i');
    assert_eq!(r0[2].c, ' ');
}

// ---- New behavior tests ----

fn row_str(t: &Terminal, n: usize) -> String {
    t.row(n)
        .iter()
        .map(|c| c.c)
        .collect::<String>()
        .trim_end_matches(' ')
        .to_string()
}

#[test]
fn alt_screen_save_and_restore() {
    let mut t = Terminal::new(5, 20);
    t.feed(b"primary");
    assert!(!t.is_alt_screen());
    // Enter alternate screen (1049): saves primary + cursor, clears alt.
    t.feed(b"\x1b[?1049h");
    assert!(t.is_alt_screen());
    assert_eq!(row_str(&t, 0), ""); // alt buffer starts blank
    t.feed(b"\x1b[1;1Halt");
    assert_eq!(row_str(&t, 0), "alt");
    // Leave: primary content restored, cursor restored.
    t.feed(b"\x1b[?1049l");
    assert!(!t.is_alt_screen());
    assert_eq!(row_str(&t, 0), "primary");
    assert_eq!(t.cursor().col, 7);
    assert_eq!(t.cursor().row, 0);
}

#[test]
fn alt_screen_47_no_cursor_save() {
    let mut t = Terminal::new(5, 20);
    t.feed(b"primary");
    t.feed(b"\x1b[?47h");
    assert!(t.is_alt_screen());
    t.feed(b"alt");
    assert_eq!(row_str(&t, 0), "alt");
    t.feed(b"\x1b[?47l");
    assert!(!t.is_alt_screen());
    assert_eq!(row_str(&t, 0), "primary");
}

#[test]
fn decsc_decrc_save_restore_cursor() {
    let mut t = Terminal::new(10, 10);
    t.feed(b"\x1b[3;5H"); // row 2 col 4
    t.feed(b"\x1b7"); // DECSC
    t.feed(b"\x1b[8;8H"); // move elsewhere row 7 col 7
    assert_eq!(t.cursor().row, 7);
    assert_eq!(t.cursor().col, 7);
    t.feed(b"\x1b8"); // DECRC
    assert_eq!(t.cursor().row, 2);
    assert_eq!(t.cursor().col, 4);
}

#[test]
fn csi_s_u_save_restore_cursor() {
    let mut t = Terminal::new(10, 10);
    t.feed(b"\x1b[2;3H"); // row 1 col 2
    t.feed(b"\x1b[s"); // save
    t.feed(b"\x1b[9;9H");
    t.feed(b"\x1b[u"); // restore
    assert_eq!(t.cursor().row, 1);
    assert_eq!(t.cursor().col, 2);
}

#[test]
fn scroll_region_only_scrolls_region() {
    // 6 rows. Margins rows 2..4 (1-based) -> 0-based 1..3.
    let mut t = Terminal::new(6, 10);
    t.feed(b"r0\r\nr1\r\nr2\r\nr3\r\nr4\r\nr5");
    t.feed(b"\x1b[2;4r"); // DECSTBM rows 2..4 (homes cursor to 0,0)
    // Move to bottom margin (row 3, 0-based) and line feed to scroll region.
    t.feed(b"\x1b[4;1H"); // row 3 col 0
    t.feed(b"\nNEW");
    // Rows outside the region are untouched.
    assert_eq!(row_str(&t, 0), "r0");
    assert_eq!(row_str(&t, 4), "r4");
    assert_eq!(row_str(&t, 5), "r5");
    // Region scrolled up: old r2 gone, r3 moved up, NEW at bottom margin.
    assert_eq!(row_str(&t, 1), "r2");
    assert_eq!(row_str(&t, 2), "r3");
    assert_eq!(row_str(&t, 3), "NEW");
}

#[test]
fn reverse_index_scrolls_region_down_at_top() {
    let mut t = Terminal::new(6, 10);
    t.feed(b"r0\r\nr1\r\nr2\r\nr3\r\nr4\r\nr5");
    t.feed(b"\x1b[2;4r"); // margins 0-based 1..3
    t.feed(b"\x1b[2;1H"); // top margin row 1 col 0
    t.feed(b"\x1bM"); // RI at top margin -> scroll region down
    // Top margin now blank, contents pushed down within region.
    assert_eq!(row_str(&t, 0), "r0"); // outside untouched
    assert_eq!(row_str(&t, 1), ""); // new blank at top margin
    assert_eq!(row_str(&t, 2), "r1");
    assert_eq!(row_str(&t, 3), "r2");
    assert_eq!(row_str(&t, 4), "r4"); // outside untouched (r3 fell off region)
}

#[test]
fn ind_and_nel() {
    let mut t = Terminal::new(5, 10);
    t.feed(b"\x1b[2;5Hx"); // row 1, col 4 -> 'x', cursor col 5
    t.feed(b"\x1bD"); // IND: down one, keep column
    assert_eq!(t.cursor().row, 2);
    assert_eq!(t.cursor().col, 5);
    t.feed(b"\x1bE"); // NEL: down one + col 0
    assert_eq!(t.cursor().row, 3);
    assert_eq!(t.cursor().col, 0);
}

#[test]
fn il_dl_within_region() {
    let mut t = Terminal::new(5, 10);
    t.feed(b"a\r\nb\r\nc\r\nd\r\ne");
    // Insert a line at row 1 (1-based row 2).
    t.feed(b"\x1b[2;1H"); // row 1
    t.feed(b"\x1b[L"); // IL 1
    assert_eq!(row_str(&t, 0), "a");
    assert_eq!(row_str(&t, 1), ""); // inserted blank
    assert_eq!(row_str(&t, 2), "b");
    assert_eq!(row_str(&t, 3), "c");
    assert_eq!(row_str(&t, 4), "d"); // 'e' pushed off bottom

    // Now delete the blank line we inserted.
    t.feed(b"\x1b[2;1H");
    t.feed(b"\x1b[M"); // DL 1
    assert_eq!(row_str(&t, 0), "a");
    assert_eq!(row_str(&t, 1), "b");
    assert_eq!(row_str(&t, 2), "c");
    assert_eq!(row_str(&t, 3), "d");
}

#[test]
fn ich_dch_ech() {
    // ICH: insert blanks shifting right.
    let mut t = Terminal::new(2, 10);
    t.feed(b"abcdef");
    t.feed(b"\x1b[1;3H"); // col 2 ('c')
    t.feed(b"\x1b[2@"); // insert 2 blanks
    assert_eq!(row_str(&t, 0), "ab  cdef");

    // DCH: delete chars shifting left.
    let mut t = Terminal::new(2, 10);
    t.feed(b"abcdef");
    t.feed(b"\x1b[1;3H"); // col 2 ('c')
    t.feed(b"\x1b[2P"); // delete 2 chars
    assert_eq!(row_str(&t, 0), "abef");

    // ECH: erase in place.
    let mut t = Terminal::new(2, 10);
    t.feed(b"abcdef");
    t.feed(b"\x1b[1;3H"); // col 2 ('c')
    t.feed(b"\x1b[2X"); // erase 2 chars
    assert_eq!(t.cell(0, 0).c, 'a');
    assert_eq!(t.cell(0, 1).c, 'b');
    assert_eq!(t.cell(0, 2).c, ' ');
    assert_eq!(t.cell(0, 3).c, ' ');
    assert_eq!(t.cell(0, 4).c, 'e');
}

#[test]
fn deferred_wrap_no_premature_blank_line() {
    let mut t = Terminal::new(3, 5);
    t.feed(b"abcde"); // exactly fills row 0; cursor pending at end of row 0
    // The 5 chars are on row 0, nothing wrapped yet.
    assert_eq!(row_str(&t, 0), "abcde");
    assert_eq!(row_str(&t, 1), "");
    assert_eq!(t.cursor().row, 0); // still on row 0 (pending wrap)
    // One more char wraps to row 1 col 0.
    t.feed(b"f");
    assert_eq!(t.cell(1, 0).c, 'f');
    assert_eq!(t.cursor().row, 1);
    assert_eq!(t.cursor().col, 1);
}

#[test]
fn autowrap_disabled_overwrites_in_place() {
    let mut t = Terminal::new(3, 5);
    t.feed(b"\x1b[?7l"); // disable autowrap
    t.feed(b"abcdeXYZ"); // last col keeps overwriting
    assert_eq!(row_str(&t, 0), "abcdZ"); // 'Z' is the last written
    assert_eq!(row_str(&t, 1), ""); // never wrapped
}

#[test]
fn sgr_reset_attributes() {
    let mut t = Terminal::new(2, 20);
    // Set all, then clear each.
    t.feed(b"\x1b[1;3;4;7mA"); // bold italic underline inverse
    let a = *t.cell(0, 0);
    assert!(a.flags.bold && a.flags.italic && a.flags.underline && a.flags.inverse);
    t.feed(b"\x1b[22mB"); // clear bold/faint
    assert!(!t.cell(0, 1).flags.bold);
    assert!(t.cell(0, 1).flags.italic); // others remain
    t.feed(b"\x1b[23mC"); // clear italic
    assert!(!t.cell(0, 2).flags.italic);
    t.feed(b"\x1b[24mD"); // clear underline
    assert!(!t.cell(0, 3).flags.underline);
    t.feed(b"\x1b[27mE"); // clear inverse
    assert!(!t.cell(0, 4).flags.inverse);
    // faint (2) does not error and 0 resets all.
    t.feed(b"\x1b[1;2;4m\x1b[0mF");
    let f = *t.cell(0, 5);
    assert!(!f.flags.bold && !f.flags.underline && !f.flags.italic && !f.flags.inverse);
}

#[test]
fn viewport_windows_over_scrollback_then_screen() {
    let mut t = Terminal::new(2, 6);
    t.feed(b"L0\r\nL1\r\nL2\r\nL3");
    let live = t.viewport(0);
    assert_eq!(live.len(), 2);
    assert!(live.iter().all(|r| r.len() == 6));
    assert_eq!(live[0][0].c, 'L');
    assert_eq!(live[0][1].c, '2');
    assert_eq!(t.viewport(2)[0][1].c, '0');
    assert_eq!(t.viewport(99)[0][1].c, t.viewport(t.scrollback_len())[0][1].c);
    for i in 0..2 {
        assert_eq!(t.viewport(0)[i].as_slice(), t.row(i));
    }
}
