use cmux::palette::{all_actions, filter_actions, PaletteAction};
use cmux::render::{color_css, viewport_to_runs_sel, xterm256, ViewportSelection, DEFAULT_BG, DEFAULT_FG};
use cmux::screen::Color;
use cmux::shortcuts::default_shortcuts;
use cmux::term::Terminal;

fn actions() -> Vec<PaletteAction> {
    all_actions(&default_shortcuts())
}

#[test]
fn registry_includes_core_actions_with_shortcuts() {
    let a = actions();
    let split = a.iter().find(|x| x.id == "splitHorizontal").unwrap();
    assert_eq!(split.shortcut.as_deref(), Some("ctrl+shift+d"));
}

#[test]
fn empty_query_returns_all_in_order() {
    let a = actions();
    let f = filter_actions("", &a);
    assert_eq!(f.len(), a.len());
    assert_eq!(f[0].id, a[0].id);
}

#[test]
fn query_matches_subsequence() {
    let a = actions();
    let f = filter_actions("split", &a);
    assert!(f.len() >= 2);
    assert!(f.iter().all(|x| x.label.to_lowercase().contains("split")));
}

#[test]
fn contiguous_match_outranks_scattered() {
    let a = actions();
    let f = filter_actions("newt", &a);
    assert_eq!(f.first().unwrap().id, "newTab");
}

#[test]
fn nonmatching_query_is_empty() {
    let a = actions();
    assert!(filter_actions("zzzzz", &a).is_empty());
}

#[test]
fn filter_is_case_insensitive_and_stable() {
    let a = vec![
        PaletteAction { id: "a".into(), label: "Beta".into(), shortcut: None },
        PaletteAction { id: "b".into(), label: "bet".into(), shortcut: None },
        PaletteAction { id: "c".into(), label: "Gamma".into(), shortcut: None },
    ];
    let f = filter_actions("BET", &a);
    let ids: Vec<&str> = f.iter().map(|x| x.id.as_str()).collect();
    assert_eq!(ids, vec!["a", "b"]);
}

#[test]
fn palette_cube_and_grayscale() {
    assert_eq!(xterm256(0), (0, 0, 0));
    assert_eq!(xterm256(15), (255, 255, 255));
    assert_eq!(xterm256(16), (0, 0, 0));
    assert_eq!(xterm256(21), (0, 0, 255));
    assert!(xterm256(232).0 < xterm256(255).0);
}

#[test]
fn xterm256_exact_values() {
    assert_eq!(xterm256(1), (205, 0, 0));
    assert_eq!(xterm256(196), (255, 0, 0));
    assert_eq!(xterm256(232), (8, 8, 8));
    assert_eq!(xterm256(255), (238, 238, 238));
}

#[test]
fn default_colors_use_theme_variables() {
    assert_eq!(color_css(Color::Default, true), DEFAULT_FG);
    assert_eq!(color_css(Color::Default, false), DEFAULT_BG);
    assert!(color_css(Color::Default, true).starts_with("var(--term-fg"));
    assert_eq!(color_css(Color::Rgb(1, 2, 3), true), "rgb(1,2,3)");
}

#[test]
fn runs_coalesce_same_style() {
    let mut term = Terminal::new(1, 10);
    term.feed(b"hello");
    let runs = viewport_to_runs_sel(&term.viewport(0), None);
    assert_eq!(runs.len(), 1);
    assert!(runs[0][0].text.starts_with("hello"));
}

#[test]
fn selection_cols_per_row() {
    let s = ViewportSelection::new((0, 2), (2, 4));
    assert_eq!(s.cols_for_row(0, 10), Some((2, 9)));
    assert_eq!(s.cols_for_row(1, 10), Some((0, 9)));
    assert_eq!(s.cols_for_row(2, 10), Some((0, 4)));
    assert_eq!(s.cols_for_row(3, 10), None);
    let one = ViewportSelection::new((1, 5), (1, 2));
    assert_eq!(one.cols_for_row(1, 10), Some((2, 5)));
}

#[test]
fn selection_tints_runs() {
    let mut term = Terminal::new(1, 6);
    term.feed(b"abcdef");
    let sel = ViewportSelection::new((0, 1), (0, 3));
    let runs = viewport_to_runs_sel(&term.viewport(0), Some(sel));
    let joined: String = runs[0].iter().map(|r| r.text.clone()).collect();
    assert_eq!(joined, "abcdef");
    assert!(runs[0].iter().any(|r| r.style.contains("--sel-bg")));
    assert!(runs[0].iter().any(|r| !r.style.contains("--sel-bg")));
}

#[test]
fn color_change_splits_runs() {
    let mut term = Terminal::new(1, 10);
    term.feed(b"a\x1b[31mb");
    let runs = viewport_to_runs_sel(&term.viewport(0), None);
    assert!(runs[0].len() >= 2);
    assert!(runs[0][0].text.starts_with('a'));
}

#[test]
fn runs_join_to_the_row_text() {
    let mut t = Terminal::new(2, 12);
    t.feed(b"ab\x1b[31mcd\x1b[1mef\x1b[0mgh");
    let vp = t.viewport(0);
    let runs = viewport_to_runs_sel(&vp, None);
    let joined: String = runs[0].iter().map(|r| r.text.as_str()).collect();
    assert_eq!(joined, "abcdefgh    ");
    for w in runs[0].windows(2) {
        assert_ne!(w[0].style, w[1].style);
    }
    assert!(runs[0].iter().all(|r| !r.text.is_empty()));
}

#[test]
fn blank_query_returns_every_action() {
    let a = actions();
    let f = filter_actions("   ", &a);
    assert_eq!(f.len(), a.len());
    for (x, y) in f.iter().zip(a.iter()) {
        assert_eq!(x.id, y.id);
    }
}
