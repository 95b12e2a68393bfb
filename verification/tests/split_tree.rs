use cmux::ids::PaneId;
use cmux::split::{FocusDir, Orientation, Rect, SplitTree};

// Ratios are in ten-thousandths of the whole: 2500 is a quarter.

#[test]
fn single_then_split_horizontal() {
    let mut t = SplitTree::single(PaneId(1));
    assert_eq!(t.leaves(), vec![PaneId(1)]);
    assert!(t.split(PaneId(1), PaneId(2), Orientation::Horizontal, false));
    assert_eq!(t.leaves(), vec![PaneId(1), PaneId(2)]);
}

#[test]
fn split_before_inserts_first() {
    let mut t = SplitTree::single(PaneId(1));
    t.split(PaneId(1), PaneId(2), Orientation::Vertical, true);
    assert_eq!(t.leaves(), vec![PaneId(2), PaneId(1)]);
}

#[test]
fn split_unknown_target_is_noop() {
    let mut t = SplitTree::single(PaneId(1));
    assert!(!t.split(PaneId(99), PaneId(2), Orientation::Horizontal, false));
    assert_eq!(t.leaves(), vec![PaneId(1)]);
}

#[test]
fn close_collapses_to_sibling() {
    let mut t = SplitTree::single(PaneId(1));
    t.split(PaneId(1), PaneId(2), Orientation::Horizontal, false);
    t.split(PaneId(2), PaneId(3), Orientation::Vertical, false);
    assert_eq!(t.leaves(), vec![PaneId(1), PaneId(2), PaneId(3)]);
    assert!(t.close(PaneId(2)));
    assert_eq!(t.leaves(), vec![PaneId(1), PaneId(3)]);
}

#[test]
fn close_last_pane_empties_tree() {
    let mut t = SplitTree::single(PaneId(1));
    assert!(t.close(PaneId(1)));
    assert!(t.is_empty());
    assert!(!t.close(PaneId(1)));
}

#[test]
fn layout_splits_space_by_ratio() {
    let mut t = SplitTree::single(PaneId(1));
    t.split(PaneId(1), PaneId(2), Orientation::Horizontal, false);
    let layout = t.layout(Rect::new(0, 0, 100, 50));
    let r1 = layout.iter().find(|(p, _)| *p == PaneId(1)).unwrap().1;
    let r2 = layout.iter().find(|(p, _)| *p == PaneId(2)).unwrap().1;
    assert_eq!((r1.x, r1.w), (0, 50));
    assert_eq!((r2.x, r2.w), (50, 50));
    assert_eq!(r1.h, 50);
}

#[test]
fn set_ratio_changes_layout() {
    let mut t = SplitTree::single(PaneId(1));
    t.split(PaneId(1), PaneId(2), Orientation::Horizontal, false);
    assert!(t.set_ratio_for(PaneId(1), 2500));
    let layout = t.layout(Rect::new(0, 0, 100, 100));
    let r1 = layout.iter().find(|(p, _)| *p == PaneId(1)).unwrap().1;
    assert_eq!(r1.w, 25);
}

#[test]
fn ratio_is_clamped() {
    let mut t = SplitTree::single(PaneId(1));
    t.split(PaneId(1), PaneId(2), Orientation::Horizontal, false);
    t.set_ratio_for(PaneId(1), 50000);
    let layout = t.layout(Rect::new(0, 0, 100, 100));
    let r1 = layout.iter().find(|(p, _)| *p == PaneId(1)).unwrap().1;
    assert_eq!(r1.w, 95);
}

#[test]
fn dividers_enumerated_with_indices() {
    let mut t = SplitTree::single(PaneId(1));
    t.split(PaneId(1), PaneId(2), Orientation::Horizontal, false);
    t.split(PaneId(2), PaneId(3), Orientation::Vertical, false);
    let d = t.dividers(Rect::new(0, 0, 1, 1));
    assert_eq!(d.len(), 2);
    assert_eq!(d[0].split_index, 0);
    assert_eq!(d[0].orientation, Orientation::Horizontal);
    assert_eq!(d[1].split_index, 1);
    assert_eq!(d[1].orientation, Orientation::Vertical);
}

#[test]
fn set_ratio_by_index_changes_layout() {
    let mut t = SplitTree::single(PaneId(1));
    t.split(PaneId(1), PaneId(2), Orientation::Horizontal, false);
    assert!(t.set_ratio_by_index(0, 2500));
    let layout = t.layout(Rect::new(0, 0, 100, 100));
    let r1 = layout.iter().find(|(p, _)| *p == PaneId(1)).unwrap().1;
    assert_eq!(r1.w, 25);
    assert!(!t.set_ratio_by_index(9, 5000));
}

#[test]
fn set_ratio_by_index_is_clamped() {
    let mut t = SplitTree::single(PaneId(1));
    t.split(PaneId(1), PaneId(2), Orientation::Horizontal, false);
    t.set_ratio_by_index(0, 50000);
    let d = t.dividers(Rect::new(0, 0, 1, 1));
    assert_eq!(d[0].ratio, 9500);
}

#[test]
fn equalize_resets_all_ratios() {
    let mut t = SplitTree::single(PaneId(1));
    t.split(PaneId(1), PaneId(2), Orientation::Horizontal, false);
    t.split(PaneId(2), PaneId(3), Orientation::Vertical, false);
    t.set_ratio_by_index(0, 2000);
    t.set_ratio_by_index(1, 8000);
    t.equalize();
    let d = t.dividers(Rect::new(0, 0, 1, 1));
    assert!(d.iter().all(|d| d.ratio == 5000));
}

#[test]
fn neighbor_navigation_horizontal() {
    let mut t = SplitTree::single(PaneId(1));
    t.split(PaneId(1), PaneId(2), Orientation::Horizontal, false);
    assert_eq!(t.neighbor(PaneId(1), FocusDir::Right), Some(PaneId(2)));
    assert_eq!(t.neighbor(PaneId(2), FocusDir::Left), Some(PaneId(1)));
    assert_eq!(t.neighbor(PaneId(1), FocusDir::Left), None);
    assert_eq!(t.neighbor(PaneId(1), FocusDir::Up), None);
}

#[test]
fn neighbor_navigation_grid() {
    let mut t = SplitTree::single(PaneId(1));
    t.split(PaneId(1), PaneId(2), Orientation::Horizontal, false);
    t.split(PaneId(1), PaneId(3), Orientation::Vertical, false);
    t.split(PaneId(2), PaneId(4), Orientation::Vertical, false);
    assert_eq!(t.neighbor(PaneId(1), FocusDir::Right), Some(PaneId(2)));
    assert_eq!(t.neighbor(PaneId(1), FocusDir::Down), Some(PaneId(3)));
    assert_eq!(t.neighbor(PaneId(4), FocusDir::Left), Some(PaneId(3)));
    assert_eq!(t.neighbor(PaneId(4), FocusDir::Up), Some(PaneId(2)));
}

#[test]
fn split_then_close_restores_leaves() {
    let mut t = SplitTree::single(PaneId(1));
    t.split(PaneId(1), PaneId(2), Orientation::Horizontal, false);
    let before = t.leaves();
    assert!(t.split(PaneId(2), PaneId(7), Orientation::Vertical, true));
    assert!(t.close(PaneId(7)));
    assert_eq!(t.leaves(), before);
}

#[test]
fn layout_vertical_and_first_leaf() {
    let mut t = SplitTree::single(PaneId(1));
    t.split(PaneId(1), PaneId(2), Orientation::Vertical, false);
    let layout = t.layout(Rect::new(10, 20, 30, 41));
    assert_eq!(layout[0], (PaneId(1), Rect::new(10, 20, 30, 20)));
    assert_eq!(layout[1], (PaneId(2), Rect::new(10, 40, 30, 21)));
    assert_eq!(t.first_leaf(), Some(PaneId(1)));
    assert!(t.swap(PaneId(1), PaneId(2)));
    assert_eq!(t.leaves(), vec![PaneId(2), PaneId(1)]);
    assert!(!t.swap(PaneId(1), PaneId(9)));
}
