use starmap::{matches_folded, Projection, Selection};

#[test]
fn projection_axes() {
    assert_eq!(Projection::XY.axes(), (0, 1));
    assert_eq!(Projection::XZ.axes(), (0, 2));
    assert_eq!(Projection::YZ.axes(), (1, 2));
}

#[test]
fn last_hit_wins_and_selection_is_sticky() {
    let mut s = Selection::new();
    s.update_hover(&vec![false, true, false, true, false]);
    assert_eq!(s.hovered, Some(3));
    assert_eq!(s.selected, None);
    s.click();
    assert_eq!(s.selected, Some(3));
    s.update_hover(&vec![true, false]);
    assert_eq!(s.hovered, Some(0));
    assert_eq!(s.selected, Some(3));
    s.update_hover(&vec![false, false]);
    assert_eq!(s.hovered, None);
    s.click();
    assert_eq!(s.selected, None);
    s.select(7);
    assert_eq!(s.selected, Some(7));
}

#[test]
fn folded_matching() {
    assert!(matches_folded("uv", "benten", "uv-351"));
    assert!(matches_folded("ben", "benten", "uv-351"));
    assert!(matches_folded("", "x", "y"));
    assert!(!matches_folded("UV", "benten", "uv-351"));
    assert!(!matches_folded("longer than both", "a", "b"));
}
