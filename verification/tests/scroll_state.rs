use firefam::scroll_state::ScrollState;

#[test]
fn new_state_selects_nothing() {
    let s = ScrollState::new();
    assert_eq!(s.selected_idx, None);
    assert_eq!(s.scroll_top, 0);
}

#[test]
fn clamp_selection_selects_first_row_of_nonempty_list() {
    let mut s = ScrollState::new();
    s.clamp_selection(3);
    assert_eq!(s.selected_idx, Some(0));
}

#[test]
fn clamp_selection_pulls_selection_into_range() {
    let mut s = ScrollState { selected_idx: Some(7), scroll_top: 2 };
    s.clamp_selection(3);
    assert_eq!(s.selected_idx, Some(2));
    assert_eq!(s.scroll_top, 2);
}

#[test]
fn clamp_selection_on_empty_list_clears_everything() {
    let mut s = ScrollState { selected_idx: Some(1), scroll_top: 4 };
    s.clamp_selection(0);
    assert_eq!(s.selected_idx, None);
    assert_eq!(s.scroll_top, 0);
}

#[test]
fn move_up_wraps_to_last_row() {
    let mut s = ScrollState { selected_idx: Some(0), scroll_top: 0 };
    s.move_up_wrap(4);
    assert_eq!(s.selected_idx, Some(3));
}

#[test]
fn move_down_wraps_to_first_row() {
    let mut s = ScrollState { selected_idx: Some(3), scroll_top: 0 };
    s.move_down_wrap(4);
    assert_eq!(s.selected_idx, Some(0));
}

#[test]
fn move_down_then_up_restores_selection() {
    let mut s = ScrollState { selected_idx: Some(2), scroll_top: 0 };
    s.move_down_wrap(5);
    assert_eq!(s.selected_idx, Some(3));
    s.move_up_wrap(5);
    assert_eq!(s.selected_idx, Some(2));
}

#[test]
fn move_without_selection_selects_first_row() {
    let mut down = ScrollState::new();
    down.move_down_wrap(4);
    assert_eq!(down.selected_idx, Some(0));
    let mut up = ScrollState::new();
    up.move_up_wrap(4);
    assert_eq!(up.selected_idx, Some(0));
}

#[test]
fn ensure_visible_scrolls_down_to_selection() {
    let mut s = ScrollState { selected_idx: Some(9), scroll_top: 0 };
    s.ensure_visible(12, 8);
    assert_eq!(s.scroll_top, 2);
}

#[test]
fn ensure_visible_scrolls_up_to_selection() {
    let mut s = ScrollState { selected_idx: Some(1), scroll_top: 4 };
    s.ensure_visible(12, 8);
    assert_eq!(s.scroll_top, 1);
}

#[test]
fn ensure_visible_keeps_window_holding_selection() {
    let mut s = ScrollState { selected_idx: Some(5), scroll_top: 3 };
    s.ensure_visible(12, 8);
    assert_eq!(s.scroll_top, 3);
}
