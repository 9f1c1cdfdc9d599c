use rustconn::split_view::{
    dropped_session, unpremultiply_rgba, Orientation, SplitDirection, SplitTerminalView, TerminalPane,
};

#[test]
fn test_split_direction_to_orientation() {
    assert_eq!(
        SplitDirection::Horizontal.to_orientation(),
        Orientation::Vertical
    );
    assert_eq!(
        SplitDirection::Vertical.to_orientation(),
        Orientation::Horizontal
    );
}

#[test]
fn test_terminal_pane_creation() {
    let pane = TerminalPane::new();
    assert_eq!(pane.current_session(), None);
    let other = TerminalPane::with_id(7);
    assert_eq!(other.id(), 7);
    assert_eq!(other.current_session(), None);
}

#[test]
fn new_view_has_one_focused_empty_pane() {
    let view = SplitTerminalView::new();
    assert_eq!(view.pane_count(), 1);
    let ids = view.pane_ids();
    assert_eq!(view.focused_pane_id(), Some(ids[0]));
    assert_eq!(view.get_focused_session(), None);
    assert_eq!(view.session_count(), 0);
}

#[test]
fn split_adds_pane_and_keeps_focus() {
    let mut view = SplitTerminalView::new();
    let first = view.pane_ids()[0];
    assert_eq!(view.split_with_pane_id(SplitDirection::Vertical, 42), Some(42));
    assert_eq!(view.pane_ids(), vec![first, 42]);
    assert_eq!(view.focused_pane_id(), Some(first));
    // The same identifier cannot be used twice.
    assert_eq!(view.split_with_pane_id(SplitDirection::Horizontal, 42), None);
    assert_eq!(view.pane_count(), 2);
    // A random identifier gives a third pane.
    let third = view.split(SplitDirection::Horizontal).unwrap();
    assert_eq!(view.pane_ids(), vec![first, 42, third]);
}

#[test]
fn close_pane_refuses_the_last_one() {
    let mut view = SplitTerminalView::new();
    assert!(!view.close_pane());
    assert_eq!(view.pane_count(), 1);
}

#[test]
fn close_pane_moves_focus_to_replacement() {
    let mut view = SplitTerminalView::new();
    let first = view.pane_ids()[0];
    view.split_with_pane_id(SplitDirection::Vertical, 10);
    view.split_with_pane_id(SplitDirection::Vertical, 20);
    view.set_focused_pane(10);
    assert!(view.close_pane());
    assert_eq!(view.pane_ids(), vec![first, 20]);
    assert_eq!(view.focused_pane_id(), Some(20));
    // Closing the last pane moves the focus to the new last one.
    assert!(view.close_pane());
    assert_eq!(view.pane_ids(), vec![first]);
    assert_eq!(view.focused_pane_id(), Some(first));
}

#[test]
fn focus_cycles_through_panes() {
    let mut view = SplitTerminalView::new();
    let first = view.pane_ids()[0];
    view.split_with_pane_id(SplitDirection::Vertical, 5);
    view.split_with_pane_id(SplitDirection::Vertical, 6);
    assert_eq!(view.focus_next_pane(), Some(5));
    assert_eq!(view.focus_next_pane(), Some(6));
    assert_eq!(view.focus_next_pane(), Some(first));
    assert!(view.focus_pane(6));
    assert_eq!(view.focused_pane_id(), Some(6));
    assert!(!view.focus_pane(99));
    assert_eq!(view.focused_pane_id(), Some(6));
}

#[test]
fn show_session_requires_known_session() {
    let mut view = SplitTerminalView::new();
    assert!(!view.show_session(1));
    view.add_session(1);
    view.add_session(1);
    assert_eq!(view.session_ids(), vec![1]);
    assert!(view.show_session(1));
    assert_eq!(view.get_focused_session(), Some(1));
}

#[test]
fn show_session_swaps_with_pane_showing_it() {
    let mut view = SplitTerminalView::new();
    let first = view.pane_ids()[0];
    view.split_with_pane_id(SplitDirection::Vertical, 2);
    view.add_session(100);
    view.add_session(200);
    assert!(view.show_session(100));
    view.set_focused_pane(2);
    assert!(view.show_session(200));
    // Showing 100 in pane 2 moves 200 to the pane that showed 100.
    assert!(view.show_session(100));
    assert_eq!(view.get_pane_session(2), Some(100));
    assert_eq!(view.get_pane_session(first), Some(200));
}

#[test]
fn show_session_in_pane_focuses_it() {
    let mut view = SplitTerminalView::new();
    let first = view.pane_ids()[0];
    view.split_with_pane_id(SplitDirection::Vertical, 3);
    view.add_session(9);
    assert!(view.show_session_in_pane(3, 9));
    assert_eq!(view.focused_pane_id(), Some(3));
    assert_eq!(view.get_pane_session(3), Some(9));
    assert!(!view.show_session_in_pane(77, 9));
    assert!(!view.show_session_in_pane(first, 8));
    assert_eq!(view.focused_pane_id(), Some(3));
}

#[test]
fn drop_session_focuses_pane_even_for_unknown_session() {
    let mut view = SplitTerminalView::new();
    view.split_with_pane_id(SplitDirection::Vertical, 4);
    view.drop_session_on_pane(4, 55);
    assert_eq!(view.focused_pane_id(), Some(4));
    assert_eq!(view.get_pane_session(4), None);
    view.add_session(55);
    view.drop_session_on_pane(4, 55);
    assert_eq!(view.get_pane_session(4), Some(55));
}

#[test]
fn welcome_clears_focused_pane() {
    let mut view = SplitTerminalView::new();
    view.add_session(1);
    view.show_session(1);
    view.show_welcome_in_focused_pane();
    assert_eq!(view.get_focused_session(), None);
    assert_eq!(view.session_ids(), vec![1]);
}

#[test]
fn clearing_a_session_collapses_the_split() {
    let mut view = SplitTerminalView::new();
    let first = view.pane_ids()[0];
    view.split_with_pane_id(SplitDirection::Vertical, 2);
    view.add_session(10);
    view.add_session(20);
    view.show_session(10);
    view.show_session_in_pane(2, 20);
    view.clear_session_from_panes(20);
    // Only the pane with content stays, and it has the focus.
    assert_eq!(view.pane_ids(), vec![first]);
    assert_eq!(view.focused_pane_id(), Some(first));
    assert_eq!(view.get_focused_session(), Some(10));
    assert_eq!(view.session_ids(), vec![10]);
}

#[test]
fn remove_session_keeps_others_in_order() {
    let mut view = SplitTerminalView::new();
    view.add_session(1);
    view.add_session(2);
    view.add_session(3);
    view.remove_session(2);
    assert_eq!(view.session_ids(), vec![1, 3]);
    assert_eq!(view.session_count(), 2);
}

#[test]
fn unpremultiply_pixels() {
    let premultiplied = vec![
        10, 20, 30, 0, // transparent
        128, 64, 0, 128, // half alpha
        255, 255, 255, 255, // opaque white
        200, 0, 0, 100, // a colour above its alpha keeps the low byte
        1, 2, // a partial pixel is dropped
    ];
    assert_eq!(
        unpremultiply_rgba(&premultiplied),
        vec![0, 0, 0, 0, 255, 127, 0, 128, 255, 255, 255, 255, 254, 0, 0, 100]
    );
    assert!(unpremultiply_rgba(&vec![1, 2, 3]).is_empty());
}

#[test]
fn dropped_text_names_a_session() {
    let id: u128 = 0x67e5_5044_10b1_426f_9247_bb68_0e5f_e0c8;
    assert_eq!(dropped_session("67e55044-10b1-426f-9247-bb680e5fe0c8"), Some(id));
    assert_eq!(dropped_session("not a session"), None);

    let mut view = SplitTerminalView::new();
    let first = view.pane_ids()[0];
    view.split_with_pane_id(SplitDirection::Vertical, 42);
    // Text that names no session changes nothing.
    assert_eq!(view.drop_text_on_pane(42, "hello"), None);
    assert_eq!(view.focused_pane_id(), Some(first));
    // An unknown session: the pane takes the focus and the session is to be
    // looked up; adding it and showing it completes the drop.
    let text = "67e55044-10b1-426f-9247-bb680e5fe0c8";
    assert_eq!(view.drop_text_on_pane(42, text), Some(id));
    assert_eq!(view.focused_pane_id(), Some(42));
    assert_eq!(view.get_pane_session(42), None);
    view.add_session(id);
    assert!(view.show_session_in_pane(42, id));
    assert_eq!(view.get_pane_session(42), Some(id));
    // A known session dropped on another pane shows there at once.
    assert_eq!(view.drop_text_on_pane(first, text), None);
    assert_eq!(view.focused_pane_id(), Some(first));
    assert_eq!(view.get_pane_session(first), Some(id));
}
