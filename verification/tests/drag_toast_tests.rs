use rustconn::drag_drop::{drag_data, drop_action_data, parse_drag_drop, DragDropAction, DropPosition};
use rustconn::toast::{ToastOverlay, ToastType, DEFAULT_TOAST_DURATION_MS, MAX_QUEUED_TOASTS};

const A: &str = "6f9619ff-8b86-d011-b42d-00c04fc964ff";
const B: &str = "00000000-0000-0000-0000-00000000000b";

#[test]
fn drag_data_names_kind_and_id() {
    assert_eq!(drag_data(true, A), format!("group:{A}"));
    assert_eq!(drag_data(false, B), format!("conn:{B}"));
}

#[test]
fn drop_composes_five_parts() {
    let data = drag_data(false, A);
    assert_eq!(
        drop_action_data(&data, B, true, DropPosition::Into),
        Some(format!("conn:{A}:{B}:true:into"))
    );
    assert_eq!(
        drop_action_data(&data, B, false, DropPosition::Before),
        Some(format!("conn:{A}:{B}:false:before"))
    );
    assert_eq!(DropPosition::After.word(), "after");
    // A row is never dropped on itself.
    assert_eq!(drop_action_data(&data, A, true, DropPosition::Into), None);
    // The dragged text must have exactly two parts.
    assert_eq!(drop_action_data("conn", B, true, DropPosition::Into), None);
    assert_eq!(drop_action_data("a:b:c", B, true, DropPosition::Into), None);
}

#[test]
fn window_reads_four_parts() {
    let a = 0x6f9619ff_8b86_d011_b42d_00c04fc964ffu128;
    let b = 0xbu128;
    assert_eq!(
        parse_drag_drop(&format!("conn:{A}:{B}:true")),
        Some(DragDropAction::MoveConnectionToGroup { connection: a, group: b })
    );
    assert_eq!(
        parse_drag_drop(&format!("conn:{A}:{B}:false")),
        Some(DragDropAction::ReorderConnection { connection: a, target: b })
    );
    assert_eq!(
        parse_drag_drop(&format!("group:{A}:{B}:true")),
        Some(DragDropAction::ReorderGroup { group: a, target: b })
    );
    assert_eq!(parse_drag_drop(&format!("doc:{A}:{B}:true")), None);
    assert_eq!(parse_drag_drop(&format!("conn:xyz:{B}:true")), None);
    assert_eq!(parse_drag_drop(&format!("conn:{A}:{B}")), None);
    // What a drop composes has five parts, which the window does not read.
    assert_eq!(parse_drag_drop(&format!("conn:{A}:{B}:true:into")), None);
}

#[test]
fn toast_css_classes() {
    assert_eq!(ToastType::Info.css_class(), "toast-info");
    assert_eq!(ToastType::Success.css_class(), "toast-success");
    assert_eq!(ToastType::Warning.css_class(), "toast-warning");
    assert_eq!(ToastType::Error.css_class(), "toast-error");
}

#[test]
fn first_toast_shows_at_once_others_wait() {
    let mut t = ToastOverlay::new();
    let shown = t.show_toast("hello").unwrap();
    assert_eq!(shown.message, "hello");
    assert_eq!(shown.toast_type, ToastType::Info);
    assert_eq!(shown.duration_ms, DEFAULT_TOAST_DURATION_MS);
    assert!(t.is_showing());
    assert!(t.show_error("second").is_none());
    assert!(t.show_success("third").is_none());
    assert_eq!(t.queued_count(), 2);
    // The animation ends: the oldest waiting toast comes up next.
    let next = t.on_hide_finished().unwrap();
    assert_eq!(next.message, "second");
    assert_eq!(next.toast_type, ToastType::Error);
    assert!(t.is_showing());
    assert_eq!(t.queued_count(), 1);
    assert!(t.show_warning("fourth").is_none());
    assert_eq!(t.on_hide_finished().unwrap().message, "third");
    assert_eq!(t.on_hide_finished().unwrap().message, "fourth");
    // Nothing waits any more: no toast is up.
    assert!(t.on_hide_finished().is_none());
    assert!(!t.is_showing());
    assert_eq!(t.queued_count(), 0);
}

#[test]
fn full_queue_drops_oldest() {
    let mut t = ToastOverlay::default();
    t.show_toast("up");
    for i in 0..(MAX_QUEUED_TOASTS + 2) {
        t.show_toast_with_duration(&format!("m{i}"), ToastType::Info, 10);
    }
    assert_eq!(t.queued_count(), MAX_QUEUED_TOASTS);
    t.hide_toast();
    let next = t.try_show_next().unwrap();
    assert_eq!(next.message, "m2");
    assert_eq!(next.duration_ms, 10);
    t.clear_queue();
    assert_eq!(t.queued_count(), 0);
    assert!(t.is_showing());
    assert!(t.try_show_next().is_none());
}
