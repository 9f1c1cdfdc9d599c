use rustconn::sidebar::{
    document_placement, get_expanded_groups, should_expand_row, get_selected_ids, item_presentation, key_outcome, opens_history,
    is_row_widget_group_or_document, row_is_group, select_item_by_id, status_icon, ConnectionItem, ConnectionSidebar, KeyOutcome, PreSearchState,
    ProtocolFilter, SearchChange, SidebarKey, MAX_SEARCH_HISTORY,
};
use rustconn::sidebar_tree::{find_item_in_children, update_item_status_recursive};
use rustconn::sidebar_ui::{get_protocol_icon, item_menu_entries};

#[test]
fn session_counts_and_statuses() {
    let mut sb = ConnectionSidebar::new();
    assert_eq!(sb.get_session_count("a"), 0);
    assert_eq!(sb.get_connection_status("a"), None);
    sb.increment_session_count("a");
    sb.increment_session_count("a");
    assert_eq!(sb.get_session_count("a"), 2);
    assert_eq!(sb.get_connection_status("a"), Some("connected".to_string()));
    // One session closes: the status stays.
    assert_eq!(sb.decrement_session_count("a", true), "connected");
    assert_eq!(sb.get_session_count("a"), 1);
    // The last one closes with a failure.
    assert_eq!(sb.decrement_session_count("a", true), "failed");
    assert_eq!(sb.get_session_count("a"), 0);
    // Unknown connections read as disconnected and stay unrecorded.
    assert_eq!(sb.decrement_session_count("b", false), "disconnected");
    assert_eq!(sb.get_connection_status("b"), None);
}

#[test]
fn status_update_keeps_count() {
    let mut sb = ConnectionSidebar::new();
    sb.increment_session_count("x");
    sb.update_connection_status("x", "connecting");
    assert_eq!(sb.get_connection_status("x"), Some("connecting".to_string()));
    assert_eq!(sb.get_session_count("x"), 1);
    sb.update_connection_status("y", "failed");
    assert_eq!(sb.get_session_count("y"), 0);
    assert_eq!(sb.decrement_session_count("x", false), "disconnected");
}

#[test]
fn search_history_most_recent_first_without_repeats() {
    let mut sb = ConnectionSidebar::new();
    sb.add_to_search_history("alpha");
    sb.add_to_search_history("beta");
    sb.add_to_search_history("   ");
    sb.add_to_search_history("alpha");
    assert_eq!(sb.get_search_history(), vec!["alpha".to_string(), "beta".to_string()]);
    sb.clear_search_history();
    assert!(sb.get_search_history().is_empty());
}

#[test]
fn search_history_is_bounded() {
    let mut sb = ConnectionSidebar::new();
    for i in 0..(MAX_SEARCH_HISTORY + 5) {
        sb.add_to_search_history(&format!("q{i}"));
    }
    let h = sb.get_search_history();
    assert_eq!(h.len(), MAX_SEARCH_HISTORY);
    assert_eq!(h[0], format!("q{}", MAX_SEARCH_HISTORY + 4));
}

#[test]
fn protocol_filters_build_the_query() {
    let mut sb = ConnectionSidebar::new();
    assert_eq!(sb.filter_search_text(), "");
    assert_eq!(sb.toggle_protocol_filter(ProtocolFilter::Ssh), "protocol:ssh");
    assert_eq!(
        sb.toggle_protocol_filter(ProtocolFilter::Rdp),
        "protocols:RDP,SSH"
    );
    assert_eq!(sb.active_protocol_filter_count(), 2);
    assert!(sb.has_active_protocol_filters());
    assert_eq!(
        sb.get_active_protocol_filters(),
        vec![ProtocolFilter::Rdp, ProtocolFilter::Ssh]
    );
    // Toggling twice returns to the earlier filters.
    assert_eq!(sb.toggle_protocol_filter(ProtocolFilter::Rdp), "protocol:ssh");
    sb.clear_protocol_filters();
    assert!(!sb.has_active_protocol_filters());
    assert_eq!(ProtocolFilter::ZeroTrust.name(), "ZeroTrust");
}

#[test]
fn search_changes() {
    let mut sb = ConnectionSidebar::new();
    assert_eq!(sb.on_search_changed("anything", true), SearchChange::Ignore);
    assert_eq!(sb.on_search_changed("?", false), SearchChange::ShowHelp);
    assert_eq!(sb.on_search_changed("", false), SearchChange::Nothing);
    sb.toggle_protocol_filter(ProtocolFilter::Vnc);
    assert_eq!(sb.on_search_changed("", false), SearchChange::FiltersCleared);
    assert!(!sb.has_active_protocol_filters());
    assert_eq!(sb.on_search_changed("web", false), SearchChange::Nothing);
}

#[test]
fn selection_persistence() {
    let mut sb = ConnectionSidebar::new();
    sb.persist_selection(1);
    sb.persist_selection(1);
    sb.persist_selection(2);
    assert_eq!(sb.selection_count(), 2);
    sb.toggle_persisted_selection(2);
    assert!(!sb.is_selection_persisted(2));
    sb.toggle_persisted_selection(2);
    assert!(sb.is_selection_persisted(2));
    sb.unpersist_selection(1);
    assert!(!sb.is_selection_persisted(1));
    sb.clear_selection_state();
    assert_eq!(sb.selection_count(), 0);
}

#[test]
fn group_mode_and_pending_query() {
    let mut sb = ConnectionSidebar::new();
    assert!(!sb.is_group_operations_mode());
    sb.set_group_operations_mode(true);
    assert!(sb.is_group_operations_mode());
    sb.set_pending_search_query(Some("db".to_string()));
    assert_eq!(sb.pending_search_query(), Some("db".to_string()));
    sb.set_pending_search_query(None);
    assert_eq!(sb.pending_search_query(), None);
}

#[test]
fn key_handling() {
    assert_eq!(key_outcome(SidebarKey::Return, false, false), KeyOutcome::Stop);
    assert_eq!(key_outcome(SidebarKey::KeypadEnter, true, true), KeyOutcome::Stop);
    assert_eq!(key_outcome(SidebarKey::A, true, true), KeyOutcome::SelectAll);
    assert_eq!(key_outcome(SidebarKey::A, true, false), KeyOutcome::Proceed);
    assert_eq!(key_outcome(SidebarKey::Escape, false, true), KeyOutcome::ClearSelection);
    assert_eq!(key_outcome(SidebarKey::Escape, false, false), KeyOutcome::Proceed);
    assert_eq!(key_outcome(SidebarKey::Delete, false, true), KeyOutcome::Proceed);
    assert!(opens_history(true, ""));
    assert!(!opens_history(true, "x"));
    assert!(!opens_history(false, ""));
}

#[test]
fn item_presentations() {
    let conn = ConnectionItem::new_connection("1", "web", "rdp", "web.local");
    assert_eq!(conn.status, "disconnected");
    let p = item_presentation(&conn);
    assert_eq!(p.accessible_label, "connection web");
    assert_eq!(
        p.accessible_description,
        "Double-click to connect, right-click for options. Protocol: rdp"
    );
    assert_eq!(p.icon_name, "computer-symbolic");
    assert_eq!(p.status_icon, None);
    assert_eq!(p.label, "web");

    let group = ConnectionItem::new_group("2", "Servers");
    let g = item_presentation(&group);
    assert_eq!(g.accessible_label, "group Servers");
    assert_eq!(g.accessible_description, "Double-click to expand, right-click for options");
    assert_eq!(g.icon_name, "folder-symbolic");

    let mut doc = ConnectionItem::new_document("3", "Notes", false);
    doc.set_dirty(true);
    let d = item_presentation(&doc);
    assert_eq!(d.accessible_label, "document Notes");
    assert_eq!(d.icon_name, "x-office-document-symbolic");
    assert_eq!(d.label, "\u{2022} Notes");

    let live = ConnectionItem::new_connection_with_status("4", "db", "zerotrust:gcp_iap", "h", "connected");
    let l = item_presentation(&live);
    assert_eq!(l.icon_name, "weather-overcast-symbolic");
    assert_eq!(l.status_icon, Some(("emblem-default-symbolic", "status-connected")));
}

#[test]
fn status_icons() {
    assert_eq!(status_icon("connecting"), Some(("network-transmit-receive-symbolic", "status-connecting")));
    assert_eq!(status_icon("failed"), Some(("dialog-error-symbolic", "status-failed")));
    assert_eq!(status_icon("disconnected"), None);
    assert!(row_is_group(Some("folder-symbolic")));
    assert!(!row_is_group(Some("computer-symbolic")));
    assert!(!row_is_group(None));
}

#[test]
fn sidebar_icons_match_case() {
    assert_eq!(get_protocol_icon("ssh"), "network-server-symbolic");
    assert_eq!(get_protocol_icon("vnc"), "video-display-symbolic");
    // The tree matches names as given, without lower-casing.
    assert_eq!(get_protocol_icon("RDP"), "network-server-symbolic");
    assert_eq!(get_protocol_icon("zerotrust:tailscale"), "network-vpn-symbolic");
}

#[test]
fn context_menus() {
    assert_eq!(
        item_menu_entries(true),
        vec![("Edit", "edit-connection"), ("Delete", "delete-connection")]
    );
    assert_eq!(
        item_menu_entries(false),
        vec![
            ("Connect", "connect"),
            ("Edit", "edit-connection"),
            ("View Details", "view-details"),
            ("Duplicate", "duplicate-connection"),
            ("Move to Group...", "move-to-group"),
            ("Delete", "delete-connection")
        ]
    );
}

#[test]
fn selected_and_expanded_ids() {
    let a = "6f9619ff-8b86-d011-b42d-00c04fc964ff";
    let b = "00000000-0000-0000-0000-000000000001";
    let ids = get_selected_ids(&vec![a.to_string(), "not-an-id".to_string(), b.to_string()]);
    assert_eq!(ids, vec![0x6f9619ff_8b86_d011_b42d_00c04fc964ff, 1]);
    let rows = vec![
        (a.to_string(), true, false, true),
        (b.to_string(), false, false, true),
        ("00000000-0000-0000-0000-000000000002".to_string(), false, true, true),
        ("00000000-0000-0000-0000-000000000003".to_string(), true, false, false),
    ];
    assert_eq!(get_expanded_groups(&rows), vec![0x6f9619ff_8b86_d011_b42d_00c04fc964ff, 2]);
}

#[test]
fn pre_search_state_keeps_first_save() {
    let mut s: PreSearchState<u32> = PreSearchState::new();
    assert!(!s.has_pre_search_state());
    s.save_pre_search_state(1);
    s.save_pre_search_state(2);
    assert!(s.has_pre_search_state());
    assert_eq!(s.restore_pre_search_state(), Some(1));
    assert!(!s.has_pre_search_state());
    assert_eq!(s.restore_pre_search_state(), None);
}

#[test]
fn document_tree_placement() {
    let groups = vec![10u128, 20, 10];
    assert_eq!(document_placement(&groups, Some(20)), Some(1));
    // A repeated group: the later one holds the connections.
    assert_eq!(document_placement(&groups, Some(10)), Some(2));
    assert_eq!(document_placement(&groups, Some(30)), None);
    assert_eq!(document_placement(&groups, None), None);
}

#[test]
fn restoring_expanded_rows() {
    let id = "00000000-0000-0000-0000-000000000005";
    let expanded = vec![5u128, 6];
    assert!(should_expand_row(true, false, true, id, &expanded));
    assert!(!should_expand_row(true, true, true, id, &expanded));
    assert!(!should_expand_row(false, false, true, id, &expanded));
    assert!(!should_expand_row(true, false, false, id, &expanded));
    assert!(!should_expand_row(true, false, true, "bad", &expanded));
    assert!(!should_expand_row(true, false, true, id, &vec![6]));
}

#[test]
fn displayed_status_defaults_to_disconnected() {
    let mut sb = ConnectionSidebar::new();
    assert_eq!(sb.status_for_display("a"), "disconnected");
    sb.update_connection_status("a", "connecting");
    assert_eq!(sb.status_for_display("a"), "connecting");
}

const DOC_A: u128 = 0x0000_0001_0000_4000_8000_0000_0000_000a;
const DOC_B: u128 = 0x0000_0001_0000_4000_8000_0000_0000_000b;
const GROUP: u128 = 0x0000_0002_0000_4000_8000_0000_0000_0001;
const CONN_1: u128 = 0x0000_0003_0000_4000_8000_0000_0000_0001;
const CONN_2: u128 = 0x0000_0003_0000_4000_8000_0000_0000_0002;
const CONN_3: u128 = 0x0000_0003_0000_4000_8000_0000_0000_0003;
const STRAY_GROUP: u128 = 0x0000_0002_0000_4000_8000_0000_0000_0009;

fn text(id: u128) -> String {
    format!(
        "{:08x}-{:04x}-{:04x}-{:04x}-{:012x}",
        (id >> 96) as u32,
        (id >> 80) as u16,
        (id >> 64) as u16,
        (id >> 48) as u16,
        id & 0xffff_ffff_ffff
    )
}

fn populated() -> ConnectionSidebar {
    let mut sb = ConnectionSidebar::new();
    sb.update_connection_status(&text(CONN_2), "connected");
    let documents = vec![(DOC_A, "Work".to_string(), true), (DOC_B, "Home".to_string(), false)];
    let contents = vec![
        (
            vec![(GROUP, "Servers".to_string())],
            vec![
                (CONN_1, "web".to_string(), "ssh".to_string(), "web.local".to_string(), Some(GROUP)),
                (CONN_2, "db".to_string(), "rdp".to_string(), "db.local".to_string(), None),
                (CONN_3, "nas".to_string(), "vnc".to_string(), "nas.local".to_string(), Some(STRAY_GROUP)),
            ],
        ),
        (vec![], vec![]),
    ];
    sb.populate_with_documents(&documents, &contents);
    sb
}

#[test]
fn populate_builds_document_rows() {
    let sb = populated();
    let store = sb.store();
    assert_eq!(store.len(), 2);
    let work = &store[0];
    assert!(work.is_document && work.is_dirty);
    assert_eq!(work.id, text(DOC_A));
    assert_eq!(work.name, "Work");
    let children = work.children().unwrap();
    // The group first, then the connections without a (known) group.
    assert_eq!(children.len(), 3);
    assert!(children[0].is_group);
    assert_eq!(children[0].name, "Servers");
    let members = children[0].children().unwrap();
    assert_eq!(members.len(), 1);
    assert_eq!(members[0].name, "web");
    assert_eq!(members[0].status, "disconnected");
    assert_eq!(children[1].name, "db");
    assert_eq!(children[1].status, "connected");
    assert_eq!(children[2].name, "nas");
    assert!(children[2].children().is_none());
    let home = &store[1];
    assert!(home.is_document && !home.is_dirty);
    assert!(home.children().unwrap().is_empty());
}

#[test]
fn lookups_find_the_document() {
    let sb = populated();
    assert_eq!(sb.get_document_for_item(CONN_1), Some(DOC_A));
    assert_eq!(sb.get_document_for_item(CONN_3), Some(DOC_A));
    assert_eq!(sb.get_document_for_item(GROUP), Some(DOC_A));
    assert_eq!(sb.get_document_for_item(DOC_B), Some(DOC_B));
    assert_eq!(sb.get_document_for_item(STRAY_GROUP), None);
}

#[test]
fn status_changes_reach_tree_rows() {
    let mut sb = populated();
    sb.increment_session_count(&text(CONN_1));
    let web = &sb.store()[0].children().unwrap()[0].children().unwrap()[0];
    assert_eq!(web.status, "connected");
    assert_eq!(sb.decrement_session_count(&text(CONN_1), true), "failed");
    let web = &sb.store()[0].children().unwrap()[0].children().unwrap()[0];
    assert_eq!(web.status, "failed");
    // Closing a session of a connection without a record still marks its row.
    assert_eq!(sb.decrement_session_count(&text(CONN_3), false), "disconnected");
    sb.update_connection_status(&text(CONN_3), "connecting");
    assert_eq!(sb.store()[0].children().unwrap()[2].status, "connecting");
    // Status changes keep the tree's items: lookups answer as before.
    assert_eq!(sb.get_document_for_item(CONN_1), Some(DOC_A));
    assert_eq!(sb.get_document_for_item(CONN_3), Some(DOC_A));
    assert!(find_item_in_children(sb.store(), &text(CONN_2)));
}

#[test]
fn dirty_flag_of_documents() {
    let mut sb = populated();
    sb.update_document_dirty_state(DOC_A, false);
    assert!(!sb.store()[0].is_dirty);
    sb.update_document_dirty_state(DOC_B, true);
    assert!(sb.store()[1].is_dirty);
    // An identifier that is not a top-level document changes nothing.
    sb.update_document_dirty_state(GROUP, true);
    assert!(!sb.store()[0].is_dirty);
    assert!(!sb.store()[0].children().unwrap()[0].is_dirty);
}

#[test]
fn tree_search_and_updates() {
    let mut group = ConnectionItem::new_group("g", "G");
    group.add_child(ConnectionItem::new_connection("c", "C", "ssh", "h"));
    let mut conn = ConnectionItem::new_connection("p", "P", "ssh", "h");
    conn.add_child(ConnectionItem::new_connection("q", "Q", "ssh", "h"));
    assert!(conn.children().is_none());
    let mut model = vec![conn, group];
    assert!(find_item_in_children(&model, "c"));
    assert!(find_item_in_children(&model, "p"));
    assert!(!find_item_in_children(&model, "q"));
    assert!(update_item_status_recursive(&mut model, "c", "failed"));
    assert_eq!(model[1].children().unwrap()[0].status, "failed");
    assert!(!update_item_status_recursive(&mut model, "zz", "failed"));
    let d = ConnectionItem::default();
    assert_eq!((d.id.as_str(), d.name.as_str(), d.protocol.as_str(), d.status.as_str()), ("", "Unnamed", "ssh", "disconnected"));
}

#[test]
fn row_to_select_for_an_item() {
    let rows = vec![text(GROUP), text(CONN_1), text(CONN_1)];
    assert_eq!(select_item_by_id(&rows, CONN_1), Some(1));
    assert_eq!(select_item_by_id(&rows, GROUP), Some(0));
    assert_eq!(select_item_by_id(&rows, CONN_2), None);
}

#[test]
fn rows_of_groups_and_documents() {
    let group = ConnectionItem::new_group("g", "G");
    let doc = ConnectionItem::new_document("d", "D", false);
    let conn = ConnectionItem::new_connection("c", "C", "ssh", "h");
    assert!(is_row_widget_group_or_document(Some(&group)));
    assert!(is_row_widget_group_or_document(Some(&doc)));
    assert!(!is_row_widget_group_or_document(Some(&conn)));
    assert!(!is_row_widget_group_or_document(None));
}
