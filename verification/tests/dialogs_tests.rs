use rustconn::dialogs::{
    command_preview, delete_confirmation, deletion_report, deletion_summary, failure_line,
    parent_group_choices, plan_connection_start, quick_connect_default_port,
    quick_connect_port_update, quick_connect_request, selected_item_line,
    session_connection_info, session_count_text, session_row_icon, StartPlan,
};

#[test]
fn delete_confirmations() {
    assert_eq!(
        delete_confirmation("web", false, 0),
        (
            "Delete connection?".to_string(),
            "Are you sure you want to delete the connection 'web'?".to_string()
        )
    );
    assert_eq!(
        delete_confirmation("Lab", true, 3),
        (
            "Delete group?".to_string(),
            "Are you sure you want to delete the group 'Lab'?\n\nThis will also delete 3 connection(s) in this group."
                .to_string()
        )
    );
    assert_eq!(
        delete_confirmation("Empty", true, 0).1,
        "Are you sure you want to delete the empty group 'Empty'?"
    );
}

#[test]
fn bulk_delete_texts() {
    assert_eq!(selected_item_line("web", false), "\u{2022} web (connection)");
    assert_eq!(selected_item_line("Lab", true), "\u{2022} Lab (group)");
    assert_eq!(deletion_summary(2, 0), "2 connection(s)");
    assert_eq!(deletion_summary(0, 0), "0 connection(s)");
    assert_eq!(deletion_summary(0, 4), "4 group(s)");
    assert_eq!(deletion_summary(1, 12), "1 connection(s) and 12 group(s)");
    assert_eq!(
        failure_line(1, "not found"),
        "00000000-0000-0000-0000-000000000001: not found"
    );
    assert_eq!(
        deletion_report(5, &Vec::new()),
        ("Deletion Complete".to_string(), "Successfully deleted 5 item(s).".to_string())
    );
    assert_eq!(
        deletion_report(1, &vec!["x: e1".to_string(), "y: e2".to_string()]),
        (
            "Deletion Partially Complete".to_string(),
            "Deleted 1 item(s).\n\nFailed to delete 2 item(s):\nx: e1\ny: e2".to_string()
        )
    );
}

#[test]
fn quick_connect() {
    assert_eq!(quick_connect_default_port(0), 22);
    assert_eq!(quick_connect_default_port(1), 3389);
    assert_eq!(quick_connect_default_port(2), 5900);
    assert_eq!(quick_connect_default_port(7), 22);
    assert_eq!(quick_connect_port_update(true, 1), None);
    assert_eq!(quick_connect_port_update(false, 2), Some(5900));
    assert!(quick_connect_request("  ", "bob", 0).is_none());
    let q = quick_connect_request("host.local", " ", 1).unwrap();
    assert_eq!(q.title, "Quick: host.local");
    assert_eq!(q.protocol, "rdp");
    assert_eq!(q.username, None);
    assert!(!q.spawn_ssh);
    let s = quick_connect_request("h", "bob", 9).unwrap();
    assert_eq!(s.protocol, "ssh");
    assert_eq!(s.username, Some("bob".to_string()));
    assert!(s.spawn_ssh);
}

#[test]
fn connection_start_plans() {
    let full = Some((Some("u".to_string()), Some("p".to_string())));
    let cached = Some(("cu".to_string(), "cp".to_string(), "cd".to_string()));
    match plan_connection_start(true, full.clone(), cached.clone()) {
        StartPlan::Rdp { username, password, domain } => {
            assert_eq!((username.as_str(), password.as_str(), domain.as_str()), ("u", "p", ""));
        }
        _ => panic!("expected an RDP session"),
    }
    match plan_connection_start(true, Some((Some("u".to_string()), None)), cached.clone()) {
        StartPlan::Rdp { username, password, domain } => {
            assert_eq!((username.as_str(), password.as_str(), domain.as_str()), ("cu", "cp", "cd"));
        }
        _ => panic!("expected the cached credentials"),
    }
    assert!(matches!(plan_connection_start(true, None, None), StartPlan::RdpPasswordDialog));
    match plan_connection_start(false, full, cached) {
        StartPlan::Start { cache } => {
            assert_eq!(cache, Some(("u".to_string(), "p".to_string())));
        }
        _ => panic!("expected a start"),
    }
    assert!(matches!(
        plan_connection_start(false, None, None),
        StartPlan::Start { cache: None }
    ));
}

#[test]
fn parent_choices_sorted_by_path() {
    let groups = vec![
        (1u128, "Zeta".to_string()),
        (2, "alpha".to_string()),
        (3, "Alpha/Sub".to_string()),
    ];
    let (ids, labels, selected) = parent_group_choices(&groups, Some(1));
    assert_eq!(ids, vec![None, Some(2), Some(3), Some(1)]);
    assert_eq!(
        labels,
        vec![
            "(None - Root Level)".to_string(),
            "alpha".to_string(),
            "Alpha/Sub".to_string(),
            "Zeta".to_string()
        ]
    );
    assert_eq!(selected, 3);
    assert_eq!(parent_group_choices(&groups, None).2, 0);
    assert_eq!(parent_group_choices(&groups, Some(42)).2, 0);
}

#[test]
fn snippet_previews() {
    assert_eq!(command_preview("ls -la"), "ls -la");
    let long = "x".repeat(60);
    assert_eq!(command_preview(&long), format!("{}...", "x".repeat(50)));
    let exact = "y".repeat(50);
    assert_eq!(command_preview(&exact), exact);
}

#[test]
fn sessions_manager_texts() {
    assert_eq!(session_count_text(2, 1), "2 UI session(s), 1 tracked session(s)");
    assert_eq!(session_row_icon("ssh"), "utilities-terminal-symbolic");
    assert_eq!(session_row_icon("local"), "utilities-terminal-symbolic");
    assert_eq!(session_row_icon("rdp"), "computer-symbolic");
    assert_eq!(session_row_icon("vnc"), "video-display-symbolic");
    assert_eq!(session_row_icon("spice"), "network-server-symbolic");
    assert_eq!(session_connection_info(true, None, "ssh"), Some("SSH".to_string()));
    assert_eq!(
        session_connection_info(false, Some("db.local"), "vnc"),
        Some("db.local (VNC)".to_string())
    );
    assert_eq!(session_connection_info(false, None, "vnc"), None);
}
