use rustconn::terminal::config::{
    automation_triggers, context_menu_entries, cursor_blink_mode, cursor_shape, shortcut_for_key,
    CursorBlinkMode, CursorShape, ExpectRule, TerminalShortcut,
};
use rustconn::terminal::ssh::{ssh_argv, ssh_extra_args};
use rustconn::terminal::tabs::{
    apply_display_mode_to_tab, get_protocol_icon, tab_display_decision, tab_label_texts,
    truncate_name, TabDisplayMode,
};
use rustconn::terminal::{TerminalNotebook, TerminalSession};

fn session(id: u128, name: &str) -> TerminalSession {
    TerminalSession {
        id,
        connection_id: id + 1000,
        name: name.to_string(),
        protocol: "ssh".to_string(),
        is_embedded: true,
        log_file: None,
        history_entry_id: None,
    }
}

#[test]
fn new_notebook_shows_welcome() {
    let nb = TerminalNotebook::new();
    assert!(nb.shows_welcome());
    assert_eq!(nb.tab_count(), 1);
    assert_eq!(nb.session_count(), 0);
    assert_eq!(nb.display_mode(), TabDisplayMode::Full);
}

#[test]
fn tabs_open_in_order_and_close_shifts() {
    let mut nb = TerminalNotebook::new();
    assert_eq!(nb.add_session_tab(session(1, "a")), Some(0));
    assert_eq!(nb.add_session_tab(session(2, "b")), Some(1));
    assert_eq!(nb.add_session_tab(session(3, "c")), Some(2));
    // The same session cannot be opened twice.
    assert_eq!(nb.add_session_tab(session(2, "again")), None);
    assert_eq!(nb.session_ids(), vec![1, 2, 3]);
    assert_eq!(nb.tab_count(), 3);
    assert_eq!(nb.close_tab(2), Some(1));
    assert_eq!(nb.session_ids(), vec![1, 3]);
    assert_eq!(nb.switch_to_tab(3), Some(1));
    assert_eq!(nb.get_session_id_for_page(1), Some(3));
    assert_eq!(nb.get_session_id_for_page(2), None);
    assert_eq!(nb.get_active_session_id(Some(0)), Some(1));
    assert_eq!(nb.get_active_session_id(Some(5)), None);
    assert_eq!(nb.get_active_session_id(None), None);
    assert_eq!(nb.close_tab(42), None);
    assert_eq!(nb.close_tab(1), Some(0));
    assert_eq!(nb.close_tab(3), Some(0));
    assert!(nb.shows_welcome());
}

#[test]
fn create_terminal_tab_records_session() {
    let mut nb = TerminalNotebook::new();
    let id = nb.create_terminal_tab(77, "server", "ssh");
    let info = nb.get_session_info(id).unwrap();
    assert_eq!(info.connection_id, 77);
    assert_eq!(info.name, "server");
    assert_eq!(info.protocol, "ssh");
    assert!(info.is_embedded);
    assert!(info.log_file.is_none());
    assert!(info.history_entry_id.is_none());
    assert_eq!((id >> 76) & 0xF, 4);
    assert_eq!(nb.switch_to_tab(id), Some(0));
    let vnc = nb.create_vnc_session_tab_with_host(78, "desk");
    assert_eq!(nb.get_session_info(vnc).unwrap().protocol, "vnc");
    let spice = nb.create_spice_session_tab_with_host(79, "vm");
    assert_eq!(nb.get_session_info(spice).unwrap().protocol, "spice");
    assert_eq!(nb.session_ids(), vec![id, vnc, spice]);
}

#[test]
fn embedded_tabs() {
    let mut nb = TerminalNotebook::new();
    assert_eq!(nb.add_embedded_session_tab(5, "ext", "rdp"), Some(0));
    let ext = nb.get_session_info(5).unwrap();
    assert_eq!(ext.connection_id, 5);
    assert!(!ext.is_embedded);
    assert_eq!(nb.add_embedded_rdp_tab(6, 60, "rdp one"), Some(1));
    let rdp = nb.get_session_info(6).unwrap();
    assert_eq!(rdp.connection_id, 60);
    assert_eq!(rdp.protocol, "rdp");
    assert!(rdp.is_embedded);
    assert_eq!(nb.add_embedded_rdp_tab(6, 61, "dup"), None);
}

#[test]
fn session_metadata_updates() {
    let mut nb = TerminalNotebook::new();
    nb.add_session_tab(session(1, "a"));
    nb.set_log_file(1, "/tmp/a.log".to_string());
    nb.set_history_entry_id(1, 99);
    nb.set_history_entry_id(2, 100);
    let info = nb.get_session_info(1).unwrap();
    assert_eq!(info.log_file, Some("/tmp/a.log".to_string()));
    assert_eq!(info.history_entry_id, Some(99));
    assert!(nb.get_session_info(2).is_none());
}

#[test]
fn display_mode_adapts_to_width() {
    let mut nb = TerminalNotebook::new();
    assert_eq!(nb.update_tab_display_mode(0), None);
    assert_eq!(nb.update_tab_display_mode(500), Some((false, false)));
    nb.add_session_tab(session(1, "a"));
    nb.add_session_tab(session(2, "b"));
    // 2 tabs: full needs 300, compact 160, icons 80.
    assert_eq!(nb.update_tab_display_mode(300), Some((false, false)));
    assert_eq!(nb.display_mode(), TabDisplayMode::Full);
    assert_eq!(nb.update_tab_display_mode(299), Some((true, false)));
    assert_eq!(nb.display_mode(), TabDisplayMode::Compact);
    assert_eq!(nb.update_tab_display_mode(100), Some((true, false)));
    assert_eq!(nb.display_mode(), TabDisplayMode::IconOnly);
    assert_eq!(nb.update_tab_display_mode(79), Some((false, true)));
}

#[test]
fn tab_display_decision_cases() {
    assert_eq!(tab_display_decision(-5, 3, TabDisplayMode::Compact), None);
    assert_eq!(
        tab_display_decision(10, 0, TabDisplayMode::Compact),
        Some((TabDisplayMode::Compact, false))
    );
    assert_eq!(
        tab_display_decision(240, 3, TabDisplayMode::Full),
        Some((TabDisplayMode::Compact, false))
    );
    assert_eq!(
        tab_display_decision(119, 3, TabDisplayMode::Full),
        Some((TabDisplayMode::IconOnly, true))
    );
}

#[test]
fn truncate_name_and_labels() {
    assert_eq!(truncate_name("short", 10), "short");
    assert_eq!(truncate_name("a very long name", 10), "a very lo\u{2026}");
    assert_eq!(truncate_name("ééééééééééé", 10), "ééééééééé\u{2026}");
    assert_eq!(
        apply_display_mode_to_tab("production server", TabDisplayMode::Full),
        Some(("production server".to_string(), 20))
    );
    assert_eq!(
        apply_display_mode_to_tab("production server", TabDisplayMode::Compact),
        Some(("production \u{2026}".to_string(), 12))
    );
    assert_eq!(
        apply_display_mode_to_tab("web-server-1", TabDisplayMode::Compact),
        Some(("web-server-1".to_string(), 12))
    );
    assert_eq!(
        apply_display_mode_to_tab("production server", TabDisplayMode::IconOnly),
        None
    );
}

#[test]
fn protocol_icons_for_tabs() {
    assert_eq!(get_protocol_icon("ssh"), "network-server-symbolic");
    assert_eq!(get_protocol_icon("RDP"), "computer-symbolic");
    assert_eq!(get_protocol_icon("Vnc"), "video-display-symbolic");
    assert_eq!(get_protocol_icon("spice"), "video-x-generic-symbolic");
    assert_eq!(get_protocol_icon("zerotrust"), "folder-remote-symbolic");
    assert_eq!(get_protocol_icon("zerotrust:aws_ssm"), "network-workgroup-symbolic");
    assert_eq!(get_protocol_icon("zerotrust:teleport"), "emblem-system-symbolic");
    assert_eq!(get_protocol_icon("zerotrust:unknown"), "folder-remote-symbolic");
    assert_eq!(get_protocol_icon("telnet"), "network-server-symbolic");
}

#[test]
fn tab_label_texts_with_and_without_host() {
    let t = tab_label_texts("db", "ssh", "db.example.com");
    assert_eq!(t.accessible_label, "db - ssh session");
    assert_eq!(
        t.accessible_description,
        "ssh session to db.example.com. Drag to split pane or click close to end session."
    );
    assert_eq!(t.tooltip, "db\ndb.example.com\nDrag to split pane");
    assert_eq!(t.close_label, "Close db session");
    let u = tab_label_texts("local", "ssh", "");
    assert_eq!(
        u.accessible_description,
        "ssh session tab. Drag to split pane or click close to end session."
    );
    assert_eq!(u.tooltip, "local\nDrag to split pane");
    // The tab shows the sidebar's icon for the protocol.
    assert_eq!(tab_label_texts("w", "RDP", "").icon_name, "network-server-symbolic");
    assert_eq!(tab_label_texts("w", "rdp", "").icon_name, "computer-symbolic");
    assert_eq!(tab_label_texts("w", "zerotrust:aws", "").icon_name, "network-workgroup-symbolic");
}

#[test]
fn cursor_settings() {
    assert_eq!(cursor_blink_mode("On"), CursorBlinkMode::On);
    assert_eq!(cursor_blink_mode("Off"), CursorBlinkMode::Off);
    assert_eq!(cursor_blink_mode("System"), CursorBlinkMode::System);
    assert_eq!(cursor_blink_mode("weird"), CursorBlinkMode::On);
    assert_eq!(cursor_shape("Block"), CursorShape::Block);
    assert_eq!(cursor_shape("IBeam"), CursorShape::Ibeam);
    assert_eq!(cursor_shape("Underline"), CursorShape::Underline);
    assert_eq!(cursor_shape("ibeam"), CursorShape::Block);
}

#[test]
fn clipboard_shortcuts_and_menu() {
    assert_eq!(shortcut_for_key(true, Some("C")), Some(TerminalShortcut::Copy));
    assert_eq!(shortcut_for_key(true, Some("v")), Some(TerminalShortcut::Paste));
    assert_eq!(shortcut_for_key(false, Some("C")), None);
    assert_eq!(shortcut_for_key(true, Some("X")), None);
    assert_eq!(shortcut_for_key(true, None), None);
    assert_eq!(
        context_menu_entries(),
        vec![
            ("Copy", "terminal.copy"),
            ("Paste", "terminal.paste"),
            ("Select All", "terminal.select-all")
        ]
    );
}

#[test]
fn automation_triggers_keep_enabled_valid_rules() {
    let rules = vec![
        ExpectRule {
            pattern: "password:".to_string(),
            response: "secret\n".to_string(),
            enabled: true,
        },
        ExpectRule {
            pattern: "(unclosed".to_string(),
            response: "x".to_string(),
            enabled: true,
        },
        ExpectRule {
            pattern: "yes/no".to_string(),
            response: "yes\n".to_string(),
            enabled: false,
        },
        ExpectRule {
            pattern: "\\$ $".to_string(),
            response: "ls\n".to_string(),
            enabled: true,
        },
    ];
    assert_eq!(
        automation_triggers(&rules),
        vec![
            ("password:".to_string(), "secret\n".to_string()),
            ("\\$ $".to_string(), "ls\n".to_string())
        ]
    );
}

#[test]
fn ssh_command_line() {
    let extra = vec!["-J".to_string(), "bastion".to_string()];
    assert_eq!(
        ssh_argv("host", 2222, Some("alice"), Some("/k/id"), &extra),
        vec!["ssh", "-p", "2222", "-i", "/k/id", "-J", "bastion", "alice@host"]
    );
    assert_eq!(ssh_argv("host", 22, None, None, &Vec::new()), vec!["ssh", "host"]);
}

#[test]
fn ssh_extra_arguments() {
    let options = vec![
        ("ServerAliveInterval".to_string(), "30".to_string()),
        ("Compression".to_string(), "yes".to_string()),
    ];
    assert_eq!(
        ssh_extra_args(Some("jump"), true, &options),
        vec![
            "-J",
            "jump",
            "-o",
            "ControlMaster=auto",
            "-o",
            "ServerAliveInterval=30",
            "-o",
            "Compression=yes"
        ]
    );
    assert!(ssh_extra_args(None, false, &Vec::new()).is_empty());
}
