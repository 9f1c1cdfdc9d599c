use rustconn::dialogs::{failure_line, session_connection_info};
use rustconn::sidebar::get_selected_ids;
use rustconn::split_view::TerminalPane;
use rustconn::state::{group_exists_by_name, AppState};
use rustconn::strings::{dec_string, is_blank, join_with, split_by_char, trim};
use rustconn::terminal::TerminalNotebook;

#[test]
fn identifiers_round_trip() {
    let id = 0x6f9619ff_8b86_d011_b42d_00c04fc964ffu128;
    let line = failure_line(id, "e");
    assert_eq!(line, "6f9619ff-8b86-d011-b42d-00c04fc964ff: e");
    let text = line[..36].to_string();
    assert_eq!(get_selected_ids(&vec![text]), vec![id]);
    // The crate also reads the simple form, in any case.
    assert_eq!(
        get_selected_ids(&vec!["6F9619FF8B86D011B42D00C04FC964FF".to_string()]),
        vec![id]
    );
    assert!(get_selected_ids(&vec![String::new(), "not an id".to_string()]).is_empty());
}

#[test]
fn fresh_identifiers_are_version_four() {
    let a = TerminalPane::new().id();
    let b = TerminalPane::new().id();
    assert_ne!(a, b);
    assert_eq!((a >> 76) & 0xF, 4);
    assert_eq!((a >> 62) & 0x3, 2);
    let mut nb = TerminalNotebook::new();
    let s1 = nb.create_terminal_tab(1, "a", "ssh");
    let s2 = nb.create_terminal_tab(1, "b", "ssh");
    assert_ne!(s1, s2);
    assert_eq!(nb.session_ids(), vec![s1, s2]);
}

#[test]
fn splitting_and_joining() {
    assert_eq!(split_by_char("a:b::c", ':'), vec!["a", "b", "", "c"]);
    assert_eq!(split_by_char("", ':'), vec![""]);
    assert_eq!(split_by_char(":", ':'), vec!["", ""]);
    assert_eq!(split_by_char("é:ü", ':'), vec!["é", "ü"]);
    let parts = vec!["x".to_string(), "y".to_string(), "z".to_string()];
    assert_eq!(join_with(&parts, ", "), "x, y, z");
    assert_eq!(join_with(&Vec::new(), ", "), "");
    assert_eq!(join_with(&vec!["one".to_string()], "-"), "one");
}

#[test]
fn trimming_matches_std() {
    for s in ["  a b  ", "\t\n", "", "x", " \u{3000}y\u{a0}", "é "] {
        assert_eq!(trim(s), s.trim(), "input {s:?}");
        assert_eq!(is_blank(s), s.trim().is_empty(), "input {s:?}");
    }
}

#[test]
fn decimal_rendering() {
    assert_eq!(dec_string(0), "0");
    assert_eq!(dec_string(1234567890), "1234567890");
    assert_eq!(dec_string(u64::MAX), u64::MAX.to_string());
}

#[test]
fn case_folding_helpers() {
    let names = vec!["Straße".to_string()];
    assert!(group_exists_by_name(&names, "STRAßE"));
    assert!(!group_exists_by_name(&names, "STRASSE"));
    assert_eq!(session_connection_info(true, None, "straße"), Some("STRASSE".to_string()));
}

#[test]
fn cached_credentials_as_text() {
    let mut st: AppState<()> = AppState::new();
    assert_eq!(st.cached_credentials_text(3), None);
    st.cache_credentials(3, "u", "secret", "d");
    assert_eq!(
        st.cached_credentials_text(3),
        Some(("u".to_string(), "secret".to_string(), "d".to_string()))
    );
}
