use rustconn::state::{
    connection_exists_by_name, generate_unique_connection_name_simple,
    generate_unique_group_name, group_exists_by_name, is_keepass_active, kdbx_password_on_save,
    kdbx_startup, keepass_credentials, keepass_lookup_key, logging_change, merge_templates, needs_backend_check,
    remove_template, reorder_sort_orders, should_prompt_for_credentials, upsert_template, uses_keepass_lookup, AppState,
    ConnectionClipboard, CopiedConnection, KdbxPasswordOnSave, KdbxStartup, PasswordSource,
};

fn names(list: &[&str]) -> Vec<String> {
    list.iter().map(|s| s.to_string()).collect()
}

#[test]
fn names_match_ignoring_ascii_case() {
    let existing = names(&["Servers", "Ünïcode"]);
    assert!(group_exists_by_name(&existing, "servers"));
    assert!(group_exists_by_name(&existing, "SERVERS"));
    assert!(!group_exists_by_name(&existing, "server"));
    // Only ASCII letters are folded.
    assert!(!group_exists_by_name(&existing, "üNÏCODE"));
    assert!(group_exists_by_name(&existing, "ÜNïCODE"));
    assert!(connection_exists_by_name(&existing, "Ünïcode"));
}

#[test]
fn unique_group_names() {
    assert_eq!(generate_unique_group_name(&Vec::new(), "Import"), "Import");
    let existing = names(&["Import", "import (1)", "Import (3)"]);
    assert_eq!(generate_unique_group_name(&existing, "Import"), "Import (2)");
    assert_eq!(generate_unique_group_name(&existing, "IMPORT (1)"), "IMPORT (1) (1)");
    let taken = names(&["a", "a (1)", "a (2)", "a (3)"]);
    assert_eq!(generate_unique_connection_name_simple(&taken, "A"), "A (4)");
    assert_eq!(generate_unique_connection_name_simple(&taken, "b"), "b");
}

#[test]
fn password_cache_reads_back_last_write() {
    let mut st: AppState<()> = AppState::new();
    assert!(!st.has_cached_credentials(1));
    st.cache_credentials(1, "alice", "pw1", "CORP");
    st.cache_credentials(2, "bob", "pw2", "");
    st.cache_credentials(1, "alice", "pw3", "CORP");
    let c = st.get_cached_credentials(1).unwrap();
    assert_eq!(c.username, "alice");
    assert_eq!(c.domain, "CORP");
    assert_eq!(
        st.cached_credentials_text(1),
        Some(("alice".to_string(), "pw3".to_string(), "CORP".to_string()))
    );
    assert_eq!(st.cached_credentials_text(2).unwrap().1, "pw2");
    st.clear_cached_credentials(1);
    assert!(st.get_cached_credentials(1).is_none());
    assert!(st.has_cached_credentials(2));
    st.clear_all_cached_credentials();
    assert!(!st.has_cached_credentials(2));
}

#[test]
fn skipping_the_password_dialog_needs_both() {
    let mut st: AppState<()> = AppState::new();
    assert!(!st.can_skip_password_dialog(7));
    st.cache_credentials(7, "u", "p", "");
    assert!(!st.can_skip_password_dialog(7));
    st.mark_credentials_verified(7);
    assert!(st.are_credentials_verified(7));
    assert!(st.can_skip_password_dialog(7));
    st.mark_credentials_unverified(7, Some("denied".to_string()));
    assert!(!st.are_credentials_verified(7));
    assert!(!st.can_skip_password_dialog(7));
}

#[test]
fn clipboard_copy_and_paste() {
    let mut st: AppState<&str> = AppState::new();
    assert!(!st.has_clipboard_content());
    assert!(st.paste_connection().is_none());
    st.copy_connection(
        CopiedConnection {
            id: 5,
            name: "web".to_string(),
            created_at: 1,
            updated_at: 2,
            last_connected: Some(3),
            rest: "settings",
        },
        Some(9),
    );
    assert!(st.has_clipboard_content());
    let (pasted, group) = st.paste_connection().unwrap();
    assert_eq!(pasted.name, "web (Copy)");
    assert_eq!(pasted.created_at, pasted.updated_at);
    assert_eq!(pasted.last_connected, None);
    assert_eq!(pasted.rest, "settings");
    assert_ne!(pasted.id, 5);
    assert_eq!((pasted.id >> 76) & 0xF, 4);
    assert_eq!((pasted.id >> 62) & 0x3, 2);
    assert_eq!(group, Some(9));
    assert_eq!(st.clipboard().source_group(), Some(9));
}

#[test]
fn clipboard_paste_at_time() {
    let mut cb: ConnectionClipboard<u8> = ConnectionClipboard::new();
    assert!(cb.paste_at(10).is_none());
    cb.copy(
        CopiedConnection { id: 1, name: "db".to_string(), created_at: 0, updated_at: 0, last_connected: None, rest: 4 },
        None,
    );
    let p = cb.paste_at(1234).unwrap();
    assert_eq!(p.name, "db (Copy)");
    assert_eq!(p.created_at, 1234);
    assert_eq!(p.updated_at, 1234);
    assert_eq!(p.rest, 4);
    assert_eq!(cb.source_group(), None);
    cb.clear();
    assert!(!cb.has_content());
}

#[test]
fn active_document_follows_creation_and_closing() {
    let mut st: AppState<()> = AppState::new();
    assert_eq!(st.active_document_id(), None);
    st.create_document(1);
    st.create_document(2);
    assert_eq!(st.active_document_id(), Some(1));
    st.close_document(2, &vec![1]);
    assert_eq!(st.active_document_id(), Some(1));
    st.close_document(1, &vec![3, 4]);
    assert_eq!(st.active_document_id(), Some(3));
    st.close_document(3, &Vec::new());
    assert_eq!(st.active_document_id(), None);
    st.set_active_document(Some(8));
    assert_eq!(st.active_document_id(), Some(8));
}

#[test]
fn prompting_for_credentials() {
    assert!(should_prompt_for_credentials(PasswordSource::Prompt, false, false, true));
    assert!(!should_prompt_for_credentials(PasswordSource::Stored, true, true, false));
    assert!(should_prompt_for_credentials(PasswordSource::NoSource, false, false, true));
    assert!(should_prompt_for_credentials(PasswordSource::NoSource, true, false, false));
    assert!(!should_prompt_for_credentials(PasswordSource::NoSource, true, false, true));
    assert!(should_prompt_for_credentials(PasswordSource::KeePass, true, false, true));
    assert!(!should_prompt_for_credentials(PasswordSource::KeePass, false, true, false));
    assert!(should_prompt_for_credentials(PasswordSource::Keyring, true, true, false));
    assert!(!should_prompt_for_credentials(PasswordSource::Keyring, false, false, true));
    assert!(needs_backend_check(PasswordSource::Keyring, false));
    assert!(needs_backend_check(PasswordSource::NoSource, true));
    assert!(!needs_backend_check(PasswordSource::NoSource, false));
    assert!(!needs_backend_check(PasswordSource::KeePass, true));
}

#[test]
fn keepass_decisions() {
    assert_eq!(keepass_lookup_key("Web", "web.local", "RDP"), "Web (RDP)");
    assert_eq!(keepass_lookup_key("  ", "web.local", "SSH"), "web.local (SSH)");
    assert!(uses_keepass_lookup(PasswordSource::KeePass, true, true));
    assert!(!uses_keepass_lookup(PasswordSource::KeePass, true, false));
    assert!(!uses_keepass_lookup(PasswordSource::Keyring, true, true));
    assert!(is_keepass_active(true, true));
    assert!(!is_keepass_active(true, false));
    assert_eq!(kdbx_startup(false, None), KdbxStartup::Unchanged);
    assert_eq!(kdbx_startup(true, None), KdbxStartup::Disable);
    assert_eq!(kdbx_startup(true, Some(false)), KdbxStartup::Disable);
    assert_eq!(kdbx_startup(true, Some(true)), KdbxStartup::RestorePassword);
    assert_eq!(kdbx_password_on_save(true, true), KdbxPasswordOnSave::Encrypt);
    assert_eq!(kdbx_password_on_save(false, true), KdbxPasswordOnSave::Clear);
    assert_eq!(kdbx_password_on_save(true, false), KdbxPasswordOnSave::Keep);
    assert_eq!(logging_change(true, false), Some(true));
    assert_eq!(logging_change(false, false), None);
}

#[test]
fn templates_by_identifier() {
    let mut ts = vec![(1u128, "a"), (2, "b"), (1, "c")];
    upsert_template(&mut ts, 1, "A");
    assert_eq!(ts, vec![(1, "A"), (2, "b"), (1, "c")]);
    upsert_template(&mut ts, 3, "d");
    assert_eq!(ts, vec![(1, "A"), (2, "b"), (1, "c"), (3, "d")]);
    assert_eq!(remove_template(ts, 1), vec![(2, "b"), (3, "d")]);
    let merged = merge_templates(vec![(1u128, "saved")], vec![(1, "doc"), (2, "x"), (2, "y"), (3, "z")]);
    assert_eq!(merged, vec![(1, "saved"), (2, "x"), (3, "z")]);
}

#[test]
fn reordering_assigns_positions() {
    assert_eq!(reorder_sort_orders(&vec![9, 4, 7]), vec![(9, 0), (4, 1), (7, 2)]);
    assert!(reorder_sort_orders(&Vec::new()).is_empty());
}

#[test]
fn keepass_lookup_outcomes() {
    let found = keepass_credentials(Some("admin".to_string()), Ok(Some("pw".to_string()))).unwrap();
    assert_eq!(found.username, Some("admin".to_string()));
    let anonymous = keepass_credentials(None, Ok(Some("pw".to_string()))).unwrap();
    assert_eq!(anonymous.username, None);
    assert!(keepass_credentials(Some("admin".to_string()), Ok(None)).is_none());
    assert!(keepass_credentials(None, Err("locked".to_string())).is_none());
}
