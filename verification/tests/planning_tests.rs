use rustconn::history::{get_sessions_to_restore, sessions_to_restore_now, trim_history, SavedSession};
use rustconn::import::{import_group_name, import_group_order, split_remmina_tags, ImportPlan};
use rustconn::ordering::{less_text, sorted_positions};

#[test]
fn import_group_names() {
    assert_eq!(import_group_name("Remmina"), "Remmina Import");
    assert_eq!(import_group_name(""), " Import");
}

#[test]
fn import_order_puts_roots_first() {
    // (id, parent): 2 is a child of 1; 3's parent is not imported; 4 is a
    // child of 2.
    let groups = vec![(2u128, Some(1u128)), (1, None), (3, Some(99)), (4, Some(2))];
    assert_eq!(import_group_order(&groups), vec![1, 2, 0, 3]);
    assert!(import_group_order(&Vec::new()).is_empty());
}

#[test]
fn import_order_puts_parents_before_children() {
    // A grandchild (4) and a child (2) listed before their root (1).
    let groups = vec![(4u128, Some(2u128)), (2, Some(1)), (1, None), (5, Some(2))];
    assert_eq!(import_group_order(&groups), vec![2, 1, 0, 3]);
    // Groups in a cycle of parents come last, in import order.
    let cyclic = vec![(7u128, Some(8u128)), (1, None), (8, Some(7))];
    assert_eq!(import_group_order(&cyclic), vec![1, 0, 2]);
}

#[test]
fn remmina_tags_are_split_off() {
    let tags = vec![
        "prod".to_string(),
        "remmina:Office".to_string(),
        "web".to_string(),
        "remmina:Other".to_string(),
    ];
    let (group, kept) = split_remmina_tags(&tags);
    assert_eq!(group, Some("Office".to_string()));
    assert_eq!(kept, vec!["prod".to_string(), "web".to_string()]);
    let (none, all) = split_remmina_tags(&vec!["a".to_string()]);
    assert_eq!(none, None);
    assert_eq!(all, vec!["a".to_string()]);
    let (empty_name, _) = split_remmina_tags(&vec!["remmina:".to_string()]);
    assert_eq!(empty_name, Some(String::new()));
}

#[test]
fn import_plan_places_groups_and_connections() {
    let mut plan = ImportPlan::new(Some(100));
    // A root group goes under the import's group.
    assert_eq!(plan.parent_for_group(None), Some(100));
    plan.record_group(1, "Office", 101);
    // A child of a recreated group goes under its new identifier.
    assert_eq!(plan.parent_for_group(Some(1)), Some(101));
    // A parent that was not imported falls back to the import's group.
    assert_eq!(plan.parent_for_group(Some(55)), Some(100));
    assert_eq!(plan.target_group(&None, Some(1)), Some(101));
    assert_eq!(plan.target_group(&None, Some(2)), Some(100));
    assert_eq!(plan.target_group(&None, None), Some(100));
    // Remmina subgroups are looked up by name; a missing one is created
    // under the import's group first.
    assert_eq!(plan.target_group(&Some("Office".to_string()), Some(1)), Some(101));
    assert_eq!(plan.remmina_subgroup_to_create("Office"), None);
    assert_eq!(plan.remmina_subgroup_to_create("Lab"), Some(100));
    assert_eq!(plan.target_group(&Some("Lab".to_string()), None), None);
    plan.record_subgroup("Lab", 102);
    assert_eq!(plan.subgroup("Lab"), Some(102));
    assert_eq!(plan.target_group(&Some("Lab".to_string()), None), Some(102));
    // The latest record of a name wins.
    plan.record_subgroup("Lab", 103);
    assert_eq!(plan.subgroup("Lab"), Some(103));
    let orphan = ImportPlan::new(None);
    assert_eq!(orphan.remmina_subgroup_to_create("Lab"), None);
    assert_eq!(orphan.parent_for_group(None), None);
}

#[test]
fn history_trimming() {
    let entries = vec![(5i64, 'a'), (1, 'b'), (9, 'c'), (7, 'd'), (9, 'e'), (3, 'f')];
    // Within the limit: the recent entries stay in their order.
    assert_eq!(
        trim_history(entries.clone(), 2, 10),
        vec![(5, 'a'), (9, 'c'), (7, 'd'), (9, 'e'), (3, 'f')]
    );
    // Over the limit: the most recent, newest first, ties in their order.
    assert_eq!(trim_history(entries.clone(), 2, 3), vec![(9, 'c'), (9, 'e'), (7, 'd')]);
    assert_eq!(trim_history(entries.clone(), 100, 3), Vec::<(i64, char)>::new());
    assert_eq!(trim_history(entries, 0, 0), Vec::<(i64, char)>::new());
}

fn saved(id: u128, saved_at: i64) -> SavedSession {
    SavedSession {
        connection_id: id,
        connection_name: format!("c{id}"),
        protocol: "ssh".to_string(),
        host: "h".to_string(),
        port: 22,
        saved_at,
    }
}

#[test]
fn sessions_to_restore() {
    let hour = 3_600_000i64;
    let now = 100 * hour;
    let list = vec![saved(1, now - 2 * hour), saved(2, now - 5 * hour), saved(3, now), saved(4, now - hour)];
    let existing = vec![1u128, 2, 3];
    let ids = |v: Vec<SavedSession>| v.iter().map(|s| s.connection_id).collect::<Vec<_>>();
    assert_eq!(ids(get_sessions_to_restore(&list, &existing, true, 0, now)), vec![1, 2, 3]);
    // Five whole hours is older than four; two is not.
    assert_eq!(ids(get_sessions_to_restore(&list, &existing, true, 4, now)), vec![1, 3]);
    // Exactly the limit is kept; a moment more is still the same whole hours.
    let edge = vec![saved(1, now - 4 * hour), saved(2, now - 5 * hour + 1)];
    assert_eq!(ids(get_sessions_to_restore(&edge, &existing, true, 4, now)), vec![1, 2]);
    assert!(get_sessions_to_restore(&list, &existing, false, 0, now).is_empty());
    // Sessions saved in the future are never too old.
    assert_eq!(ids(get_sessions_to_restore(&vec![saved(2, now + 10 * hour)], &existing, true, 1, now)), vec![2]);
    let restored = get_sessions_to_restore(&list, &existing, true, 0, now);
    assert_eq!(restored[0].connection_name, "c1");
}

#[test]
fn display_order_by_sort_order_then_name() {
    let items = vec![
        (1, "beta".to_string()),
        (0, "Zulu".to_string()),
        (0, "alpha".to_string()),
        (1, "Alpha".to_string()),
        (0, "zulu".to_string()),
    ];
    // Sort order 0 first: alpha, then the two zulus in their order; then
    // sort order 1: Alpha, beta.
    assert_eq!(sorted_positions(&items), vec![2, 1, 4, 3, 0]);
    assert!(sorted_positions(&Vec::new()).is_empty());
}

#[test]
fn text_order_by_code_point() {
    assert!(less_text("a", "b"));
    assert!(less_text("ab", "abc"));
    assert!(!less_text("abc", "ab"));
    assert!(!less_text("x", "x"));
    assert!(less_text("Z", "a"));
    assert!(less_text("z", "é"));
    for (a, b) in [("é", "z"), ("", ""), ("", "a"), ("b", "ab"), ("日本", "日")] {
        assert_eq!(less_text(a, b), a < b, "{a:?} {b:?}");
    }
}

#[test]
fn sessions_to_restore_at_the_current_time() {
    let hour = 3_600_000i64;
    let list = vec![saved(1, 0), saved(5, 0), saved(2, 7 * hour)];
    let existing = vec![1u128, 2];
    let ids = |v: Vec<SavedSession>| v.iter().map(|s| s.connection_id).collect::<Vec<_>>();
    // Without an age limit the clock does not matter.
    assert_eq!(ids(sessions_to_restore_now(&list, &existing, true, 0)), vec![1, 2]);
    assert!(sessions_to_restore_now(&list, &existing, false, 0).is_empty());
    // Sessions saved decades ago are past a one-hour limit today.
    assert!(sessions_to_restore_now(&list, &existing, true, 1).is_empty());
}
