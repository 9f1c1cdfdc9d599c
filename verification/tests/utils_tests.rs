use rustconn::utils::{
    collect_variable_names, extract_variables, format_bytes, format_duration, truncate_string,
};

#[test]
fn test_extract_variables() {
    let template = "Hello ${name}, your ID is ${user_id}";
    let vars = extract_variables(template);
    assert_eq!(vars, vec!["name", "user_id"]);
}

#[test]
fn test_extract_variables_duplicates() {
    let template = "${var} and ${var} again";
    let vars = extract_variables(template);
    assert_eq!(vars, vec!["var"]);
}

#[test]
fn test_extract_variables_empty() {
    let template = "No variables here";
    let vars = extract_variables(template);
    assert!(vars.is_empty());
}

#[test]
fn test_truncate_string() {
    assert_eq!(truncate_string("hello", 10), "hello");
    assert_eq!(truncate_string("hello world", 8), "hello w…");
    assert_eq!(truncate_string("hi", 2), "hi");
    assert_eq!(truncate_string("hi", 1), "…");
}

#[test]
fn test_format_duration() {
    assert_eq!(format_duration(30), "30s");
    assert_eq!(format_duration(60), "1m");
    assert_eq!(format_duration(90), "1m 30s");
    assert_eq!(format_duration(3600), "1h");
    assert_eq!(format_duration(3660), "1h 1m");
}

#[test]
fn test_format_bytes() {
    assert_eq!(format_bytes(500), "500 B");
    assert_eq!(format_bytes(1024), "1.0 KB");
    assert_eq!(format_bytes(1536), "1.5 KB");
    assert_eq!(format_bytes(1048576), "1.0 MB");
}

#[test]
fn format_bytes_matches_float_formatting() {
    let samples: [u64; 14] = [
        0,
        1023,
        1280,
        1281,
        3328,
        1048575,
        1073741823,
        1073741824,
        1610612736,
        5368709120,
        9007199254740993,
        18014398509481985,
        u64::MAX - 1,
        u64::MAX,
    ];
    for b in samples {
        let expected = if b < 1024 {
            format!("{b} B")
        } else if b < 1048576 {
            format!("{:.1} KB", b as f64 / 1024.0)
        } else if b < 1073741824 {
            format!("{:.1} MB", b as f64 / 1048576.0)
        } else {
            format!("{:.2} GB", b as f64 / 1073741824.0)
        };
        assert_eq!(format_bytes(b), expected, "bytes = {b}");
    }
}

#[test]
fn format_bytes_ties_round_to_even() {
    assert_eq!(format_bytes(1280), "1.2 KB");
    assert_eq!(format_bytes(3328), "3.2 KB");
    assert_eq!(format_bytes(1792), "1.8 KB");
}

#[test]
fn format_duration_hours_and_minutes() {
    assert_eq!(format_duration(0), "0s");
    assert_eq!(format_duration(59), "59s");
    assert_eq!(format_duration(3599), "59m 59s");
    assert_eq!(format_duration(9000), "2h 30m");
    assert_eq!(format_duration(7259), "2h");
}

#[test]
fn truncate_string_counts_characters() {
    assert_eq!(truncate_string("ééé", 4), "ééé");
    assert_eq!(truncate_string("éééé", 4), "éééé");
    assert_eq!(truncate_string("ééééé", 4), "ééé…");
    assert_eq!(truncate_string("日本", 4), "日本");
    assert_eq!(truncate_string("abc", 0), "…");
    assert_eq!(truncate_string("", 0), "");
}

#[test]
fn extract_variables_rejects_invalid_names() {
    let vars = extract_variables("${1abc} ${ok_1} ${} ${a-b} ${_x}");
    assert_eq!(vars, vec!["ok_1", "_x"]);
}

#[test]
fn collect_variable_names_keeps_first_occurrences() {
    let caps = vec![
        Some("b".to_string()),
        None,
        Some("a".to_string()),
        Some("b".to_string()),
    ];
    assert_eq!(collect_variable_names(caps), vec!["b", "a"]);
}
