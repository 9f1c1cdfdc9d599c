use rustconn::validation::{
    all_of, hostname, max_length, min_length, parse_u16, pattern, port_number, required,
    try_pattern, FieldValidator, FormValidator, ValidationResult, ERROR_CSS_CLASS,
    SUCCESS_CSS_CLASS, WARNING_CSS_CLASS,
};

fn error_of(r: ValidationResult) -> Option<String> {
    match r {
        ValidationResult::Error(m) => Some(m),
        _ => None,
    }
}

#[test]
fn result_predicates() {
    assert!(ValidationResult::Valid.is_valid());
    assert!(!ValidationResult::Valid.is_error());
    assert_eq!(ValidationResult::Valid.message(), None);
    let w = ValidationResult::Warning("careful".to_string());
    assert!(w.is_valid());
    assert!(!w.is_error());
    assert_eq!(w.message(), Some("careful"));
    let e = ValidationResult::Error("bad".to_string());
    assert!(!e.is_valid());
    assert!(e.is_error());
    assert_eq!(e.message(), Some("bad"));
    assert_eq!(ERROR_CSS_CLASS, "error");
    assert_eq!(WARNING_CSS_CLASS, "warning");
    assert_eq!(SUCCESS_CSS_CLASS, "success");
}

#[test]
fn required_trims() {
    let v = required("Name");
    assert_eq!(error_of(v.call("")), Some("Name is required".to_string()));
    assert_eq!(error_of(v.call(" \t ")), Some("Name is required".to_string()));
    assert!(v.call(" x ").is_valid());
}

#[test]
fn length_limits_count_characters() {
    let min = min_length("Password", 3);
    assert_eq!(
        error_of(min.call("ab")),
        Some("Password must be at least 3 characters".to_string())
    );
    // Two characters (four bytes) are still too few.
    assert_eq!(
        error_of(min.call("éé")),
        Some("Password must be at least 3 characters".to_string())
    );
    assert!(min.call("ééé").is_valid());
    let max = max_length("Label", 4);
    assert!(max.call("abcd").is_valid());
    assert!(max.call("éééé").is_valid());
    assert_eq!(
        error_of(max.call("ééééé")),
        Some("Label must be at most 4 characters".to_string())
    );
}

#[test]
fn hostnames() {
    let v = hostname();
    assert!(v.call("example.com").is_valid());
    assert!(v.call("  10.0.0.1  ").is_valid());
    assert!(v.call("[::1]").is_valid());
    assert!(v.call("höst").is_valid());
    assert_eq!(error_of(v.call("   ")), Some("Host is required".to_string()));
    assert_eq!(
        error_of(v.call("bad host")),
        Some("Invalid hostname format".to_string())
    );
    assert_eq!(
        error_of(v.call("a_b")),
        Some("Invalid hostname format".to_string())
    );
    assert_eq!(
        error_of(v.call("-edge")),
        Some("Hostname cannot start or end with a hyphen".to_string())
    );
    assert_eq!(
        error_of(v.call("edge-")),
        Some("Hostname cannot start or end with a hyphen".to_string())
    );
}

#[test]
fn ports() {
    let v = port_number();
    assert!(v.call("22").is_valid());
    assert!(v.call(" 65535 ").is_valid());
    assert!(v.call("+8080").is_valid());
    assert_eq!(error_of(v.call("")), Some("Port is required".to_string()));
    assert_eq!(error_of(v.call("0")), Some("Port must be greater than 0".to_string()));
    assert_eq!(error_of(v.call("65536")), Some("Invalid port number".to_string()));
    assert_eq!(error_of(v.call("-1")), Some("Invalid port number".to_string()));
    assert_eq!(error_of(v.call("2 2")), Some("Invalid port number".to_string()));
    assert_eq!(error_of(v.call("+")), Some("Invalid port number".to_string()));
}

#[test]
fn parse_u16_matches_std() {
    for s in ["0", "7", "+7", "0065535", "65535", "65536", "99999999999", "", "+", "-0", " 1", "1a", "٣"] {
        assert_eq!(parse_u16(s), s.parse::<u16>().ok(), "input {s:?}");
    }
}

#[test]
fn patterns() {
    let v = pattern("Code", "^[A-Z]{3}$", "three capitals");
    assert!(v.call("ABC").is_valid());
    assert_eq!(error_of(v.call("abc")), Some("Code: three capitals".to_string()));
    assert!(try_pattern("Code", "(", "x").is_none());
    let w = try_pattern("Digits", "^[0-9]+$", "digits only").unwrap();
    assert!(w.call("123").is_valid());
    assert_eq!(error_of(w.call("12a")), Some("Digits: digits only".to_string()));
}

#[test]
fn all_of_returns_first_error() {
    let v = all_of(vec![required("Host"), hostname(), max_length("Host", 5)]);
    assert_eq!(error_of(v.call("")), Some("Host is required".to_string()));
    assert_eq!(error_of(v.call("a b")), Some("Invalid hostname format".to_string()));
    assert_eq!(
        error_of(v.call("abcdef")),
        Some("Host must be at most 5 characters".to_string())
    );
    assert!(v.call("abc").is_valid());
    // Nested combinations keep the order.
    let nested = all_of(vec![all_of(vec![min_length("P", 2)]), required("P")]);
    assert_eq!(error_of(nested.call("")), Some("P must be at least 2 characters".to_string()));
    assert!(all_of(Vec::new()).call("").is_valid());
}

#[test]
fn field_feedback_and_changes() {
    let mut f = FieldValidator::new().with_error_label().required("Name").hostname();
    assert!(f.is_valid());
    let fb = f.validate("");
    assert!(!fb.is_valid);
    assert!(fb.changed);
    assert_eq!(fb.entry_class, Some("error"));
    assert_eq!(fb.label, Some(("Name is required".to_string(), true)));
    assert!(!f.is_valid());
    let fb = f.validate("bad host");
    assert!(!fb.changed);
    assert_eq!(fb.label, Some(("Invalid hostname format".to_string(), true)));
    let fb = f.validate("good");
    assert!(fb.is_valid);
    assert!(fb.changed);
    assert_eq!(fb.entry_class, Some("success"));
    assert_eq!(fb.label, Some((String::new(), false)));
    assert!(f.is_valid());
}

#[test]
fn field_without_label_or_rules() {
    let mut f = FieldValidator::new();
    let fb = f.validate("");
    assert!(fb.is_valid);
    assert!(!fb.changed);
    assert_eq!(fb.entry_class, None);
    assert_eq!(fb.label, None);
    let mut g = FieldValidator::new().add_validator(port_number());
    let fb = g.validate("x");
    assert_eq!(fb.entry_class, Some("error"));
    assert_eq!(fb.label, None);
}

#[test]
fn form_validates_every_field() {
    let mut form = FormValidator::default();
    form.add_field(FieldValidator::new().required("Name"));
    form.add_field(FieldValidator::new().hostname());
    assert!(form.is_valid());
    let fb = form.validate(&vec!["".to_string(), "".to_string()]);
    assert!(!fb.all_valid);
    assert!(fb.changed);
    assert_eq!(fb.fields.len(), 2);
    assert!(fb.fields.iter().all(|f| !f.is_valid));
    let fb = form.validate(&vec!["n".to_string(), "".to_string()]);
    assert!(!fb.all_valid);
    assert!(!fb.changed);
    assert!(fb.fields[0].is_valid);
    let fb = form.validate(&vec!["n".to_string(), "h".to_string()]);
    assert!(fb.all_valid);
    assert!(fb.changed);
    assert!(form.is_valid());
    let empty = FormValidator::new();
    assert!(empty.is_valid());
}
