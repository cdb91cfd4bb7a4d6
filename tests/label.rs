use ghlabel::label::{get_labels, get_name_and_color, Label, LabelError, TemplateEntry};

fn entry(is_hash: bool, name: Option<&str>, color: Option<&str>) -> TemplateEntry {
    TemplateEntry { is_hash, name: name.map(|s| s.to_string()), color: color.map(|s| s.to_string()) }
}

#[test]
fn new_builds_locator() {
    let l = Label::new("https://api.github.com", "bug", "fc2929", "rust-lang", "rust").unwrap();
    assert_eq!(l.name, "bug");
    assert_eq!(l.color, "fc2929");
    assert_eq!(l.url, "https://api.github.com/repos/rust-lang/rust/labels/bug");
}

#[test]
fn new_normalises_locator() {
    let l = Label::new("HTTPS://API.Example.COM", "a b", "000000", "u", "r").unwrap();
    assert_eq!(l.url, "https://api.example.com/repos/u/r/labels/a%20b");
}

#[test]
fn new_rejects_bad_endpoint() {
    match Label::new("not a url", "bug", "fc2929", "u", "r") {
        Err(LabelError::UrlParseError(_)) => {}
        other => panic!("unexpected {:?}", other),
    }
}

#[test]
fn entry_errors_in_order() {
    assert!(matches!(get_name_and_color(&entry(false, Some("a"), Some("b"))), Err(LabelError::YamlItemNotHash)));
    assert!(matches!(get_name_and_color(&entry(true, None, None)), Err(LabelError::MissingName)));
    assert!(matches!(get_name_and_color(&entry(true, Some("a"), None)), Err(LabelError::MissingColor)));
    assert_eq!(get_name_and_color(&entry(true, Some("a"), Some("b"))).unwrap(), ("a".to_string(), "b".to_string()));
}

#[test]
fn template_to_labels() {
    let entries = vec![entry(true, Some("bug"), Some("fc2929")), entry(true, Some("duplicate"), Some("cccccc"))];
    let v = get_labels(&entries, "https://api.github.com", "u", "r").unwrap();
    assert_eq!(v.len(), 2);
    assert_eq!(v[1].name, "duplicate");
    assert_eq!(v[1].color, "cccccc");
    assert_eq!(v[1].url, "https://api.github.com/repos/u/r/labels/duplicate");
}

#[test]
fn template_first_bad_entry_stops() {
    let entries = vec![entry(true, Some("bug"), Some("fc2929")), entry(true, Some("x"), None), entry(false, None, None)];
    assert!(matches!(get_labels(&entries, "https://api.github.com", "u", "r"), Err(LabelError::MissingColor)));
    let empty: Vec<TemplateEntry> = vec![];
    assert!(get_labels(&empty, "https://api.github.com", "u", "r").unwrap().is_empty());
}

#[test]
fn parse_error_converts() {
    let e = url::Url::parse("no scheme").unwrap_err();
    assert!(matches!(LabelError::from(e), LabelError::UrlParseError(_)));
}
