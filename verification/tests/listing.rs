use mongo_demo::names::contains_name;

#[test]
fn contains_name_finds_each_present_name() {
    let names = vec!["admin".to_string(), "config".to_string(), "local".to_string()];
    assert!(contains_name(&names, "admin"));
    assert!(contains_name(&names, "config"));
    assert!(contains_name(&names, "local"));
}

#[test]
fn contains_name_rejects_absent_names() {
    let names = vec!["admin".to_string()];
    assert!(!contains_name(&names, "admi"));
    assert!(!contains_name(&names, "admins"));
    assert!(!contains_name(&names, ""));
    let empty: Vec<String> = Vec::new();
    assert!(!contains_name(&empty, "admin"));
}
