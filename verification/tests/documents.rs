use ghostty_config::documents::DocumentStore;

#[test]
fn read_after_open() {
    let mut s = DocumentStore::new();
    s.open("file:///a", "font-size = 12");
    assert_eq!(s.get("file:///a"), Some("font-size = 12".to_string()));
    assert_eq!(s.get("file:///b"), None);
}

#[test]
fn close_removes_only_that_document() {
    let mut s = DocumentStore::new();
    s.open("file:///a", "A");
    s.open("file:///b", "B");
    s.close("file:///a");
    assert_eq!(s.get("file:///a"), None);
    assert_eq!(s.get("file:///b"), Some("B".to_string()));
    s.close("file:///zzz");
    assert_eq!(s.get("file:///b"), Some("B".to_string()));
}

#[test]
fn change_keeps_last_text() {
    let mut s = DocumentStore::new();
    s.open("u", "one");
    s.change("u", &vec!["two".to_string(), "three".to_string()]);
    assert_eq!(s.get("u"), Some("three".to_string()));
    s.change("u", &vec![]);
    assert_eq!(s.get("u"), Some("three".to_string()));
    // a change of a document that is not open opens it
    s.change("v", &vec!["new".to_string()]);
    assert_eq!(s.get("v"), Some("new".to_string()));
}

#[test]
fn last_open_wins_and_close_undoes_open() {
    let mut s = DocumentStore::new();
    s.open("u", "first");
    s.open("u", "second");
    assert_eq!(s.get("u"), Some("second".to_string()));
    s.close("u");
    assert_eq!(s.get("u"), None);
}
