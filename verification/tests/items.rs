use better_control_panel::items::{contains_chars, Item, Items};

#[test]
fn substring_search_is_exact() {
    assert!(contains_chars("hello world", "o w"));
    assert!(contains_chars("hello world", ""));
    assert!(contains_chars("hello", "hello"));
    assert!(!contains_chars("hello", "hello!"));
    assert!(!contains_chars("", "x"));
    assert!(contains_chars("héllo → 世界", "世"));
    assert!(!contains_chars("hello world", "wo rld"));
}

#[test]
fn add_keeps_names_unique_and_reports_replacement() {
    let mut items = Items::new();
    assert!(items.list().is_empty());
    assert_eq!(items.add("notes".to_string(), "first".to_string()), None);
    assert_eq!(items.add("todo".to_string(), "buy milk".to_string()), None);
    let previous = items.add("notes".to_string(), "second".to_string());
    assert_eq!(previous, Some(Item { content: "first".to_string() }));
    assert_eq!(items.list().len(), 2);
    assert_eq!(items.list()[0].1.content, "second");
}

#[test]
fn edit_changes_only_a_stored_name() {
    let mut items = Items::new();
    items.add("notes".to_string(), "first".to_string());
    assert!(items.edit("notes", "revised".to_string()));
    assert_eq!(items.list()[0].1.content, "revised");
    assert!(!items.edit("missing", "x".to_string()));
    assert_eq!(items.list().len(), 1);
}

#[test]
fn remove_returns_the_stored_item() {
    let mut items = Items::new();
    items.add("a".to_string(), "1".to_string());
    items.add("b".to_string(), "2".to_string());
    assert_eq!(items.remove("a"), Some(Item::new("1".to_string())));
    assert_eq!(items.remove("a"), None);
    assert_eq!(items.list().len(), 1);
    assert_eq!(items.list()[0].0, "b");
}

#[test]
fn find_is_case_insensitive_and_trims() {
    let mut items = Items::new();
    items.add("Shopping List".to_string(), "eggs".to_string());
    items.add("work".to_string(), "report".to_string());
    items.add("  List of ideas ".to_string(), "fly".to_string());
    // Case folding applies to both sides, trimming to both sides.
    let hits = items.find("  LIST ");
    assert_eq!(hits.len(), 2);
    assert_eq!(hits[0].0, "Shopping List");
    assert_eq!(hits[1].0, "  List of ideas ");
    let hits = items.find("WORK");
    assert_eq!(hits.len(), 1);
    assert_eq!(hits[0].1.content, "report");
    assert!(items.find("nothing like this").is_empty());
}
