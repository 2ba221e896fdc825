use radium::attrs::AttrMap;
use radium::dom::build_tree;
use radium::images::image_sources;
use radium::parser::tokenize;

#[test]
fn insert_and_get() {
    let mut m = AttrMap::new();
    assert!(m.is_empty());
    m.insert("href".to_string(), "a".to_string());
    m.insert("class".to_string(), "b".to_string());
    assert!(!m.is_empty());
    assert_eq!(m.get("href").unwrap(), "a");
    assert_eq!(m.get("class").unwrap(), "b");
    assert!(m.get("id").is_none());
}

#[test]
fn later_insert_overrides() {
    let mut m = AttrMap::new();
    m.insert("k".to_string(), "old".to_string());
    m.insert("k".to_string(), "new".to_string());
    assert_eq!(m.get("k").unwrap(), "new");
}

#[test]
fn entries_fold_to_the_map() {
    let mut m = AttrMap::new();
    m.insert("a".to_string(), "1".to_string());
    m.insert("b".to_string(), "2".to_string());
    let entries = m.entries();
    assert!(entries.iter().any(|(k, v)| k == "a" && v == "1"));
    assert!(entries.iter().any(|(k, v)| k == "b" && v == "2"));
}

#[test]
fn image_sources_in_document_order() {
    let forest = build_tree(tokenize(
        "<p><img src=one.png></p><div><img src=two.png><img></div>",
    ));
    let sources = image_sources(&forest);
    assert_eq!(sources, vec!["one.png".to_string(), "two.png".to_string()]);
}
