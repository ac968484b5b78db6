use mongo_demo::document::Document;

#[test]
fn new_document_has_no_fields() {
    let doc = Document::new();
    assert_eq!(doc.field_count(), 0);
    assert!(doc.get("title").is_none());
}

#[test]
fn set_field_appends_an_absent_name() {
    let mut doc = Document::new();
    doc.set_field("title", "1984");
    doc.set_field("author", "George Orwell");
    assert_eq!(doc.field_count(), 2);
    assert_eq!(doc.get("title").unwrap().as_str(), "1984");
    assert_eq!(doc.get("author").unwrap().as_str(), "George Orwell");
    assert!(doc.get("year").is_none());
}

#[test]
fn set_field_overwrites_a_present_name() {
    let mut doc = Document::new();
    doc.set_field("title", "1984");
    doc.set_field("title", "Animal Farm");
    assert_eq!(doc.field_count(), 1);
    assert_eq!(doc.get("title").unwrap().as_str(), "Animal Farm");
}

#[test]
fn field_at_walks_the_fields() {
    let mut doc = Document::new();
    doc.set_field("title", "The Great Gatsby");
    doc.set_field("author", "F. Scott Fitzgerald");
    let first = doc.field_at(0);
    assert_eq!(first.0.as_str(), "title");
    assert_eq!(first.1.as_str(), "The Great Gatsby");
    let second = doc.field_at(1);
    assert_eq!(second.0.as_str(), "author");
    assert_eq!(second.1.as_str(), "F. Scott Fitzgerald");
}
