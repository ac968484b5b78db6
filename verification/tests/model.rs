use mongo_demo::deployment::Deployment;
use mongo_demo::document::Document;

#[test]
fn test_mongodb() {
    let dep = Deployment::fresh();
    let res = dep.list_database_names();
    assert_eq!(res, vec!["admin", "config", "local"])
}

#[test]
fn test_create_database() {
    let name = "rarara";
    let mut dep = Deployment::fresh();
    let db = dep.create_database(name).unwrap();

    let collection = db.collection("books");
    let mut first = Document::new();
    first.set_field("title", "1984");
    first.set_field("author", "George Orwell");
    let mut second = Document::new();
    second.set_field("title", "Animal Farm");
    second.set_field("author", "George Orwell");
    let mut third = Document::new();
    third.set_field("title", "The Great Gatsby");
    third.set_field("author", "F. Scott Fitzgerald");
    let docs = vec![first, second, third];

    dep.insert_many(&collection, &docs);
    let res = dep.list_database_names();
    assert!(res.contains(&name.to_string()));

    dep.drop_database(name);
    let res = dep.list_database_names();
    assert!(!res.contains(&name.to_string()));
}

#[test]
fn create_of_listed_name_yields_nothing() {
    let dep = Deployment::fresh();
    assert!(dep.create_database("admin").is_none());
    assert!(dep.create_database("config").is_none());
    assert!(dep.create_database("local").is_none());
}

#[test]
fn create_of_absent_name_is_lazy() {
    let dep = Deployment::fresh();
    let handle = dep.create_database("rarara").expect("a handle for an absent name");
    assert_eq!(handle.name.as_str(), "rarara");
    let res = dep.list_database_names();
    assert!(!res.contains(&"rarara".to_string()));
}

#[test]
fn listing_twice_is_identical() {
    let dep = Deployment::fresh();
    assert_eq!(dep.list_database_names(), dep.list_database_names());
}

#[test]
fn writing_no_documents_materializes_nothing() {
    let mut dep = Deployment::fresh();
    let handle = dep.create_database("rarara").unwrap();
    let collection = handle.collection("books");
    let docs: Vec<Document> = Vec::new();
    dep.insert_many(&collection, &docs);
    assert!(!dep.list_database_names().contains(&"rarara".to_string()));
}

#[test]
fn repeated_writes_list_the_name_once() {
    let mut dep = Deployment::fresh();
    let handle = dep.create_database("rarara").unwrap();
    let collection = handle.collection("books");
    let mut doc = Document::new();
    doc.set_field("title", "1984");
    let docs = vec![doc];
    dep.insert_many(&collection, &docs);
    dep.insert_many(&collection, &docs);
    let res = dep.list_database_names();
    assert_eq!(res.iter().filter(|n| n.as_str() == "rarara").count(), 1);
}

#[test]
fn drop_of_absent_name_changes_nothing() {
    let mut dep = Deployment::fresh();
    dep.drop_database("rarara");
    assert_eq!(dep.list_database_names(), vec!["admin", "config", "local"]);
}

#[test]
fn drop_removes_only_the_dropped_name() {
    let mut dep = Deployment::fresh();
    let handle = dep.create_database("rarara").unwrap();
    let collection = handle.collection("books");
    let mut doc = Document::new();
    doc.set_field("msg", "no such database");
    let docs = vec![doc];
    dep.insert_many(&collection, &docs);
    dep.drop_database("rarara");
    assert_eq!(dep.list_database_names(), vec!["admin", "config", "local"]);
}

#[test]
fn collection_handle_names_its_database() {
    let dep = Deployment::fresh();
    let handle = dep.create_database("rarara").unwrap();
    let collection = handle.collection("books");
    assert_eq!(collection.db_name.as_str(), "rarara");
    assert_eq!(collection.collection_name.as_str(), "books");
}
