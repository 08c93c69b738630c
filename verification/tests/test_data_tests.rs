use udf_store::Database;
use udf_store::get_test_documents;
use udf_store::get_test_udfs;

#[test]
fn sample_documents_have_expected_keys() {
    let docs = get_test_documents();
    assert_eq!(docs.len(), 5);
    let keys: Vec<&str> = docs.iter().map(|p| p.0).collect();
    assert_eq!(keys, vec!["1", "2", "3", "4", "5"]);
    for (_, text) in &docs {
        assert!(serde_json::from_str::<serde_json::Value>(text).is_ok());
    }
}

#[test]
fn sample_udfs_have_expected_names() {
    let udfs = get_test_udfs();
    assert_eq!(udfs.len(), 3);
    let names: Vec<&str> = udfs.iter().map(|u| u.name).collect();
    assert_eq!(names, vec!["has_hello", "high_priority", "is_active"]);
    for u in &udfs {
        assert!(!u.description.is_empty());
        assert!(u.code.contains("function"));
    }
}

#[test]
fn sample_data_drives_the_expected_scenario() {
    let mut db = Database::new();
    for (key, text) in get_test_documents() {
        db.set(key.to_string(), text.to_string()).unwrap();
    }
    for udf in get_test_udfs() {
        db.register_udf(udf.name.to_string(), udf.code.to_string()).unwrap();
    }
    assert_eq!(db.len(), 5);
    assert_eq!(db.list_udfs().len(), 3);

    let keys = |name: &str| -> Vec<String> {
        db.get_where(name).unwrap().into_iter().map(|p| p.0).collect()
    };
    assert_eq!(keys("has_hello"), vec!["1".to_string(), "3".to_string()]);
    assert_eq!(keys("high_priority"), vec!["3".to_string()]);
    assert_eq!(keys("is_active"), vec!["3".to_string()]);
}
