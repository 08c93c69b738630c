use udf_store::Database;
use udf_store::DbError;

fn parse(text: &str) -> serde_json::Value {
    serde_json::from_str(text).expect("test text must be valid JSON")
}

fn match_keys(results: &[(String, String)]) -> Vec<String> {
    results.iter().map(|p| p.0.clone()).collect()
}

#[test]
fn round_trip_returns_equal_structure() {
    let mut db = Database::new();
    let text = r#"{"b": [1, null, true, "x"], "a": 1.5, "c": {"d": "e"}}"#;
    db.set("k".to_string(), text.to_string()).unwrap();
    let got = db.get("k").unwrap();
    assert_eq!(parse(&got), parse(text));
}

#[test]
fn stored_text_is_canonical_and_stable() {
    let mut db = Database::new();
    let text = "{\"a\":    1,   \"b\": 2}";
    db.set("k".to_string(), text.to_string()).unwrap();
    let first = db.get("k").unwrap();
    // The canonical form is a reformatting, not the input echoed back.
    assert_ne!(first, text);
    assert_eq!(parse(&first), parse(text));
    // Canonicalizing the canonical form changes nothing.
    db.set("k".to_string(), first.clone()).unwrap();
    assert_eq!(db.get("k").unwrap(), first);
}

#[test]
fn overwrite_leaves_only_second_document() {
    let mut db = Database::new();
    db.set("k".to_string(), r#"{"v": 1}"#.to_string()).unwrap();
    db.set("k".to_string(), r#"{"v": 2}"#.to_string()).unwrap();
    assert_eq!(db.len(), 1);
    assert_eq!(parse(&db.get("k").unwrap()), parse(r#"{"v": 2}"#));
}

#[test]
fn set_rejects_invalid_json_and_stays_unchanged() {
    let mut db = Database::new();
    db.set("good".to_string(), r#"{"v": 1}"#.to_string()).unwrap();
    let r = db.set("bad".to_string(), "{not json".to_string());
    assert!(matches!(r, Err(DbError::Parse(_))));
    assert_eq!(db.len(), 1);
    assert!(db.get("bad").is_none());
    assert!(db.get("good").is_some());
}

#[test]
fn get_unknown_key_is_none() {
    let db = Database::new();
    assert!(db.get("missing").is_none());
    assert!(db.is_empty());
    assert_eq!(db.len(), 0);
}

#[test]
fn keys_reports_every_stored_key() {
    let mut db = Database::new();
    db.set("a".to_string(), "1".to_string()).unwrap();
    db.set("b".to_string(), "2".to_string()).unwrap();
    db.set("c".to_string(), "[]".to_string()).unwrap();
    let keys = db.keys();
    assert_eq!(keys, vec!["a".to_string(), "b".to_string(), "c".to_string()]);
    assert_eq!(db.len(), 3);
    assert!(!db.is_empty());
}

#[test]
fn failing_register_changes_nothing() {
    let mut db = Database::new();
    db.register_udf("p".to_string(), "function(val) return true end".to_string()).unwrap();
    let before = db.list_udfs();
    let r = db.register_udf("broken".to_string(), "this is not lua (((".to_string());
    assert!(matches!(r, Err(DbError::Compile(_))));
    assert_eq!(db.list_udfs(), before);
}

#[test]
fn failing_reregister_keeps_previous_definition() {
    let mut db = Database::new();
    db.set("1".to_string(), r#"{"x": 1}"#.to_string()).unwrap();
    db.register_udf("p".to_string(), "function(val) return true end".to_string()).unwrap();
    let r = db.register_udf("p".to_string(), "function(".to_string());
    assert!(matches!(r, Err(DbError::Compile(_))));
    assert_eq!(db.list_udfs(), vec!["p".to_string()]);
    // The previously registered source still answers queries.
    let results = db.get_where("p").unwrap();
    assert_eq!(match_keys(&results), vec!["1".to_string()]);
}

#[test]
fn register_non_function_source_rejected() {
    let mut db = Database::new();
    let r = db.register_udf("n".to_string(), "42".to_string());
    assert!(matches!(r, Err(DbError::Compile(_))));
    assert!(db.list_udfs().is_empty());
}

#[test]
fn reregister_overwrites_in_place() {
    let mut db = Database::new();
    db.set("1".to_string(), r#"{"x": 1}"#.to_string()).unwrap();
    db.register_udf("p".to_string(), "function(val) return false end".to_string()).unwrap();
    db.register_udf("p".to_string(), "function(val) return true end".to_string()).unwrap();
    assert_eq!(db.list_udfs(), vec!["p".to_string()]);
    let results = db.get_where("p").unwrap();
    assert_eq!(match_keys(&results), vec!["1".to_string()]);
}

#[test]
fn unknown_udf_fails_with_not_found() {
    let mut db = Database::new();
    db.set("1".to_string(), r#"{"x": 1}"#.to_string()).unwrap();
    let r = db.get_where("does-not-exist");
    assert!(matches!(r, Err(DbError::NotFound(_))));
}

#[test]
fn per_row_isolation_skips_only_offending_documents() {
    let mut db = Database::new();
    db.set("1".to_string(), r#"{"message": "say hello"}"#.to_string()).unwrap();
    db.set("2".to_string(), r#"{"foo": "bar"}"#.to_string()).unwrap();
    db.set("3".to_string(), r#"{"message": "HELLO again"}"#.to_string()).unwrap();
    // Dereferences `message` without a nil check: errors on document "2".
    db.register_udf(
        "strict".to_string(),
        r#"function(val) return string.lower(val.message):find("hello") ~= nil end"#.to_string(),
    )
    .unwrap();
    let results = db.get_where("strict").expect("one bad document must not fail the scan");
    assert_eq!(match_keys(&results), vec!["1".to_string(), "3".to_string()]);
}

#[test]
fn scan_over_empty_store_is_empty() {
    let mut db = Database::new();
    db.register_udf("p".to_string(), "function(val) return true end".to_string()).unwrap();
    let results = db.get_where("p").unwrap();
    assert!(results.is_empty());
}

#[test]
fn truthy_non_boolean_returns_count_as_matches() {
    let mut db = Database::new();
    db.set("1".to_string(), r#"{"x": 1}"#.to_string()).unwrap();
    db.set("2".to_string(), r#"{"x": 2}"#.to_string()).unwrap();
    db.register_udf("number".to_string(), "function(val) return 1 end".to_string()).unwrap();
    db.register_udf("nothing".to_string(), "function(val) return nil end".to_string()).unwrap();
    assert_eq!(
        match_keys(&db.get_where("number").unwrap()),
        vec!["1".to_string(), "2".to_string()]
    );
    assert!(db.get_where("nothing").unwrap().is_empty());
}

fn scenario_store() -> Database {
    let mut db = Database::new();
    db.set("1".to_string(), r#"{"message": "hello world", "priority": 5}"#.to_string()).unwrap();
    db.set("2".to_string(), r#"{"foo": "bar"}"#.to_string()).unwrap();
    db.set(
        "3".to_string(),
        r#"{"message": "HELLO", "active": true, "priority": 9}"#.to_string(),
    )
    .unwrap();
    db.set("4".to_string(), r#"{"active": false}"#.to_string()).unwrap();
    db.set("5".to_string(), r#"{"message": "bonjour", "priority": 7}"#.to_string()).unwrap();
    db
}

#[test]
fn concrete_scenario_matches_expected_sets() {
    let mut db = scenario_store();
    db.register_udf(
        "has_hello".to_string(),
        "function(val)\n  if val.message == nil then return false end\n  return string.lower(val.message):find(\"hello\") ~= nil\nend".to_string(),
    )
    .unwrap();
    db.register_udf(
        "high_priority".to_string(),
        "function(val) return val.priority and val.priority >= 8 end".to_string(),
    )
    .unwrap();
    db.register_udf(
        "is_active".to_string(),
        "function(val) return val.active == true end".to_string(),
    )
    .unwrap();

    assert_eq!(
        match_keys(&db.get_where("has_hello").unwrap()),
        vec!["1".to_string(), "3".to_string()]
    );
    assert_eq!(match_keys(&db.get_where("high_priority").unwrap()), vec!["3".to_string()]);
    assert_eq!(match_keys(&db.get_where("is_active").unwrap()), vec!["3".to_string()]);

    // The reported documents are the stored ones.
    let results = db.get_where("has_hello").unwrap();
    assert_eq!(
        parse(&results[0].1),
        parse(r#"{"message": "hello world", "priority": 5}"#)
    );
    assert_eq!(
        parse(&results[1].1),
        parse(r#"{"message": "HELLO", "active": true, "priority": 9}"#)
    );
}

#[test]
fn numeric_boundary_is_inclusive() {
    let mut db = Database::new();
    db.set("at".to_string(), r#"{"priority": 8}"#.to_string()).unwrap();
    db.set("below".to_string(), r#"{"priority": 7}"#.to_string()).unwrap();
    db.register_udf(
        "high_priority".to_string(),
        "function(val) return val.priority and val.priority >= 8 end".to_string(),
    )
    .unwrap();
    assert_eq!(match_keys(&db.get_where("high_priority").unwrap()), vec!["at".to_string()]);
}
