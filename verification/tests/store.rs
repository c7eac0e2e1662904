use ruggy::{Collection, Json, StoreError};

fn obj(pairs: Vec<(&str, Json)>) -> Json {
    Json::Obj(pairs.into_iter().map(|(k, v)| (k.to_string(), v)).collect())
}

fn s(text: &str) -> Json {
    Json::Str(text.to_string())
}

fn fresh(name: &str) -> Collection {
    Collection::new(name.to_string(), Vec::new())
}

fn id_of(doc: &Json) -> String {
    match doc.get("_id") {
        Some(Json::Str(v)) => v.clone(),
        other => panic!("expected a string _id, got {:?}", other),
    }
}

#[test]
fn insert_assigns_id_and_document_appears() {
    let mut col = fresh("people");
    let id = col.insert(obj(vec![("name", s("ada"))])).unwrap();
    assert_eq!(id.len(), 36);
    let docs = col.find_all();
    assert_eq!(docs.len(), 1);
    assert_eq!(id_of(&docs[0]), id);
    assert_eq!(docs[0].get("name"), Some(&s("ada")));
}

#[test]
fn insert_overwrites_caller_supplied_id() {
    let mut col = fresh("people");
    let id = col.insert(obj(vec![("_id", s("mine")), ("x", Json::from_i64(1))])).unwrap();
    assert_ne!(id, "mine");
    let docs = col.find_all();
    assert_eq!(docs.len(), 1);
    assert_eq!(id_of(&docs[0]), id);
}

#[test]
fn inserted_ids_differ() {
    let mut col = fresh("people");
    let a = col.insert(obj(vec![("n", Json::from_i64(1))])).unwrap();
    let b = col.insert(obj(vec![("n", Json::from_i64(2))])).unwrap();
    assert_ne!(a, b);
}

#[test]
fn insert_rejects_non_object() {
    let mut col = fresh("people");
    assert_eq!(col.insert(Json::from_i64(5)), Err(StoreError::InvalidInput));
    assert_eq!(col.insert(Json::Arr(vec![Json::Null])), Err(StoreError::InvalidInput));
    assert_eq!(col.find_all().len(), 0);
    assert_eq!(col.file_lines().len(), 0);
}

#[test]
fn reopen_round_trip_keeps_order() {
    let mut col = fresh("people");
    col.insert(obj(vec![("n", Json::from_i64(1))])).unwrap();
    col.insert(obj(vec![("n", Json::from_i64(2)), ("tag", s("two"))])).unwrap();
    col.insert(obj(vec![("deep", obj(vec![("a", Json::Arr(vec![Json::Bool(true), Json::Null]))]))]))
        .unwrap();
    let lines = col.file_lines().clone();
    let reopened = Collection::new("people".to_string(), lines);
    assert_eq!(reopened.find_all(), col.find_all());
}

#[test]
fn persist_twice_writes_identical_content() {
    let mut col = fresh("people");
    col.insert(obj(vec![("n", Json::from_i64(1))])).unwrap();
    col.insert(obj(vec![("m", s("x"))])).unwrap();
    col.persist();
    let first = col.file_content();
    col.persist();
    let second = col.file_content();
    assert_eq!(first, second);
}

#[test]
fn update_nonexistent_id_changes_nothing() {
    let mut col = fresh("people");
    col.insert(obj(vec![("n", Json::from_i64(1))])).unwrap();
    let lines_before = col.file_lines().clone();
    let docs_before = col.find_all();
    assert!(!col.update_field("no-such-id", "n", Json::from_i64(9)));
    assert_eq!(col.file_lines(), &lines_before);
    assert_eq!(col.find_all(), docs_before);
}

#[test]
fn update_existing_field_rewrites_file() {
    let mut col = fresh("people");
    let id = col.insert(obj(vec![("name", s("ada"))])).unwrap();
    assert!(col.update_field(&id, "age", Json::from_i64(36)));
    let docs = col.find_all();
    assert_eq!(docs[0].get("age"), Some(&Json::from_i64(36)));
    assert_eq!(docs[0].get("name"), Some(&s("ada")));
    let reopened = Collection::new("people".to_string(), col.file_lines().clone());
    assert_eq!(reopened.find_all(), docs);
}

#[test]
fn update_adds_missing_field() {
    let mut col = fresh("people");
    let id = col.insert(obj(vec![("name", s("ada"))])).unwrap();
    assert!(col.update_field(&id, "city", s("london")));
    assert_eq!(col.find_all()[0].get("city"), Some(&s("london")));
}

#[test]
fn delete_nonexistent_id_changes_nothing() {
    let mut col = fresh("people");
    col.insert(obj(vec![("n", Json::from_i64(1))])).unwrap();
    assert!(!col.delete_by_id("no-such-id"));
    assert_eq!(col.find_all().len(), 1);
}

#[test]
fn delete_last_document_empties_file() {
    let mut col = fresh("people");
    let id = col.insert(obj(vec![("n", Json::from_i64(1))])).unwrap();
    assert!(col.delete_by_id(&id));
    assert_eq!(col.find_all().len(), 0);
    assert_eq!(col.file_lines().len(), 0);
    assert_eq!(col.file_content(), "");
}

#[test]
fn delete_keeps_other_documents() {
    let mut col = fresh("people");
    let a = col.insert(obj(vec![("n", Json::from_i64(1))])).unwrap();
    let b = col.insert(obj(vec![("n", Json::from_i64(2))])).unwrap();
    assert!(col.delete_by_id(&a));
    let docs = col.find_all();
    assert_eq!(docs.len(), 1);
    assert_eq!(id_of(&docs[0]), b);
}

#[test]
fn operator_matrix_on_string_field() {
    let mut col = fresh("q");
    col.insert(obj(vec![("name", s("hello world"))])).unwrap();
    assert_eq!(col.find_with_operator("name", "hello", "starts_with").len(), 1);
    assert_eq!(col.find_with_operator("name", "world", "ends_with").len(), 1);
    assert_eq!(col.find_with_operator("name", "xyz", "contains").len(), 0);
    assert_eq!(col.find_with_operator("name", "hello world", "bogus_op").len(), 0);
    assert_eq!(col.find_with_operator("name", "hello world", "=").len(), 1);
    assert_eq!(col.find_with_operator("name", "hello world", "==").len(), 1);
    assert_eq!(col.find_with_operator("name", "hello world", "eq").len(), 1);
    assert_eq!(col.find_with_operator("name", "o wo", "like").len(), 1);
    assert_eq!(col.find_with_operator("name", "o wo", "LIKE").len(), 1);
    assert_eq!(col.find_with_operator("name", "o wo", "contains").len(), 1);
    assert_eq!(col.find_with_operator("name", "world", "starts_with").len(), 0);
    assert_eq!(col.find_with_operator("name", "hello", "ends_with").len(), 0);
}

#[test]
fn operator_matrix_on_numeric_field() {
    let mut col = fresh("q");
    col.insert(obj(vec![("n", Json::from_i64(42))])).unwrap();
    assert_eq!(col.find_with_operator("n", "42", "eq").len(), 1);
    assert_eq!(col.find_with_operator("n", "42", "=").len(), 1);
    assert_eq!(col.find_with_operator("n", "4", "eq").len(), 0);
    assert_eq!(col.find_with_operator("n", "42", "contains").len(), 0);
    assert_eq!(col.find_with_operator("n", "42", "starts_with").len(), 0);
}

#[test]
fn operators_never_match_other_types_or_absent_fields() {
    let mut col = fresh("q");
    col.insert(obj(vec![("b", Json::Bool(true)), ("z", Json::Null)])).unwrap();
    assert_eq!(col.find_with_operator("b", "true", "eq").len(), 0);
    assert_eq!(col.find_with_operator("z", "null", "eq").len(), 0);
    assert_eq!(col.find_with_operator("missing", "x", "eq").len(), 0);
}

#[test]
fn find_matches_exact_strings_only() {
    let mut col = fresh("q");
    col.insert(obj(vec![("name", s("hello world"))])).unwrap();
    col.insert(obj(vec![("name", Json::from_i64(7))])).unwrap();
    assert_eq!(col.find("name", "hello world").len(), 1);
    assert_eq!(col.find("name", "hello").len(), 0);
    assert_eq!(col.find("name", "7").len(), 0);
    assert_eq!(col.find("other", "hello world").len(), 0);
}

#[test]
fn load_skips_unreadable_lines() {
    let lines: Vec<String> = vec![
        "{\"a\":1}".to_string(),
        "".to_string(),
        "   ".to_string(),
        "not json at all".to_string(),
        "{\"b\":\"x\"}".to_string(),
        "{\"half\":".to_string(),
    ];
    let col = Collection::new("mixed".to_string(), lines);
    let docs = col.find_all();
    assert_eq!(docs.len(), 2);
    assert_eq!(docs[0].get("a"), Some(&Json::from_i64(1)));
    assert_eq!(docs[1].get("b"), Some(&s("x")));
}

#[test]
fn load_keeps_non_object_values_in_order() {
    let lines: Vec<String> = vec!["[1,2]".to_string(), "{\"a\":1}".to_string()];
    let col = Collection::new("mixed".to_string(), lines);
    let docs = col.find_all();
    assert_eq!(docs.len(), 2);
    assert_eq!(docs[0], Json::Arr(vec![Json::from_i64(1), Json::from_i64(2)]));
}

#[test]
fn load_keeps_every_kind_of_number() {
    let lines: Vec<String> = vec![
        "{\"x\":1.5}".to_string(),
        "{\"x\":123}".to_string(),
        "{\"x\":18446744073709551615}".to_string(),
    ];
    let mut col = Collection::new("mixed".to_string(), lines);
    let docs = col.find_all();
    assert_eq!(docs.len(), 3);
    assert_eq!(docs[0].get("x"), Some(&Json::Num("1.5".to_string())));
    assert_eq!(docs[1].get("x"), Some(&Json::from_i64(123)));
    assert_eq!(col.find_with_operator("x", "1.5", "eq").len(), 1);
    assert_eq!(col.find_with_operator("x", "18446744073709551615", "eq").len(), 1);
    col.persist();
    let reopened = Collection::new("mixed".to_string(), col.file_lines().clone());
    assert_eq!(reopened.find_all(), docs);
}

#[test]
fn update_aimed_at_id_leaves_document_unchanged() {
    let mut col = fresh("people");
    let id = col.insert(obj(vec![("name", s("ada"))])).unwrap();
    assert!(col.update_field(&id, "_id", s("forged")));
    let docs = col.find_all();
    assert_eq!(docs.len(), 1);
    assert_eq!(id_of(&docs[0]), id);
    assert_eq!(docs[0].get("name"), Some(&s("ada")));
    let reopened = Collection::new("people".to_string(), col.file_lines().clone());
    assert_eq!(reopened.find_all(), docs);
}

#[test]
fn load_drops_lines_nested_past_the_parser_limit() {
    let shallow = format!("{}0{}", "[".repeat(100), "]".repeat(100));
    let too_deep = format!("{}0{}", "[".repeat(130), "]".repeat(130));
    let col = Collection::new("deep".to_string(), vec![shallow, too_deep]);
    assert_eq!(col.find_all().len(), 1);
}

#[test]
fn file_holds_one_line_per_document() {
    let mut col = fresh("people");
    col.insert(obj(vec![("n", Json::from_i64(1))])).unwrap();
    col.insert(obj(vec![("n", Json::from_i64(2))])).unwrap();
    assert_eq!(col.file_lines().len(), 2);
    let content = col.file_content();
    assert_eq!(content.lines().count(), 2);
    assert!(content.ends_with('\n'));
}
