use ruggy::codec::{parse_document, render_document};
use ruggy::db::{collection_file_name, Registry};
use ruggy::Json;

fn obj(pairs: Vec<(&str, Json)>) -> Json {
    Json::Obj(pairs.into_iter().map(|(k, v)| (k.to_string(), v)).collect())
}

fn s(text: &str) -> Json {
    Json::Str(text.to_string())
}

#[test]
fn render_then_parse_is_identity() {
    let doc = obj(vec![
        ("name", s("hello world")),
        ("count", Json::from_i64(-7)),
        ("flags", Json::Arr(vec![Json::Bool(false), Json::Null])),
        ("nested", obj(vec![("k", Json::from_i64(9000000000))])),
    ]);
    assert!(doc.is_wf());
    let line = render_document(&doc);
    assert!(!line.is_empty());
    assert!(!line.contains('\n'));
    assert_eq!(parse_document(&line), Some(doc));
}

#[test]
fn parse_rejects_garbage() {
    assert_eq!(parse_document(""), None);
    assert_eq!(parse_document("  "), None);
    assert_eq!(parse_document("{\"a\":"), None);
}

#[test]
fn deep_copy_equals_original() {
    let doc = obj(vec![("a", Json::Arr(vec![s("x"), obj(vec![("b", Json::from_i64(1))])]))]);
    assert_eq!(doc.deep_copy(), doc);
}

#[test]
fn with_field_overwrites_or_appends() {
    let doc = obj(vec![("a", Json::from_i64(1)), ("b", Json::from_i64(2))]);
    let doc = doc.with_field("a", Json::from_i64(10));
    assert_eq!(doc.get("a"), Some(&Json::from_i64(10)));
    assert_eq!(doc.get("b"), Some(&Json::from_i64(2)));
    let doc = doc.with_field("c", s("new"));
    assert_eq!(doc.get("c"), Some(&s("new")));
    assert_eq!(doc.get("missing"), None);
}

#[test]
fn is_wf_spots_duplicate_keys() {
    let dup = Json::Obj(vec![
        ("k".to_string(), Json::from_i64(1)),
        ("k".to_string(), Json::from_i64(2)),
    ]);
    assert!(!dup.is_wf());
    let nested_dup = obj(vec![("inner", dup)]);
    assert!(!nested_dup.is_wf());
    assert!(obj(vec![("k", Json::from_i64(1)), ("l", Json::from_i64(2))]).is_wf());
}

#[test]
fn number_renderings_must_be_canonical() {
    assert!(Json::from_i64(-42).is_wf());
    assert!(Json::Num("1.5".to_string()).is_wf());
    assert!(Json::Num("42".to_string()).is_wf());
    assert!(!Json::Num("007".to_string()).is_wf());
    assert!(!Json::Num("fortytwo".to_string()).is_wf());
    assert!(!Json::Num("".to_string()).is_wf());
}

#[test]
fn nesting_past_the_depth_bound_is_not_well_formed() {
    let mut v = Json::Null;
    for _ in 0..100 {
        v = Json::Arr(vec![v]);
    }
    assert!(v.is_wf());
    assert!(v.is_wf_member());
    for _ in 0..100 {
        v = Json::Arr(vec![v]);
    }
    assert!(!v.is_wf());
    assert!(!v.is_wf_member());
}

#[test]
fn is_object_distinguishes_documents() {
    assert!(obj(vec![]).is_object());
    assert!(!Json::from_i64(1).is_object());
    assert!(!Json::Arr(vec![]).is_object());
    assert!(!s("x").is_object());
}

#[test]
fn registry_hands_out_one_slot_per_name() {
    let mut reg = Registry::new();
    assert_eq!(reg.lookup("users"), None);
    let (slot, created) = reg.find_or_create("users");
    assert!(created);
    assert_eq!(slot, 0);
    let (again, created_again) = reg.find_or_create("users");
    assert!(!created_again);
    assert_eq!(again, slot);
    let (other, created_other) = reg.find_or_create("orders");
    assert!(created_other);
    assert_eq!(other, 1);
    assert_eq!(reg.lookup("users"), Some(0));
    assert_eq!(reg.lookup("orders"), Some(1));
}

#[test]
fn collection_file_name_appends_suffix() {
    assert_eq!(collection_file_name("users"), "users.col");
    assert_eq!(collection_file_name(""), ".col");
}
