use store_client::json::{object_insert, Json, JsonNumber};

#[test]
fn object_insert_replaces_an_equal_key() {
    let mut entries: Vec<(String, Json)> = Vec::new();
    object_insert(&mut entries, "a".to_string(), Json::Bool(true));
    object_insert(&mut entries, "b".to_string(), Json::Null);
    object_insert(&mut entries, "a".to_string(), Json::Number(JsonNumber::PosInt(3)));
    assert_eq!(entries.len(), 2);
    let obj = Json::Object(entries);
    assert_eq!(obj.get("a"), Some(&Json::Number(JsonNumber::PosInt(3))));
    assert_eq!(obj.get("b"), Some(&Json::Null));
    assert_eq!(obj.get("c"), None);
}

#[test]
fn get_reads_the_last_entry_of_a_key() {
    let obj = Json::Object(vec![
        ("k".to_string(), Json::Bool(false)),
        ("k".to_string(), Json::Bool(true)),
    ]);
    assert_eq!(obj.get("k"), Some(&Json::Bool(true)));
}

#[test]
fn get_and_at_on_other_kinds() {
    assert_eq!(Json::Null.get("k"), None);
    assert_eq!(Json::Array(vec![Json::Null]).get("k"), None);
    assert_eq!(Json::Object(vec![]).at(0), None);
    let arr = Json::Array(vec![Json::Bool(true)]);
    assert_eq!(arr.at(0), Some(&Json::Bool(true)));
    assert_eq!(arr.at(1), None);
}
