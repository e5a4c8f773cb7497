use store_client::json::{Json, JsonNumber};
use store_client::store::{
    batch_names, collect_strv, dicts_json, enrichment_entry, enrichment_object, licenses_object,
};
use store_client::value::{DbusValue, Dict};

fn s(x: &str) -> String {
    x.to_string()
}

fn row(name: &str) -> Dict {
    vec![(s("name"), DbusValue::Str(s(name)))]
}

#[test]
fn collect_strv_skips_missing_entries() {
    let entries = vec![Some(s("a")), None, Some(s("b")), None];
    assert_eq!(collect_strv(&entries), vec![s("a"), s("b")]);
    assert_eq!(collect_strv(&vec![]), Vec::<String>::new());
}

#[test]
fn batch_without_names_makes_no_request() {
    assert_eq!(batch_names(&vec![None, None]), None);
    assert_eq!(batch_names(&vec![]), None);
    assert_eq!(batch_names(&vec![None, Some(s("hello"))]), Some(vec![s("hello")]));
}

#[test]
fn listing_is_an_array_of_rows_in_order() {
    let j = dicts_json(vec![row("a"), row("b")]);
    assert_eq!(j.at(0).unwrap().get("name"), Some(&Json::String(s("a"))));
    assert_eq!(j.at(1).unwrap().get("name"), Some(&Json::String(s("b"))));
    assert_eq!(j.at(2), None);
    assert_eq!(dicts_json(vec![]), Json::Array(vec![]));
}

#[test]
fn enrichment_entry_picks_the_requested_id() {
    let reply = vec![(s("org.a"), row("A")), (s("org.b"), row("B"))];
    let j = enrichment_entry(reply, "org.b").unwrap();
    assert_eq!(j.get("name"), Some(&Json::String(s("B"))));
    let reply = vec![(s("org.a"), row("A"))];
    assert_eq!(enrichment_entry(reply, "org.b"), None);
}

#[test]
fn enrichment_object_covers_every_id_in_the_reply() {
    let reply = vec![(s("org.a"), row("A")), (s("org.b"), row("B"))];
    let j = enrichment_object(reply);
    assert_eq!(j.get("org.a").unwrap().get("name"), Some(&Json::String(s("A"))));
    assert_eq!(j.get("org.b").unwrap().get("name"), Some(&Json::String(s("B"))));
    assert_eq!(j.get("org.c"), None);
    assert_eq!(enrichment_object(vec![]), Json::Object(vec![]));
}

#[test]
fn single_enrichment_agrees_with_batched() {
    let reply = || vec![(s("org.a"), vec![(s("score"), DbusValue::U32(4))])];
    let one = enrichment_entry(reply(), "org.a").unwrap();
    let all = enrichment_object(reply());
    assert_eq!(all.get("org.a"), Some(&one));
    assert_eq!(one.get("score"), Some(&Json::Number(JsonNumber::PosInt(4))));
}

#[test]
fn licenses_map_attributes_to_spdx_strings() {
    let j = licenses_object(vec![(s("firefox"), s("MPL-2.0")), (s("hello"), s("GPL-3.0-or-later"))]);
    assert_eq!(j.get("firefox"), Some(&Json::String(s("MPL-2.0"))));
    assert_eq!(j.get("hello"), Some(&Json::String(s("GPL-3.0-or-later"))));
    assert_eq!(j.get("vim"), None);
}
