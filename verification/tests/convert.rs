use store_client::convert::{dict_to_json, f64_bits_to_json, shots_to_json, value_to_json};
use store_client::json::{Json, JsonNumber};
use store_client::value::{DbusValue, Dict};

fn s(x: &str) -> String {
    x.to_string()
}

fn jstr(x: &str) -> Json {
    Json::String(x.to_string())
}

fn num(x: u64) -> Json {
    Json::Number(JsonNumber::PosInt(x))
}

#[test]
fn dict_to_json_converts_scalars() {
    let dict: Dict = vec![
        (s("name"), DbusValue::Str(s("firefox"))),
        (s("score"), DbusValue::U32(42)),
        (s("flatpak_preferred"), DbusValue::Bool(true)),
    ];

    let json = dict_to_json(dict);
    assert_eq!(json.get("name"), Some(&jstr("firefox")));
    assert_eq!(json.get("score"), Some(&num(42)));
    assert_eq!(json.get("flatpak_preferred"), Some(&Json::Bool(true)));
}

#[test]
fn dict_to_json_reshapes_screenshots() {
    let shots = DbusValue::Array(vec![DbusValue::Structure(vec![
        DbusValue::Str(s("caption")),
        DbusValue::Bool(true),
        DbusValue::Array(vec![DbusValue::Structure(vec![
            DbusValue::Str(s("https://example.org/a.png")),
            DbusValue::U32(800),
            DbusValue::U32(600),
        ])]),
    ])]);

    let dict: Dict = vec![(s("screenshots"), shots)];

    let json = dict_to_json(dict);
    let shot = json.get("screenshots").unwrap().at(0).unwrap();
    assert_eq!(shot.get("caption"), Some(&jstr("caption")));
    assert_eq!(shot.get("default"), Some(&Json::Bool(true)));
    let image = shot.get("images").unwrap().at(0).unwrap();
    assert_eq!(image.get("url"), Some(&jstr("https://example.org/a.png")));
    assert_eq!(image.get("width"), Some(&num(800)));
    assert_eq!(image.get("height"), Some(&num(600)));
}

#[test]
fn signed_integers_split_by_sign() {
    assert_eq!(value_to_json(&DbusValue::I32(-7)), Json::Number(JsonNumber::NegInt(-7)));
    assert_eq!(value_to_json(&DbusValue::I16(7)), num(7));
    assert_eq!(value_to_json(&DbusValue::I64(0)), num(0));
    assert_eq!(value_to_json(&DbusValue::I64(i64::MIN)), Json::Number(JsonNumber::NegInt(i64::MIN)));
    assert_eq!(value_to_json(&DbusValue::U64(u64::MAX)), num(u64::MAX));
    assert_eq!(value_to_json(&DbusValue::U8(255)), num(255));
    assert_eq!(value_to_json(&DbusValue::U16(65535)), num(65535));
}

#[test]
fn doubles_become_numbers_or_null() {
    let finite = 13.37f64.to_bits();
    assert_eq!(value_to_json(&DbusValue::F64(finite)), Json::Number(JsonNumber::Float(finite)));
    assert_eq!(f64_bits_to_json(f64::NAN.to_bits()), Json::Null);
    assert_eq!(f64_bits_to_json(f64::INFINITY.to_bits()), Json::Null);
    assert_eq!(f64_bits_to_json(f64::NEG_INFINITY.to_bits()), Json::Null);
    let tiny = f64::MIN_POSITIVE.to_bits();
    assert_eq!(f64_bits_to_json(tiny), Json::Number(JsonNumber::Float(tiny)));
}

#[test]
fn strings_paths_and_signatures_become_strings() {
    assert_eq!(value_to_json(&DbusValue::Str(s("x"))), jstr("x"));
    assert_eq!(value_to_json(&DbusValue::ObjectPath(s("/org/modulix/Daemon"))), jstr("/org/modulix/Daemon"));
    assert_eq!(value_to_json(&DbusValue::Signature(s("a{sv}"))), jstr("a{sv}"));
}

#[test]
fn variants_are_transparent() {
    let inner = DbusValue::U32(5);
    let wrapped = DbusValue::Value(Box::new(DbusValue::Value(Box::new(DbusValue::U32(5)))));
    assert_eq!(value_to_json(&wrapped), value_to_json(&inner));
}

#[test]
fn arrays_and_structures_become_arrays() {
    let arr = DbusValue::Array(vec![DbusValue::U8(1), DbusValue::Bool(false)]);
    assert_eq!(value_to_json(&arr), Json::Array(vec![num(1), Json::Bool(false)]));
    let st = DbusValue::Structure(vec![DbusValue::Str(s("a")), DbusValue::I32(-1)]);
    assert_eq!(
        value_to_json(&st),
        Json::Array(vec![jstr("a"), Json::Number(JsonNumber::NegInt(-1))])
    );
}

#[test]
fn dict_values_keep_only_string_keys() {
    let d = DbusValue::Dict(vec![
        (DbusValue::Str(s("a")), DbusValue::U32(1)),
        (DbusValue::ObjectPath(s("/p")), DbusValue::U32(2)),
        (DbusValue::U32(3), DbusValue::U32(3)),
    ]);
    let j = value_to_json(&d);
    assert_eq!(j.get("a"), Some(&num(1)));
    assert_eq!(j.get("/p"), None);
    assert_eq!(j, Json::Object(vec![(s("a"), num(1))]));
}

#[test]
fn file_descriptors_become_null() {
    assert_eq!(value_to_json(&DbusValue::Fd), Json::Null);
}

#[test]
fn later_row_entry_for_a_key_wins() {
    let dict: Dict = vec![
        (s("k"), DbusValue::U32(1)),
        (s("other"), DbusValue::Bool(true)),
        (s("k"), DbusValue::U32(2)),
    ];
    let j = dict_to_json(dict);
    assert_eq!(j.get("k"), Some(&num(2)));
    assert_eq!(j, Json::Object(vec![(s("k"), num(2)), (s("other"), Json::Bool(true))]));
}

#[test]
fn screenshots_that_are_not_an_array_become_empty() {
    assert_eq!(shots_to_json(&DbusValue::Str(s("x"))), Json::Array(vec![]));
    let dict: Dict = vec![(s("screenshots"), DbusValue::U32(1))];
    assert_eq!(dict_to_json(dict).get("screenshots"), Some(&Json::Array(vec![])));
}

#[test]
fn screenshot_defaults_and_skips() {
    let shots = DbusValue::Array(vec![
        // not a structure: skipped
        DbusValue::Str(s("junk")),
        // no fields: empty caption, not default, no images
        DbusValue::Structure(vec![]),
        // default false, images not an array
        DbusValue::Structure(vec![
            DbusValue::Str(s("c")),
            DbusValue::Bool(false),
            DbusValue::U32(9),
        ]),
        // images: one without url skipped, one with wrong size types
        DbusValue::Structure(vec![
            DbusValue::U32(1),
            DbusValue::Value(Box::new(DbusValue::Bool(true))),
            DbusValue::Array(vec![
                DbusValue::Structure(vec![DbusValue::U32(1), DbusValue::U32(2)]),
                DbusValue::Str(s("not an image")),
                DbusValue::Structure(vec![DbusValue::Str(s("u")), DbusValue::I32(5)]),
            ]),
        ]),
    ]);
    let j = shots_to_json(&shots);
    let empty = j.at(0).unwrap();
    assert_eq!(empty.get("caption"), Some(&jstr("")));
    assert_eq!(empty.get("default"), Some(&Json::Bool(false)));
    assert_eq!(empty.get("images"), Some(&Json::Array(vec![])));
    let second = j.at(1).unwrap();
    assert_eq!(second.get("caption"), Some(&jstr("c")));
    assert_eq!(second.get("images"), Some(&Json::Array(vec![])));
    let third = j.at(2).unwrap();
    assert_eq!(third.get("caption"), Some(&jstr("")));
    assert_eq!(third.get("default"), Some(&Json::Bool(false)));
    let images = third.get("images").unwrap();
    assert_eq!(images.at(1), None);
    let image = images.at(0).unwrap();
    assert_eq!(image.get("url"), Some(&jstr("u")));
    assert_eq!(image.get("width"), Some(&num(0)));
    assert_eq!(image.get("height"), Some(&num(0)));
    assert_eq!(j.at(3), None);
}

#[test]
fn screenshots_key_only_reshapes_that_key() {
    let arr = DbusValue::Array(vec![DbusValue::Structure(vec![DbusValue::Str(s("c"))])]);
    let dict: Dict = vec![(s("screenshot"), arr)];
    let j = dict_to_json(dict);
    assert_eq!(j.get("screenshot"), Some(&Json::Array(vec![Json::Array(vec![jstr("c")])])));
}
