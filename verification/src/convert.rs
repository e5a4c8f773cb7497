//! Converts `a{sv}` rows into the JSON shape that the C plugin parses.

use vstd::prelude::*;

use crate::json::{
    Json, JsonNumber, JsonV, assoc_map, entry_keys, json_views, keys_unique, last_key_index,
    lemma_array_view, lemma_assoc_map_entries, lemma_assoc_map_push, lemma_last_key_index,
    object_insert, object_view,
};
use crate::value::{DbusValue, Dict, last_str_key_index, lemma_last_str_key_index};

verus! {

/// The JSON number of a signed integer: negative values are `NegInt`, the
/// others `PosInt`.
pub open spec fn signed_number(x: i64) -> JsonNumber {
    if x < 0 {
        JsonNumber::NegInt(x)
    } else {
        JsonNumber::PosInt(x as u64)
    }
}

/// Whether the double with IEEE-754 bits `bits` is finite (its exponent is not all ones).
pub open spec fn f64_bits_finite(bits: u64) -> bool {
    (bits >> 52u64) & 0x7ffu64 != 0x7ffu64
}

/// The JSON value of a double: the number where it is finite, `null` for an
/// infinity or a NaN.
pub open spec fn f64_json(bits: u64) -> JsonV {
    if f64_bits_finite(bits) {
        JsonV::Number(JsonNumber::Float(bits))
    } else {
        JsonV::Null
    }
}

/// The JSON value of a D-Bus value: scalars convert directly, a variant is
/// transparent, arrays and structures become arrays, a dict becomes an object
/// of its string-keyed entries, and anything else becomes `null`.
pub open spec fn value_json(v: DbusValue) -> JsonV
    decreases v,
{
    match v {
        DbusValue::U8(x) => JsonV::Number(JsonNumber::PosInt(x as u64)),
        DbusValue::Bool(b) => JsonV::Bool(b),
        DbusValue::I16(x) => JsonV::Number(signed_number(x as i64)),
        DbusValue::U16(x) => JsonV::Number(JsonNumber::PosInt(x as u64)),
        DbusValue::I32(x) => JsonV::Number(signed_number(x as i64)),
        DbusValue::U32(x) => JsonV::Number(JsonNumber::PosInt(x as u64)),
        DbusValue::I64(x) => JsonV::Number(signed_number(x)),
        DbusValue::U64(x) => JsonV::Number(JsonNumber::PosInt(x)),
        DbusValue::F64(bits) => f64_json(bits),
        DbusValue::Str(s) => JsonV::String(s@),
        DbusValue::Signature(s) => JsonV::String(s@),
        DbusValue::ObjectPath(s) => JsonV::String(s@),
        DbusValue::Value(inner) => value_json(*inner),
        DbusValue::Array(items) => JsonV::Array(values_json(items@)),
        DbusValue::Dict(entries) => JsonV::Object(dict_entries_json(entries@)),
        DbusValue::Structure(fields) => JsonV::Array(values_json(fields@)),
        DbusValue::Fd => JsonV::Null,
    }
}

/// The JSON values of a sequence of D-Bus values, element by element.
pub open spec fn values_json(s: Seq<DbusValue>) -> Seq<JsonV>
    decreases s,
{
    Seq::new(
        s.len(),
        |i: int|
            if 0 <= i < s.len() {
                value_json(s[i])
            } else {
                JsonV::Null
            },
    )
}

/// The object that a D-Bus dict's entries give: each string key maps to the
/// value of its last entry; entries with other keys are left out.
pub open spec fn dict_entries_json(s: Seq<(DbusValue, DbusValue)>) -> Map<Seq<char>, JsonV>
    decreases s,
{
    Map::new(
        |k: Seq<char>| last_str_key_index(s, k) >= 0,
        |k: Seq<char>|
            {
                let i = last_str_key_index(s, k);
                if 0 <= i < s.len() {
                    value_json(s[i].1)
                } else {
                    JsonV::Null
                }
            },
    )
}

/// Appending an entry with a string key to a dict inserts it into the dict's
/// object; appending any other entry leaves the object as it was.
pub proof fn lemma_dict_entries_json_push(s: Seq<(DbusValue, DbusValue)>, e: (DbusValue, DbusValue))
    ensures
        dict_entries_json(s.push(e)) == match e.0 {
            DbusValue::Str(k) => dict_entries_json(s).insert(k@, value_json(e.1)),
            _ => dict_entries_json(s),
        },
{
    let t = s.push(e);
    assert(t.drop_last() =~= s);
    assert forall|k2: Seq<char>| #![auto]
        true implies last_str_key_index(t, k2) == if (e.0 matches DbusValue::Str(k) && k@ == k2) {
        s.len() as int
    } else {
        last_str_key_index(s, k2)
    } by {}
    assert forall|k2: Seq<char>| #![auto]
        dict_entries_json(t).contains_key(k2) implies dict_entries_json(t)[k2]
        == (match e.0 {
        DbusValue::Str(k) => dict_entries_json(s).insert(k@, value_json(e.1)),
        _ => dict_entries_json(s),
    })[k2] by {
        lemma_last_str_key_index(s, k2);
        if last_str_key_index(s, k2) >= 0 {
            assert(t[last_str_key_index(s, k2)] == s[last_str_key_index(s, k2)]);
        }
    }
    match e.0 {
        DbusValue::Str(k) => {
            assert(dict_entries_json(t) =~= dict_entries_json(s).insert(k@, value_json(e.1)));
        },
        _ => {
            assert(dict_entries_json(t) =~= dict_entries_json(s));
        },
    }
}

fn signed_to_json(x: i64) -> (j: Json)
    ensures
        j@ == JsonV::Number(signed_number(x)),
{
    if x < 0 {
        Json::Number(JsonNumber::NegInt(x))
    } else {
        Json::Number(JsonNumber::PosInt(x as u64))
    }
}

/// The JSON value of the double with bits `bits`, as `serde_json`'s `From<f64>`
/// gives it: the number where it is finite, `null` otherwise.
pub fn f64_bits_to_json(bits: u64) -> (j: Json)
    ensures
        j@ == f64_json(bits),
{
    if (bits >> 52u64) & 0x7ffu64 != 0x7ffu64 {
        Json::Number(JsonNumber::Float(bits))
    } else {
        Json::Null
    }
}

fn values_to_json(items: &Vec<DbusValue>) -> (r: Vec<Json>)
    ensures
        r@.len() == items@.len(),
        forall|i: int| 0 <= i < items@.len() ==> #[trigger] r@[i]@ == value_json(items@[i]),
    decreases items,
{
    let mut out: Vec<Json> = Vec::new();
    for i in 0..items.len()
        invariant
            out@.len() == i,
            forall|j: int| 0 <= j < i ==> #[trigger] out@[j]@ == value_json(items@[j]),
    {
        out.push(value_to_json(&items[i]));
    }
    out
}

fn dict_to_object(entries: &Vec<(DbusValue, DbusValue)>) -> (r: Vec<(String, Json)>)
    ensures
        object_view(r@) == dict_entries_json(entries@),
    decreases entries,
{
    let mut out: Vec<(String, Json)> = Vec::new();
    proof {
        assert(dict_entries_json(entries@.take(0)) =~= Map::empty());
        assert(object_view(out@) =~= Map::empty());
    }
    for i in 0..entries.len()
        invariant
            object_view(out@) == dict_entries_json(entries@.take(i as int)),
    {
        proof {
            lemma_dict_entries_json_push(entries@.take(i as int), entries@[i as int]);
            assert(entries@.take(i as int).push(entries@[i as int]) =~= entries@.take(i + 1));
        }
        match &entries[i].0 {
            DbusValue::Str(k) => {
                let v = value_to_json(&entries[i].1);
                object_insert(&mut out, k.clone(), v);
            },
            _ => {},
        }
    }
    proof {
        assert(entries@.take(entries@.len() as int) =~= entries@);
    }
    out
}

/// Converts one D-Bus value to JSON.
pub fn value_to_json(v: &DbusValue) -> (j: Json)
    ensures
        j@ == value_json(*v),
    decreases v,
{
    match v {
        DbusValue::U8(x) => Json::Number(JsonNumber::PosInt(*x as u64)),
        DbusValue::Bool(b) => Json::Bool(*b),
        DbusValue::I16(x) => signed_to_json(*x as i64),
        DbusValue::U16(x) => Json::Number(JsonNumber::PosInt(*x as u64)),
        DbusValue::I32(x) => signed_to_json(*x as i64),
        DbusValue::U32(x) => Json::Number(JsonNumber::PosInt(*x as u64)),
        DbusValue::I64(x) => signed_to_json(*x),
        DbusValue::U64(x) => Json::Number(JsonNumber::PosInt(*x)),
        DbusValue::F64(bits) => f64_bits_to_json(*bits),
        DbusValue::Str(s) => Json::String(s.clone()),
        DbusValue::Signature(s) => Json::String(s.clone()),
        DbusValue::ObjectPath(s) => Json::String(s.clone()),
        DbusValue::Value(inner) => value_to_json(inner),
        DbusValue::Array(items) => {
            let out = values_to_json(items);
            let ghost o = out@;
            let j = Json::Array(out);
            proof {
                assert(j@ == JsonV::Array(values_json(items@))) by {
                    assert(j matches Json::Array(w) && w@ == o);
                    if let JsonV::Array(b) = j@ {
                        assert(b.len() == o.len());
                        assert forall|i: int| 0 <= i < b.len() implies b[i]
                            == values_json(items@)[i] by {
                            assert(b[i] == o[i]@);
                        }
                        assert(b =~= values_json(items@));
                    }
                }
            }
            j
        },
        DbusValue::Dict(entries) => {
            let out = dict_to_object(entries);
            Json::Object(out)
        },
        DbusValue::Structure(fields) => {
            let out = values_to_json(fields);
            let ghost o = out@;
            let j = Json::Array(out);
            proof {
                assert(j@ == JsonV::Array(values_json(fields@))) by {
                    assert(j matches Json::Array(w) && w@ == o);
                    if let JsonV::Array(b) = j@ {
                        assert(b.len() == o.len());
                        assert forall|i: int| 0 <= i < b.len() implies b[i]
                            == values_json(fields@)[i] by {
                            assert(b[i] == o[i]@);
                        }
                        assert(b =~= values_json(fields@));
                    }
                }
            }
            j
        },
        DbusValue::Fd => Json::Null,
    }
}


/// The text of the `i`-th field of `f` where that field is a string.
pub open spec fn str_field(f: Seq<DbusValue>, i: int) -> Option<Seq<char>> {
    if 0 <= i < f.len() {
        match f[i] {
            DbusValue::Str(s) => Some(s@),
            _ => None,
        }
    } else {
        None
    }
}

/// The `i`-th field of `f` where it is a `u32`, and 0 otherwise.
pub open spec fn u32_field_or_zero(f: Seq<DbusValue>, i: int) -> u64 {
    if 0 <= i < f.len() {
        match f[i] {
            DbusValue::U32(w) => w as u64,
            _ => 0,
        }
    } else {
        0
    }
}

/// One screenshot image `(suu)` as `{url, width, height}`; an image that is
/// not a structure, or whose first field is not a string, has none.
pub open spec fn image_json(img: DbusValue) -> Option<JsonV> {
    match img {
        DbusValue::Structure(f) => match str_field(f@, 0) {
            Some(url) => Some(
                JsonV::Object(
                    Map::empty().insert("url"@, JsonV::String(url)).insert(
                        "width"@,
                        JsonV::Number(JsonNumber::PosInt(u32_field_or_zero(f@, 1))),
                    ).insert(
                        "height"@,
                        JsonV::Number(JsonNumber::PosInt(u32_field_or_zero(f@, 2))),
                    ),
                ),
            ),
            None => None,
        },
        _ => None,
    }
}

/// `image_json` as a function value.
pub open spec fn image_fn() -> spec_fn(DbusValue) -> Option<JsonV> {
    |img: DbusValue| image_json(img)
}

/// The images of a screenshot: those of its third field where that is an array.
pub open spec fn shot_images(f: Seq<DbusValue>) -> Seq<JsonV> {
    if 2 < f.len() {
        match f[2] {
            DbusValue::Array(imgs) => imgs@.filter_map(image_fn()),
            _ => Seq::empty(),
        }
    } else {
        Seq::empty()
    }
}

/// Whether the second field of `f` is the boolean `true`.
pub open spec fn shot_is_default(f: Seq<DbusValue>) -> bool {
    1 < f.len() && f[1] == DbusValue::Bool(true)
}

/// One screenshot `(sba(suu))` as `{caption, default, images}`; a value that is
/// not a structure has none. A missing caption is empty.
pub open spec fn shot_json(shot: DbusValue) -> Option<JsonV> {
    match shot {
        DbusValue::Structure(f) => Some(
            JsonV::Object(
                Map::empty().insert(
                    "caption"@,
                    JsonV::String(
                        match str_field(f@, 0) {
                            Some(c) => c,
                            None => Seq::empty(),
                        },
                    ),
                ).insert("default"@, JsonV::Bool(shot_is_default(f@))).insert(
                    "images"@,
                    JsonV::Array(shot_images(f@)),
                ),
            ),
        ),
        _ => None,
    }
}

/// `shot_json` as a function value.
pub open spec fn shot_fn() -> spec_fn(DbusValue) -> Option<JsonV> {
    |shot: DbusValue| shot_json(shot)
}

/// The `screenshots` value reshaped: the screenshots of an array, in order,
/// and an empty array for anything else.
pub open spec fn shots_json(v: DbusValue) -> JsonV {
    match v {
        DbusValue::Array(arr) => JsonV::Array(arr@.filter_map(shot_fn())),
        _ => JsonV::Array(Seq::empty()),
    }
}

fn str_field_exec(f: &Vec<DbusValue>, i: usize) -> (r: Option<&String>)
    ensures
        match r {
            Some(s) => str_field(f@, i as int) == Some(s@),
            None => str_field(f@, i as int) is None,
        },
{
    if i < f.len() {
        match &f[i] {
            DbusValue::Str(s) => Some(s),
            _ => None,
        }
    } else {
        None
    }
}

fn u32_field_or_zero_exec(f: &Vec<DbusValue>, i: usize) -> (r: u64)
    ensures
        r == u32_field_or_zero(f@, i as int),
{
    if i < f.len() {
        match &f[i] {
            DbusValue::U32(w) => *w as u64,
            _ => 0,
        }
    } else {
        0
    }
}

fn image_to_json(img: &DbusValue) -> (r: Option<Json>)
    ensures
        match r {
            Some(j) => image_json(*img) == Some(j@),
            None => image_json(*img) is None,
        },
{
    match img {
        DbusValue::Structure(f) => match str_field_exec(f, 0) {
            Some(url) => {
                let mut m: Vec<(String, Json)> = Vec::new();
                proof {
                    assert(object_view(m@) =~= Map::empty());
                }
                object_insert(&mut m, String::from_str("url"), Json::String(url.clone()));
                object_insert(
                    &mut m,
                    String::from_str("width"),
                    Json::Number(JsonNumber::PosInt(u32_field_or_zero_exec(f, 1))),
                );
                object_insert(
                    &mut m,
                    String::from_str("height"),
                    Json::Number(JsonNumber::PosInt(u32_field_or_zero_exec(f, 2))),
                );
                Some(Json::Object(m))
            },
            None => None,
        },
        _ => None,
    }
}

fn images_to_json(imgs: &Vec<DbusValue>) -> (r: Vec<Json>)
    ensures
        json_views(r@) == imgs@.filter_map(image_fn()),
{
    let mut out: Vec<Json> = Vec::new();
    proof {
        assert(imgs@.take(0) =~= Seq::<DbusValue>::empty());
        assert(json_views(out@) =~= imgs@.take(0).filter_map(image_fn()));
    }
    for i in 0..imgs.len()
        invariant
            json_views(out@) == imgs@.take(i as int).filter_map(image_fn()),
    {
        proof {
            imgs@.lemma_filter_map_take_succ(image_fn(), i as int);
        }
        let ghost prev = out@;
        match image_to_json(&imgs[i]) {
            Some(j) => {
                out.push(j);
                proof {
                    assert(json_views(out@) =~= json_views(prev) + seq![j@]);
                }
            },
            None => {},
        }
    }
    proof {
        assert(imgs@.take(imgs@.len() as int) =~= imgs@);
    }
    out
}

fn shot_to_json(shot: &DbusValue) -> (r: Option<Json>)
    ensures
        match r {
            Some(j) => shot_json(*shot) == Some(j@),
            None => shot_json(*shot) is None,
        },
{
    match shot {
        DbusValue::Structure(f) => {
            let caption = match str_field_exec(f, 0) {
                Some(c) => c.clone(),
                None => String::new(),
            };
            let is_default = f.len() > 1 && match &f[1] {
                DbusValue::Bool(b) => *b,
                _ => false,
            };
            let images = if f.len() > 2 {
                match &f[2] {
                    DbusValue::Array(imgs) => images_to_json(imgs),
                    _ => Vec::new(),
                }
            } else {
                Vec::new()
            };
            let ghost iv = images@;
            proof {
                assert(json_views(iv) =~= shot_images(f@));
            }
            let images_json = Json::Array(images);
            proof {
                lemma_array_view(images_json->Array_0);
            }
            let mut m: Vec<(String, Json)> = Vec::new();
            proof {
                assert(object_view(m@) =~= Map::empty());
            }
            object_insert(&mut m, String::from_str("caption"), Json::String(caption));
            object_insert(&mut m, String::from_str("default"), Json::Bool(is_default));
            object_insert(&mut m, String::from_str("images"), images_json);
            Some(Json::Object(m))
        },
        _ => None,
    }
}

/// Reshapes the daemon's `screenshots` value, an array of `(sba(suu))`, into
/// `[{caption, default, images: [{url, width, height}]}]`. Entries that are not
/// structures, and images without a string URL, are left out; anything but an
/// array gives an empty array.
pub fn shots_to_json(v: &DbusValue) -> (j: Json)
    ensures
        j@ == shots_json(*v),
{
    match v {
        DbusValue::Array(arr) => {
            let mut out: Vec<Json> = Vec::new();
            proof {
                assert(arr@.take(0) =~= Seq::<DbusValue>::empty());
                assert(json_views(out@) =~= arr@.take(0).filter_map(shot_fn()));
            }
            for i in 0..arr.len()
                invariant
                    json_views(out@) == arr@.take(i as int).filter_map(shot_fn()),
            {
                proof {
                    arr@.lemma_filter_map_take_succ(shot_fn(), i as int);
                }
                let ghost prev = out@;
                match shot_to_json(&arr[i]) {
                    Some(j) => {
                        out.push(j);
                        proof {
                            assert(json_views(out@) =~= json_views(prev) + seq![j@]);
                        }
                    },
                    None => {},
                }
            }
            proof {
                assert(arr@.take(arr@.len() as int) =~= arr@);
                lemma_array_view(out);
            }
            Json::Array(out)
        },
        _ => {
            let out: Vec<Json> = Vec::new();
            proof {
                lemma_array_view(out);
                assert(json_views(out@) =~= Seq::<JsonV>::empty());
            }
            Json::Array(out)
        },
    }
}

/// The JSON value of one row field: `screenshots` is reshaped, every other
/// field converts directly.
pub open spec fn field_json(k: Seq<char>, v: DbusValue) -> JsonV {
    if k == "screenshots"@ {
        shots_json(v)
    } else {
        value_json(v)
    }
}

/// `field_json` as a function value.
pub open spec fn field_fn() -> spec_fn(Seq<char>, DbusValue) -> JsonV {
    |k: Seq<char>, v: DbusValue| field_json(k, v)
}

/// The JSON value of a row: each key maps to the JSON value of its last entry.
pub open spec fn dict_json(d: Seq<(String, DbusValue)>) -> JsonV {
    JsonV::Object(assoc_map(d, field_fn()))
}

/// Converts one `a{sv}` row (an app, plugin or enrichment entry) to a flat
/// JSON object. `screenshots` gets the reshaping of `shots_to_json`; every other
/// value converts with `value_to_json`.
pub fn dict_to_json(dict: Dict) -> (j: Json)
    ensures
        j@ == dict_json(dict@),
{
    let shots_key = String::from_str("screenshots");
    let mut m: Vec<(String, Json)> = Vec::new();
    proof {
        assert(dict@.take(0) =~= Seq::<(String, DbusValue)>::empty());
        assert(object_view(m@) =~= assoc_map(dict@.take(0), field_fn()));
    }
    for i in 0..dict.len()
        invariant
            object_view(m@) == assoc_map(dict@.take(i as int), field_fn()),
            shots_key@ == "screenshots"@,
    {
        proof {
            lemma_assoc_map_push(dict@.take(i as int), dict@[i as int], field_fn());
            assert(dict@.take(i as int).push(dict@[i as int]) =~= dict@.take(i + 1));
        }
        let json = if dict[i].0 == shots_key {
            shots_to_json(&dict[i].1)
        } else {
            value_to_json(&dict[i].1)
        };
        object_insert(&mut m, dict[i].0.clone(), json);
    }
    proof {
        assert(dict@.take(dict@.len() as int) =~= dict@);
    }
    Json::Object(m)
}

/// A row converts to an object with exactly the row's keys; `screenshots`
/// maps to its reshaping and every other key to its value converted directly.
/// Rows have unique keys, as the map they come from.
pub proof fn lemma_dict_json_fields(d: Seq<(String, DbusValue)>)
    requires
        keys_unique(d),
    ensures
        dict_json(d) matches JsonV::Object(m) && m.dom() == entry_keys(d) && forall|j: int|
            0 <= j < d.len() ==> #[trigger] m[d[j].0@] == if d[j].0@ == "screenshots"@ {
                shots_json(d[j].1)
            } else {
                value_json(d[j].1)
            },
{
    lemma_assoc_map_entries(d, field_fn());
}

/// A variant is transparent: a value wrapped in a variant converts as the
/// value itself.
pub proof fn lemma_variant_transparent(v: DbusValue)
    ensures
        value_json(DbusValue::Value(Box::new(v))) == value_json(v),
{
}

/// Whether every number in a JSON value is finite, as JSON numbers are.
pub open spec fn json_finite(j: JsonV) -> bool
    decreases j,
{
    match j {
        JsonV::Number(JsonNumber::Float(bits)) => f64_bits_finite(bits),
        JsonV::Array(a) => forall|i: int| 0 <= i < a.len() ==> json_finite(#[trigger] a[i]),
        JsonV::Object(m) => forall|k: Seq<char>| m.contains_key(k) ==> json_finite(#[trigger] m[k]),
        _ => true,
    }
}

/// A converted value holds no infinity or NaN: those become `null`.
pub proof fn lemma_value_json_finite(v: DbusValue)
    ensures
        json_finite(value_json(v)),
    decreases v,
{
    match v {
        DbusValue::Value(inner) => {
            lemma_value_json_finite(*inner);
        },
        DbusValue::Array(items) => {
            assert forall|i: int| 0 <= i < items@.len() implies json_finite(
                #[trigger] values_json(items@)[i],
            ) by {
                lemma_value_json_finite(items@[i]);
            }
            let a = values_json(items@);
            assert(value_json(v) == JsonV::Array(a));
            assert(a.len() == items@.len());
            assert(json_finite(JsonV::Array(a)));
            assert(json_finite(value_json(v)));
        },
        DbusValue::Structure(items) => {
            assert forall|i: int| 0 <= i < items@.len() implies json_finite(
                #[trigger] values_json(items@)[i],
            ) by {
                lemma_value_json_finite(items@[i]);
            }
            let a = values_json(items@);
            assert(value_json(v) == JsonV::Array(a));
            assert(a.len() == items@.len());
            assert(json_finite(JsonV::Array(a)));
            assert(json_finite(value_json(v)));
        },
        DbusValue::Dict(entries) => {
            let m = dict_entries_json(entries@);
            assert forall|k: Seq<char>| m.contains_key(k) implies json_finite(#[trigger] m[k]) by {
                lemma_last_str_key_index(entries@, k);
                lemma_value_json_finite(entries@[last_str_key_index(entries@, k)].1);
            }
            assert(json_finite(value_json(v)));
        },
        _ => {},
    }
}

/// A converted image holds only finite numbers.
proof fn lemma_image_json_finite(img: DbusValue)
    ensures
        image_json(img) matches Some(j) ==> json_finite(j),
{
    if let Some(j) = image_json(img) {
        if let JsonV::Object(m) = j {
            assert forall|k: Seq<char>| m.contains_key(k) implies json_finite(#[trigger] m[k]) by {}
        }
    }
}

/// The elements that `filter_map` keeps are values that `f` gives.
proof fn lemma_filter_map_elements<A, B>(s: Seq<A>, f: spec_fn(A) -> Option<B>, i: int)
    requires
        0 <= i < s.filter_map(f).len(),
    ensures
        exists|t: A| #[trigger] f(t) == Some(s.filter_map(f)[i]),
{
    let e = s.filter_map(f)[i];
    assert(s.filter_map(f).contains(e));
    s.lemma_filter_map_contains(f, e);
}

/// A reshaped screenshot holds only finite numbers.
proof fn lemma_shot_json_finite(shot: DbusValue)
    ensures
        shot_json(shot) matches Some(j) ==> json_finite(j),
{
    if let DbusValue::Structure(f) = shot {
        let imgs = shot_images(f@);
        assert forall|i: int| 0 <= i < imgs.len() implies json_finite(#[trigger] imgs[i]) by {
            if let DbusValue::Array(arr) = f@[2] {
                lemma_filter_map_elements(arr@, image_fn(), i);
                let t = choose|t: DbusValue| #[trigger] image_fn()(t) == Some(imgs[i]);
                lemma_image_json_finite(t);
            }
        }
        assert(json_finite(JsonV::Array(imgs)));
        if let Some(JsonV::Object(m)) = shot_json(shot) {
            assert forall|k: Seq<char>| m.contains_key(k) implies json_finite(#[trigger] m[k]) by {}
        }
    }
}

/// The reshaped `screenshots` value holds only finite numbers.
proof fn lemma_shots_json_finite(v: DbusValue)
    ensures
        json_finite(shots_json(v)),
{
    if let DbusValue::Array(arr) = v {
        let a = arr@.filter_map(shot_fn());
        assert forall|i: int| 0 <= i < a.len() implies json_finite(#[trigger] a[i]) by {
            lemma_filter_map_elements(arr@, shot_fn(), i);
            let t = choose|t: DbusValue| #[trigger] shot_fn()(t) == Some(a[i]);
            lemma_shot_json_finite(t);
        }
        assert(json_finite(JsonV::Array(a)));
    }
}

/// A converted row holds no infinity or NaN: JSON numbers are finite.
pub proof fn lemma_dict_json_finite(d: Seq<(String, DbusValue)>)
    ensures
        json_finite(dict_json(d)),
{
    let m = assoc_map(d, field_fn());
    assert forall|k: Seq<char>| m.contains_key(k) implies json_finite(#[trigger] m[k]) by {
        lemma_last_key_index(d, k);
        let v = d[last_key_index(d, k)].1;
        lemma_shots_json_finite(v);
        lemma_value_json_finite(v);
    }
}

/// The number of elements of `s` that satisfy `p`.
pub open spec fn count_where<A>(s: Seq<A>, p: spec_fn(A) -> bool) -> nat
    decreases s.len(),
{
    if s.len() == 0 {
        0
    } else {
        count_where(s.drop_last(), p) + if p(s.last()) {
            1nat
        } else {
            0nat
        }
    }
}

/// `filter_map` keeps one result for each element on which `f` gives one.
pub proof fn lemma_filter_map_len<A, B>(s: Seq<A>, f: spec_fn(A) -> Option<B>)
    ensures
        s.filter_map(f).len() == count_where(s, |x: A| f(x) is Some),
    decreases s.len(),
{
    if s.len() > 0 {
        lemma_filter_map_len(s.drop_last(), f);
    }
}

/// The integer that a JSON integer denotes.
pub open spec fn number_int(n: JsonNumber) -> int {
    match n {
        JsonNumber::PosInt(u) => u as int,
        JsonNumber::NegInt(i) => i as int,
        JsonNumber::Float(_) => 0,
    }
}

/// Scalars keep their value: an integer becomes the JSON number of the same
/// integer (a `PosInt` exactly when it is not negative), a boolean the same
/// boolean, and a string, object path or signature the same text.
pub proof fn lemma_scalars_keep_value(v: DbusValue)
    ensures
        match v {
            DbusValue::U8(x) => value_json(v) matches JsonV::Number(JsonNumber::PosInt(u)) && u
                == x,
            DbusValue::U16(x) => value_json(v) matches JsonV::Number(JsonNumber::PosInt(u)) && u
                == x,
            DbusValue::U32(x) => value_json(v) matches JsonV::Number(JsonNumber::PosInt(u)) && u
                == x,
            DbusValue::U64(x) => value_json(v) matches JsonV::Number(JsonNumber::PosInt(u)) && u
                == x,
            DbusValue::I16(x) => value_json(v) matches JsonV::Number(n) && number_int(n) == x && (
            n is PosInt <==> x >= 0) && (n is NegInt <==> x < 0),
            DbusValue::I32(x) => value_json(v) matches JsonV::Number(n) && number_int(n) == x && (
            n is PosInt <==> x >= 0) && (n is NegInt <==> x < 0),
            DbusValue::I64(x) => value_json(v) matches JsonV::Number(n) && number_int(n) == x && (
            n is PosInt <==> x >= 0) && (n is NegInt <==> x < 0),
            DbusValue::Bool(b) => value_json(v) == JsonV::Bool(b),
            DbusValue::Str(t) => value_json(v) == JsonV::String(t@),
            DbusValue::ObjectPath(t) => value_json(v) == JsonV::String(t@),
            DbusValue::Signature(t) => value_json(v) == JsonV::String(t@),
            DbusValue::Fd => value_json(v) == JsonV::Null,
            _ => true,
        },
{
}

/// Arrays and structures become arrays of the same length whose elements are
/// their elements converted, in order.
pub proof fn lemma_containers_keep_elements(v: DbusValue)
    ensures
        v matches DbusValue::Array(items) ==> (value_json(v) matches JsonV::Array(a) && a.len()
            == items@.len() && forall|i: int|
            0 <= i < a.len() ==> #[trigger] a[i] == value_json(items@[i])),
        v matches DbusValue::Structure(items) ==> (value_json(v) matches JsonV::Array(a) && a.len()
            == items@.len() && forall|i: int|
            0 <= i < a.len() ==> #[trigger] a[i] == value_json(items@[i])),
{
    match v {
        DbusValue::Array(items) => {
            let a = values_json(items@);
            assert(value_json(v) == JsonV::Array(a));
            assert(a.len() == items@.len());
        },
        DbusValue::Structure(items) => {
            let a = values_json(items@);
            assert(value_json(v) == JsonV::Array(a));
            assert(a.len() == items@.len());
        },
        _ => {},
    }
}

/// A screenshot image is kept exactly when it is a structure whose first field
/// is a string; it then becomes `{url, width, height}` with that string as URL
/// and its second and third fields as width and height where they are `u32`
/// values, 0 where they are not.
pub proof fn lemma_image_fields(img: DbusValue)
    ensures
        image_json(img) is Some <==> (img matches DbusValue::Structure(g) && g@.len() > 0
            && g@[0] is Str),
        image_json(img) matches Some(j) ==> (img matches DbusValue::Structure(g) && g@[0] matches DbusValue::Str(
            url,
        ) && j matches JsonV::Object(m) && m.dom() == set!["url"@, "width"@, "height"@]
            && m["url"@] == JsonV::String(url@) && (forall|w: u32|
            g@.len() > 1 && g@[1] == DbusValue::U32(w) ==> m["width"@] == JsonV::Number(
                JsonNumber::PosInt(w as u64),
            )) && (!(g@.len() > 1 && g@[1] is U32) ==> m["width"@] == JsonV::Number(
            JsonNumber::PosInt(0),
        )) && (forall|h: u32|
            g@.len() > 2 && g@[2] == DbusValue::U32(h) ==> m["height"@] == JsonV::Number(
                JsonNumber::PosInt(h as u64),
            )) && (!(g@.len() > 2 && g@[2] is U32) ==> m["height"@] == JsonV::Number(
            JsonNumber::PosInt(0),
        ))),
{
    reveal_strlit("url");
    reveal_strlit("width");
    reveal_strlit("height");
    if let DbusValue::Structure(g) = img {
        if let Some(url) = str_field(g@, 0) {
            let m = Map::empty().insert("url"@, JsonV::String(url)).insert(
                "width"@,
                JsonV::Number(JsonNumber::PosInt(u32_field_or_zero(g@, 1))),
            ).insert("height"@, JsonV::Number(JsonNumber::PosInt(u32_field_or_zero(g@, 2))));
            assert(image_json(img) == Some(JsonV::Object(m)));
            assert("url"@.len() == 3 && "width"@.len() == 5 && "height"@.len() == 6);
            assert(m.dom() =~= set!["url"@, "width"@, "height"@]);
            assert(m["url"@] == JsonV::String(url));
            assert(m["width"@] == JsonV::Number(JsonNumber::PosInt(u32_field_or_zero(g@, 1))));
        }
    }
}

/// A screenshot is kept exactly when it is a structure, and becomes an object
/// with exactly the keys `caption`, `default` and `images`:
/// - `caption` is its first field where that is a string, and empty otherwise;
/// - `default` is `true` exactly when its second field is `Bool(true)`;
/// - `images` is, where its third field is an array, every image of that
///   array that has a string URL, converted, in order (one for each such
///   image), and empty otherwise.
pub proof fn lemma_shot_fields(shot: DbusValue)
    ensures
        shot_json(shot) is Some <==> shot is Structure,
        shot_json(shot) matches Some(j) ==> (shot matches DbusValue::Structure(f) && j matches JsonV::Object(m)
            && m.dom() == set!["caption"@, "default"@, "images"@] && (forall|c: String|
            f@.len() > 0 && f@[0] == DbusValue::Str(c) ==> m["caption"@] == JsonV::String(c@)) && (!(
        f@.len() > 0 && f@[0] is Str) ==> m["caption"@] == JsonV::String(Seq::empty()))
            && m["default"@] == JsonV::Bool(f@.len() > 1 && f@[1] == DbusValue::Bool(true))
            && (forall|imgs: Vec<DbusValue>|
            f@.len() > 2 && f@[2] == DbusValue::Array(imgs) ==> m["images"@] == JsonV::Array(
                imgs@.filter_map(|x: DbusValue| image_json(x)),
            )) && (!(f@.len() > 2 && f@[2] is Array) ==> m["images"@] == JsonV::Array(
            Seq::empty(),
        ))),
{
    reveal_strlit("caption");
    reveal_strlit("default");
    reveal_strlit("images");
    if let DbusValue::Structure(f) = shot {
        assert(image_fn() == |x: DbusValue| image_json(x));
        let caption = match str_field(f@, 0) {
            Some(c) => c,
            None => Seq::empty(),
        };
        let m = Map::empty().insert("caption"@, JsonV::String(caption)).insert(
            "default"@,
            JsonV::Bool(shot_is_default(f@)),
        ).insert("images"@, JsonV::Array(shot_images(f@)));
        assert(shot_json(shot) == Some(JsonV::Object(m)));
        assert("caption"@.len() == 7 && "default"@.len() == 7 && "images"@.len() == 6);
        assert("caption"@[0] == 'c' && "default"@[0] == 'd');
        assert("caption"@ != "default"@);
        assert(m.dom() =~= set!["caption"@, "default"@, "images"@]);
        assert(m["default"@] == JsonV::Bool(shot_is_default(f@)));
        assert(m["caption"@] == JsonV::String(caption));
        assert(m["images"@] == JsonV::Array(shot_images(f@)));
    }
}

/// The images of a screenshot's image array: one for each image with a
/// string URL, the others left out.
pub proof fn lemma_images_count(imgs: Seq<DbusValue>)
    ensures
        imgs.filter_map(|x: DbusValue| image_json(x)).len() == count_where(
            imgs,
            |x: DbusValue| x matches DbusValue::Structure(g) && g@.len() > 0 && g@[0] is Str,
        ),
    decreases imgs.len(),
{
    if imgs.len() > 0 {
        lemma_images_count(imgs.drop_last());
        lemma_image_fields(imgs.last());
    }
}

/// The reshaped `screenshots` value is, for an array, one screenshot object
/// for each structure of the array, in order; for anything else, an empty
/// array.
pub proof fn lemma_shots_count(v: DbusValue)
    ensures
        v matches DbusValue::Array(arr) ==> shots_json(v) == JsonV::Array(
            arr@.filter_map(|x: DbusValue| shot_json(x)),
        ) && arr@.filter_map(|x: DbusValue| shot_json(x)).len() == count_where(
            arr@,
            |x: DbusValue| x is Structure,
        ),
        !(v is Array) ==> shots_json(v) == JsonV::Array(Seq::empty()),
{
    if let DbusValue::Array(arr) = v {
        assert(shot_fn() == |x: DbusValue| shot_json(x));
        lemma_shots_count_seq(arr@);
    }
}

proof fn lemma_shots_count_seq(s: Seq<DbusValue>)
    ensures
        s.filter_map(|x: DbusValue| shot_json(x)).len() == count_where(
            s,
            |x: DbusValue| x is Structure,
        ),
    decreases s.len(),
{
    if s.len() > 0 {
        lemma_shots_count_seq(s.drop_last());
    }
}

/// A double keeps its bits where it is finite (its exponent bits are not all
/// ones) and becomes `null` where it is an infinity or a NaN.
pub proof fn lemma_double_value(bits: u64)
    ensures
        (bits >> 52u64) & 0x7ffu64 != 0x7ffu64 ==> value_json(DbusValue::F64(bits)) == JsonV::Number(
            JsonNumber::Float(bits),
        ),
        (bits >> 52u64) & 0x7ffu64 == 0x7ffu64 ==> value_json(DbusValue::F64(bits)) == JsonV::Null,
{
}

/// A D-Bus dict becomes an object whose keys are exactly the texts of its
/// string keys; each maps to the value of its last entry converted. Entries
/// with keys of other types are left out.
pub proof fn lemma_dict_value_entries(entries: Seq<(DbusValue, DbusValue)>)
    ensures
        forall|k: Seq<char>|
            #[trigger] dict_entries_json(entries).contains_key(k) <==> exists|j: int|
                #![trigger entries[j]]
                0 <= j < entries.len() && (entries[j].0 matches DbusValue::Str(u) && u@ == k),
        forall|j: int|
            #![trigger entries[j]]
            0 <= j < entries.len() ==> (entries[j].0 matches DbusValue::Str(t) ==> ((forall|l: int|
                #![trigger entries[l]]
                j < l < entries.len() ==> !(entries[l].0 matches DbusValue::Str(u) && u@ == t@))
                ==> dict_entries_json(entries)[t@] == value_json(entries[j].1))),
{
    assert forall|k: Seq<char>|
        #[trigger] dict_entries_json(entries).contains_key(k) <==> exists|j: int|
            #![trigger entries[j]]
            0 <= j < entries.len() && (entries[j].0 matches DbusValue::Str(u) && u@ == k) by {
        lemma_last_str_key_index(entries, k);
        if last_str_key_index(entries, k) >= 0 {
            let i = last_str_key_index(entries, k);
            assert(entries[i].0 matches DbusValue::Str(u) && u@ == k);
        }
    }
    assert forall|j: int|
        #![trigger entries[j]]
        0 <= j < entries.len() implies (entries[j].0 matches DbusValue::Str(t) ==> ((forall|l: int|
            #![trigger entries[l]]
            j < l < entries.len() ==> !(entries[l].0 matches DbusValue::Str(u) && u@ == t@))
            ==> dict_entries_json(entries)[t@] == value_json(entries[j].1))) by {
        if let DbusValue::Str(t) = entries[j].0 {
            lemma_last_str_key_index(entries, t@);
        }
    }
}

} // verus!
