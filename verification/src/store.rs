//! The decisions of the store client's C interface: which names a request
//! carries, and the JSON document that answers each read.

use vstd::prelude::*;

use crate::convert::{count_where, dict_json, dict_to_json};
use crate::json::{
    Json, JsonV, assoc_map, entry_keys, json_views, keys_unique, last_key_index, lemma_array_view,
    lemma_assoc_map_entries, lemma_assoc_map_push, lemma_last_key_index, object_insert,
    object_view,
};
use crate::value::Dict;

verus! {

/// The text of a C string argument that was present and valid UTF-8.
pub open spec fn present_fn() -> spec_fn(Option<String>) -> Option<Seq<char>> {
    |o: Option<String>|
        match o {
            Some(s) => Some(s@),
            None => None,
        }
}

/// The texts of a sequence of strings.
pub open spec fn string_views(s: Seq<String>) -> Seq<Seq<char>> {
    s.map_values(|x: String| x@)
}

/// The strings of a C string array, in order, leaving out the entries that
/// were NULL or not valid UTF-8 (given as `None`).
pub fn collect_strv(entries: &Vec<Option<String>>) -> (r: Vec<String>)
    ensures
        string_views(r@) == entries@.filter_map(present_fn()),
{
    let mut out: Vec<String> = Vec::new();
    proof {
        assert(entries@.take(0) =~= Seq::<Option<String>>::empty());
        assert(string_views(out@) =~= entries@.take(0).filter_map(present_fn()));
    }
    for i in 0..entries.len()
        invariant
            string_views(out@) == entries@.take(i as int).filter_map(present_fn()),
    {
        proof {
            entries@.lemma_filter_map_take_succ(present_fn(), i as int);
        }
        let ghost prev = out@;
        match &entries[i] {
            Some(s) => {
                out.push(s.clone());
                proof {
                    assert(string_views(out@) =~= string_views(prev) + seq![s@]);
                }
            },
            None => {},
        }
    }
    proof {
        assert(entries@.take(entries@.len() as int) =~= entries@);
    }
    out
}

/// The names that a batch request (install, uninstall, enrichment, licenses)
/// carries: the present entries of the C array, or no request at all where
/// none is present.
pub fn batch_names(entries: &Vec<Option<String>>) -> (r: Option<Vec<String>>)
    ensures
        r is None <==> entries@.filter_map(present_fn()).len() == 0,
        r matches Some(names) ==> string_views(names@) == entries@.filter_map(present_fn()),
{
    let names = collect_strv(entries);
    if names.len() == 0 {
        None
    } else {
        Some(names)
    }
}

/// The JSON values of a sequence of rows, in order.
pub open spec fn rows_json(ds: Seq<Dict>) -> Seq<JsonV> {
    ds.map_values(|d: Dict| dict_json(d@))
}

/// The reply to a listing or search: the JSON array of its rows, in order.
pub fn dicts_json(dicts: Vec<Dict>) -> (j: Json)
    ensures
        j@ == JsonV::Array(rows_json(dicts@)),
{
    let ghost ds = dicts@;
    let mut out: Vec<Json> = Vec::new();
    for d in it: dicts.into_iter()
        invariant
            it.seq() == ds,
            out@.len() == it.index(),
            forall|j: int| 0 <= j < out@.len() ==> #[trigger] out@[j]@ == dict_json(ds[j]@),
    {
        out.push(dict_to_json(d));
    }
    proof {
        lemma_array_view(out);
        assert(out@.len() == ds.len());
        assert forall|j: int| 0 <= j < ds.len() implies json_views(out@)[j] == rows_json(ds)[j] by {
            assert(out@[j]@ == dict_json(ds[j]@));
        }
        assert(json_views(out@) =~= rows_json(ds));
    }
    Json::Array(out)
}

/// The JSON value of an enrichment entry, keyed by its app id.
pub open spec fn enrichment_fn() -> spec_fn(Seq<char>, Dict) -> JsonV {
    |id: Seq<char>, d: Dict| dict_json(d@)
}

/// The enrichment object that a reply gives: each app id maps to the JSON
/// value of its row.
pub open spec fn enrichment_map(m: Seq<(String, Dict)>) -> Map<Seq<char>, JsonV> {
    assoc_map(m, enrichment_fn())
}

/// The license of an attribute as a JSON string.
pub open spec fn license_fn() -> spec_fn(Seq<char>, String) -> JsonV {
    |attr: Seq<char>, license: String| JsonV::String(license@)
}

/// The enrichment for one app id out of the daemon's reply: its row as JSON,
/// or nothing where the daemon had nothing for it.
pub fn enrichment_entry(map: Vec<(String, Dict)>, app_id: &str) -> (r: Option<Json>)
    ensures
        match r {
            Some(j) => enrichment_map(map@).contains_key(app_id@) && enrichment_map(map@)[app_id@]
                == j@,
            None => !enrichment_map(map@).contains_key(app_id@),
        },
{
    let ghost s = map@;
    let key = String::from_str(app_id);
    let mut map = map;
    let mut i = map.len();
    let mut found = false;
    while i > 0 && !found
        invariant
            i <= s.len(),
            map@ == s,
            key@ == app_id@,
            found ==> i < s.len() && s[i as int].0@ == app_id@,
            forall|j: int| i < j < s.len() ==> #[trigger] s[j].0@ != app_id@,
            !found ==> (i < s.len() ==> s[i as int].0@ != app_id@),
        decreases i + if found { 0int } else { 1int },
    {
        i = i - 1;
        found = map[i].0 == key;
    }
    proof {
        lemma_last_key_index(s, app_id@);
    }
    if found {
        let (_, d) = map.remove(i);
        proof {
            assert(last_key_index(s, app_id@) == i as int);
        }
        Some(dict_to_json(d))
    } else {
        None
    }
}

/// The batched enrichment reply: a JSON object that maps every app id the
/// daemon had something for to its row; other ids are absent.
pub fn enrichment_object(map: Vec<(String, Dict)>) -> (j: Json)
    ensures
        j@ == JsonV::Object(enrichment_map(map@)),
{
    let ghost s = map@;
    let mut m: Vec<(String, Json)> = Vec::new();
    proof {
        assert(s.take(0) =~= Seq::<(String, Dict)>::empty());
        assert(object_view(m@) =~= assoc_map(s.take(0), enrichment_fn()));
    }
    for entry in it: map.into_iter()
        invariant
            it.seq() == s,
            0 <= it.index() <= s.len(),
            object_view(m@) == assoc_map(s.take(it.index() as int), enrichment_fn()),
    {
        let ghost idx = it.index() as int;
        proof {
            lemma_assoc_map_push(s.take(idx), s[idx], enrichment_fn());
            assert(s.take(idx).push(s[idx]) =~= s.take(idx + 1));
        }
        let (id, d) = entry;
        let json = dict_to_json(d);
        object_insert(&mut m, id, json);
    }
    proof {
        assert(s.take(s.len() as int) =~= s);
    }
    Json::Object(m)
}

/// The license reply: a JSON object that maps every attribute the daemon found
/// a license for to its SPDX expression; other attributes are absent.
pub fn licenses_object(map: Vec<(String, String)>) -> (j: Json)
    ensures
        j@ == JsonV::Object(assoc_map(map@, license_fn())),
{
    let ghost s = map@;
    let mut m: Vec<(String, Json)> = Vec::new();
    proof {
        assert(s.take(0) =~= Seq::<(String, String)>::empty());
        assert(object_view(m@) =~= assoc_map(s.take(0), license_fn()));
    }
    for entry in it: map.into_iter()
        invariant
            it.seq() == s,
            0 <= it.index() <= s.len(),
            object_view(m@) == assoc_map(s.take(it.index() as int), license_fn()),
    {
        let ghost idx = it.index() as int;
        proof {
            lemma_assoc_map_push(s.take(idx), s[idx], license_fn());
            assert(s.take(idx).push(s[idx]) =~= s.take(idx + 1));
        }
        let (attr, license) = entry;
        object_insert(&mut m, attr, Json::String(license));
    }
    proof {
        assert(s.take(s.len() as int) =~= s);
    }
    Json::Object(m)
}

/// The batched enrichment object covers exactly the app ids of the daemon's
/// reply, each with its row converted; ids the daemon had nothing for are
/// absent. Replies have unique ids, as the map they come from.
pub proof fn lemma_enrichment_covers(m: Seq<(String, Dict)>)
    requires
        keys_unique(m),
    ensures
        enrichment_map(m).dom() == entry_keys(m),
        forall|j: int|
            0 <= j < m.len() ==> #[trigger] enrichment_map(m)[m[j].0@] == dict_json(m[j].1@),
{
    lemma_assoc_map_entries(m, enrichment_fn());
}

/// The license object covers exactly the attributes of the daemon's reply,
/// each with its SPDX expression; attributes without a license are absent.
pub proof fn lemma_licenses_cover(m: Seq<(String, String)>)
    requires
        keys_unique(m),
    ensures
        assoc_map(m, license_fn()).dom() == entry_keys(m),
        forall|j: int|
            0 <= j < m.len() ==> #[trigger] assoc_map(m, license_fn())[m[j].0@] == JsonV::String(
                m[j].1@,
            ),
{
    lemma_assoc_map_entries(m, license_fn());
}

/// A listing reply has one element for each row, in order: its `i`-th
/// element is the `i`-th row converted.
pub proof fn lemma_rows_json(ds: Seq<Dict>)
    ensures
        rows_json(ds).len() == ds.len(),
        forall|i: int| 0 <= i < ds.len() ==> #[trigger] rows_json(ds)[i] == dict_json(ds[i]@),
{
}

/// Every present entry of a C string array is carried unchanged, whatever
/// its text, and a missing one is not.
pub proof fn lemma_present_entries(entries: Seq<Option<String>>)
    ensures
        forall|t: String| #[trigger] present_fn()(Some(t)) == Some(t@),
        present_fn()(None) is None,
        entries.filter_map(present_fn()).len() == count_where(
            entries,
            |o: Option<String>| o is Some,
        ),
        entries.filter_map(present_fn()).len() == 0 <==> forall|i: int|
            0 <= i < entries.len() ==> #[trigger] entries[i] is None,
        (forall|i: int| 0 <= i < entries.len() ==> #[trigger] entries[i] is Some) ==> entries.filter_map(
            present_fn(),
        ) == entries.map_values(|o: Option<String>| o->Some_0@),
    decreases entries.len(),
{
    if entries.len() > 0 {
        let e = entries.drop_last();
        lemma_present_entries(e);
        assert forall|i: int| 0 <= i < e.len() implies #[trigger] e[i] == entries[i] by {}
        if entries.filter_map(present_fn()).len() == 0 {
            assert(entries.last() is None);
            assert(e.filter_map(present_fn()).len() == 0);
            assert forall|i: int| 0 <= i < entries.len() implies #[trigger] entries[i] is None by {
                if i < e.len() {
                    assert(e[i] is None);
                }
            }
        }
        if forall|i: int| 0 <= i < entries.len() ==> #[trigger] entries[i] is None {
            assert(entries[entries.len() - 1] is None);
            assert forall|i: int| 0 <= i < e.len() implies #[trigger] e[i] is None by {
                assert(entries[i] is None);
            }
        }
        if forall|i: int| 0 <= i < entries.len() ==> #[trigger] entries[i] is Some {
            assert(entries[entries.len() - 1] is Some);
            assert(e.map_values(|o: Option<String>| o->Some_0@).push(entries.last()->Some_0@)
                =~= entries.map_values(|o: Option<String>| o->Some_0@));
        }
    }
}

} // verus!
