//! A JSON value model with the semantics of `serde_json::Value`.

use vstd::prelude::*;

verus! {

/// A JSON number, represented as `serde_json` represents it: a non-negative
/// integer, a negative integer, or a finite double (held by its IEEE-754 bits).
#[derive(Clone, Copy, Debug, PartialEq, Eq, Structural)]
pub enum JsonNumber {
    PosInt(u64),
    NegInt(i64),
    Float(u64),
}

/// A JSON value. Objects are association lists: a later entry for a key
/// shadows an earlier one, as a later `insert` does in a JSON map.
#[derive(Debug, PartialEq)]
pub enum Json {
    Null,
    Bool(bool),
    Number(JsonNumber),
    String(String),
    Array(Vec<Json>),
    Object(Vec<(String, Json)>),
}

/// The mathematical value of a JSON document: objects are maps from keys to values.
pub enum JsonV {
    Null,
    Bool(bool),
    Number(JsonNumber),
    String(Seq<char>),
    Array(Seq<JsonV>),
    Object(Map<Seq<char>, JsonV>),
}

/// Index of the last entry of `s` whose key is `k`, or -1 where there is none.
pub open spec fn last_key_index<T>(s: Seq<(String, T)>, k: Seq<char>) -> int
    decreases s.len(),
{
    if s.len() == 0 {
        -1
    } else if s.last().0@ == k {
        s.len() - 1
    } else {
        last_key_index(s.drop_last(), k)
    }
}

/// The map that an association list denotes: each key maps to the value of its
/// last entry.
pub open spec fn object_view(s: Seq<(String, Json)>) -> Map<Seq<char>, JsonV>
    decreases s,
{
    Map::new(
        |k: Seq<char>| last_key_index(s, k) >= 0,
        |k: Seq<char>|
            {
                let i = last_key_index(s, k);
                if 0 <= i < s.len() {
                    json_view(s[i].1)
                } else {
                    JsonV::Null
                }
            },
    )
}

/// `last_key_index` is the last position whose key is `k`, or -1 where no key is `k`.
pub proof fn lemma_last_key_index<T>(s: Seq<(String, T)>, k: Seq<char>)
    ensures
        -1 <= last_key_index(s, k) < s.len(),
        last_key_index(s, k) >= 0 ==> s[last_key_index(s, k)].0@ == k,
        forall|j: int| last_key_index(s, k) < j < s.len() ==> #[trigger] s[j].0@ != k,
    decreases s.len(),
{
    if s.len() > 0 {
        lemma_last_key_index(s.drop_last(), k);
        assert forall|j: int| last_key_index(s, k) < j < s.len() implies #[trigger] s[j].0@
            != k by {
            if j < s.len() - 1 {
                assert(s[j] == s.drop_last()[j]);
            }
        }
    }
}

/// Two association lists whose keys agree position by position have the same
/// last positions for every key.
pub proof fn lemma_last_key_index_same_keys<T, U>(
    s: Seq<(String, T)>,
    t: Seq<(String, U)>,
    k: Seq<char>,
)
    requires
        s.len() == t.len(),
        forall|j: int| 0 <= j < s.len() ==> #[trigger] s[j].0@ == t[j].0@,
    ensures
        last_key_index(s, k) == last_key_index(t, k),
    decreases s.len(),
{
    if s.len() > 0 {
        assert forall|j: int| 0 <= j < s.drop_last().len() implies #[trigger] s.drop_last()[j].0@
            == t.drop_last()[j].0@ by {
            assert(s[j].0@ == t[j].0@);
        }
        lemma_last_key_index_same_keys(s.drop_last(), t.drop_last(), k);
    }
}

/// Appending an entry makes it the last entry for its key.
pub proof fn lemma_last_key_index_push<T>(s: Seq<(String, T)>, e: (String, T), k: Seq<char>)
    ensures
        last_key_index(s.push(e), k) == if e.0@ == k {
            s.len() as int
        } else {
            last_key_index(s, k)
        },
{
    assert(s.push(e).drop_last() =~= s);
}

/// The mathematical value of a JSON document.
pub open spec fn json_view(j: Json) -> JsonV
    decreases j,
{
    match j {
        Json::Null => JsonV::Null,
        Json::Bool(b) => JsonV::Bool(b),
        Json::Number(n) => JsonV::Number(n),
        Json::String(s) => JsonV::String(s@),
        Json::Array(items) => JsonV::Array(
            Seq::new(
                items@.len(),
                |i: int|
                    if 0 <= i < items@.len() {
                        json_view(items@[i])
                    } else {
                        JsonV::Null
                    },
            ),
        ),
        Json::Object(entries) => JsonV::Object(object_view(entries@)),
    }
}

impl View for Json {
    type V = JsonV;

    open spec fn view(&self) -> JsonV {
        json_view(*self)
    }
}

/// The map that an association list gives under `f`: each key maps to `f`
/// applied to the key and the value of its last entry.
pub open spec fn assoc_map<T>(s: Seq<(String, T)>, f: spec_fn(Seq<char>, T) -> JsonV) -> Map<
    Seq<char>,
    JsonV,
> {
    Map::new(
        |k: Seq<char>| last_key_index(s, k) >= 0,
        |k: Seq<char>|
            {
                let i = last_key_index(s, k);
                if 0 <= i < s.len() {
                    f(k, s[i].1)
                } else {
                    JsonV::Null
                }
            },
    )
}

/// Appending an entry to an association list inserts it into the map it gives.
pub proof fn lemma_assoc_map_push<T>(
    s: Seq<(String, T)>,
    e: (String, T),
    f: spec_fn(Seq<char>, T) -> JsonV,
)
    ensures
        assoc_map(s.push(e), f) == assoc_map(s, f).insert(e.0@, f(e.0@, e.1)),
{
    let t = s.push(e);
    assert forall|k: Seq<char>| #![auto] assoc_map(t, f).contains_key(k) implies assoc_map(t, f)[k]
        == assoc_map(s, f).insert(e.0@, f(e.0@, e.1))[k] by {
        lemma_last_key_index_push(s, e, k);
        lemma_last_key_index(s, k);
        if k != e.0@ {
            assert(t[last_key_index(s, k)] == s[last_key_index(s, k)]);
        }
    }
    assert forall|k: Seq<char>| #![auto] assoc_map(t, f).contains_key(k) <==> assoc_map(s, f).insert(
        e.0@,
        f(e.0@, e.1),
    ).contains_key(k) by {
        lemma_last_key_index_push(s, e, k);
    }
    assert(assoc_map(t, f) =~= assoc_map(s, f).insert(e.0@, f(e.0@, e.1)));
}

/// Whether no two entries of an association list have equal keys, as in a map.
pub open spec fn keys_unique<T>(s: Seq<(String, T)>) -> bool {
    forall|i: int, j: int| 0 <= i < s.len() && 0 <= j < s.len() && i != j ==> #[trigger] s[i].0@
        != #[trigger] s[j].0@
}

/// The keys of the entries of an association list.
pub open spec fn entry_keys<T>(s: Seq<(String, T)>) -> Set<Seq<char>> {
    Set::new(|k: Seq<char>| exists|j: int| 0 <= j < s.len() && #[trigger] s[j].0@ == k)
}

/// The map that an association list with unique keys gives under `f` has
/// exactly the list's keys, and each key maps to `f` of its entry.
pub proof fn lemma_assoc_map_entries<T>(s: Seq<(String, T)>, f: spec_fn(Seq<char>, T) -> JsonV)
    requires
        keys_unique(s),
    ensures
        assoc_map(s, f).dom() == entry_keys(s),
        forall|j: int|
            0 <= j < s.len() ==> #[trigger] assoc_map(s, f)[s[j].0@] == f(s[j].0@, s[j].1),
{
    assert forall|k: Seq<char>| #![auto]
        assoc_map(s, f).dom().contains(k) <==> entry_keys(s).contains(k) by {
        lemma_last_key_index(s, k);
        if entry_keys(s).contains(k) {
            let j = choose|j: int| 0 <= j < s.len() && #[trigger] s[j].0@ == k;
            assert(s[j].0@ == k);
        }
    }
    assert(assoc_map(s, f).dom() =~= entry_keys(s));
    assert forall|j: int| 0 <= j < s.len() implies #[trigger] assoc_map(s, f)[s[j].0@] == f(
        s[j].0@,
        s[j].1,
    ) by {
        lemma_last_key_index(s, s[j].0@);
        let i = last_key_index(s, s[j].0@);
        assert(i >= j);
        if i != j {
            assert(s[i].0@ != s[j].0@);
        }
    }
}

/// The values of a sequence of JSON documents, element by element.
pub open spec fn json_views(s: Seq<Json>) -> Seq<JsonV> {
    s.map_values(|x: Json| json_view(x))
}

/// An array's value is the sequence of its elements' values.
pub proof fn lemma_array_view(items: Vec<Json>)
    ensures
        Json::Array(items)@ == JsonV::Array(json_views(items@)),
{
    if let JsonV::Array(b) = Json::Array(items)@ {
        assert(b =~= json_views(items@));
    }
}

/// Inserts `value` under `key` into an object's entries, replacing the value
/// that an entry with an equal key holds, as `serde_json::Map::insert` does.
pub fn object_insert(entries: &mut Vec<(String, Json)>, key: String, value: Json)
    ensures
        object_view(final(entries)@) == object_view(old(entries)@).insert(key@, value@),
        keys_unique(old(entries)@) ==> keys_unique(final(entries)@),
{
    let ghost s = entries@;
    let ghost k = key@;
    let ghost v = value@;
    let mut i = entries.len();
    let mut found = false;
    while i > 0 && !found
        invariant
            i <= s.len(),
            entries@ == s,
            k == key@,
            found ==> i < s.len() && s[i as int].0@ == k,
            forall|j: int| i < j < s.len() ==> #[trigger] s[j].0@ != k,
            !found ==> (i < s.len() ==> s[i as int].0@ != k),
        decreases i + if found { 0int } else { 1int },
    {
        i = i - 1;
        found = entries[i].0 == key;
    }
    proof {
        lemma_last_key_index(s, k);
    }
    if found {
        entries[i] = (key, value);
        proof {
            let t = entries@;
            assert(last_key_index(s, k) == i as int);
            assert forall|j: int| 0 <= j < s.len() implies #[trigger] s[j].0@ == t[j].0@ by {}
            assert forall|k2: Seq<char>| #![auto] true implies last_key_index(s, k2)
                == last_key_index(t, k2) by {
                lemma_last_key_index_same_keys(s, t, k2);
            }
            assert forall|k2: Seq<char>| #![auto] object_view(t).contains_key(k2) implies
                object_view(t)[k2] == object_view(s).insert(k, v)[k2] by {
                lemma_last_key_index(s, k2);
            }
            assert(object_view(t) =~= object_view(s).insert(k, v));
            assert(keys_unique(s) ==> keys_unique(t));
        }
    } else {
        entries.push((key, value));
        proof {
            let t = entries@;
            assert(last_key_index(s, k) == -1);
            assert forall|k2: Seq<char>| #![auto] true implies last_key_index(t, k2) == if k2 == k {
                s.len() as int
            } else {
                last_key_index(s, k2)
            } by {
                lemma_last_key_index_push(s, t.last(), k2);
                assert(s.push(t.last()) =~= t);
            }
            assert forall|k2: Seq<char>| #![auto] object_view(t).contains_key(k2) implies
                object_view(t)[k2] == object_view(s).insert(k, v)[k2] by {
                lemma_last_key_index(s, k2);
                if k2 != k {
                    assert(t[last_key_index(s, k2)] == s[last_key_index(s, k2)]);
                }
            }
            assert(object_view(t) =~= object_view(s).insert(k, v));
            if keys_unique(s) {
                assert forall|a: int, b: int|
                    0 <= a < t.len() && 0 <= b < t.len() && a != b implies #[trigger] t[a].0@
                    != #[trigger] t[b].0@ by {
                    if a < s.len() && b < s.len() {
                        assert(t[a] == s[a] && t[b] == s[b]);
                    } else if a < s.len() {
                        assert(t[a] == s[a]);
                    } else {
                        assert(t[b] == s[b]);
                    }
                }
            }
        }
    }
}

impl Json {
    /// The value under `key` where this is an object that has it, as indexing
    /// a `serde_json::Value` by a key reads it.
    pub fn get(&self, key: &str) -> (r: Option<&Json>)
        ensures
            match self@ {
                JsonV::Object(m) => match r {
                    Some(v) => m.contains_key(key@) && m[key@] == v@,
                    None => !m.contains_key(key@),
                },
                _ => r is None,
            },
    {
        match self {
            Json::Object(entries) => {
                let ghost s = entries@;
                let k = String::from_str(key);
                let mut i = entries.len();
                let mut found = false;
                while i > 0 && !found
                    invariant
                        i <= s.len(),
                        entries@ == s,
                        k@ == key@,
                        found ==> i < s.len() && s[i as int].0@ == key@,
                        forall|j: int| i < j < s.len() ==> #[trigger] s[j].0@ != key@,
                        !found ==> (i < s.len() ==> s[i as int].0@ != key@),
                    decreases i + if found { 0int } else { 1int },
                {
                    i = i - 1;
                    found = entries[i].0 == k;
                }
                proof {
                    lemma_last_key_index(s, key@);
                    assert(self@ == JsonV::Object(object_view(s)));
                    if found {
                        assert(last_key_index(s, key@) == i as int);
                    }
                }
                if found {
                    Some(&entries[i].1)
                } else {
                    None
                }
            },
            _ => None,
        }
    }

    /// The `i`-th element where this is an array that long, as indexing a
    /// `serde_json::Value` by a position reads it.
    pub fn at(&self, i: usize) -> (r: Option<&Json>)
        ensures
            match self@ {
                JsonV::Array(a) => match r {
                    Some(v) => i < a.len() && a[i as int] == v@,
                    None => i >= a.len(),
                },
                _ => r is None,
            },
    {
        match self {
            Json::Array(items) => {
                if i < items.len() {
                    Some(&items[i])
                } else {
                    None
                }
            },
            _ => None,
        }
    }
}

} // verus!
