//! The values that travel in a D-Bus `a{sv}` row, as the store daemon emits them.

use vstd::prelude::*;

verus! {

/// One D-Bus value. It has the variants of `zvariant::Value`; a double is held
/// by its IEEE-754 bits and a file descriptor carries nothing.
#[derive(Debug, PartialEq)]
pub enum DbusValue {
    U8(u8),
    Bool(bool),
    I16(i16),
    U16(u16),
    I32(i32),
    U32(u32),
    I64(i64),
    U64(u64),
    F64(u64),
    Str(String),
    Signature(String),
    ObjectPath(String),
    Value(Box<DbusValue>),
    Array(Vec<DbusValue>),
    Dict(Vec<(DbusValue, DbusValue)>),
    Structure(Vec<DbusValue>),
    Fd,
}

/// One `a{sv}` row (an app, plugin or enrichment entry) as it crosses the bus.
pub type Dict = Vec<(String, DbusValue)>;

/// Index of the last entry of `s` whose key is the string value `k`, or -1
/// where there is none. Entries with keys of other types are never found.
pub open spec fn last_str_key_index(s: Seq<(DbusValue, DbusValue)>, k: Seq<char>) -> int
    decreases s.len(),
{
    if s.len() == 0 {
        -1
    } else if s.last().0 matches DbusValue::Str(key) && key@ == k {
        s.len() - 1
    } else {
        last_str_key_index(s.drop_last(), k)
    }
}

/// `last_str_key_index` is the last position whose key is the string `k`, or -1.
pub proof fn lemma_last_str_key_index(s: Seq<(DbusValue, DbusValue)>, k: Seq<char>)
    ensures
        -1 <= last_str_key_index(s, k) < s.len(),
        last_str_key_index(s, k) >= 0 ==> (s[last_str_key_index(s, k)].0 matches DbusValue::Str(
            key,
        ) && key@ == k),
        forall|j: int|
            last_str_key_index(s, k) < j < s.len() ==> !(#[trigger] s[j].0 matches DbusValue::Str(
                key,
            ) && key@ == k),
    decreases s.len(),
{
    if s.len() > 0 {
        lemma_last_str_key_index(s.drop_last(), k);
        assert forall|j: int| last_str_key_index(s, k) < j < s.len() implies !(
        #[trigger] s[j].0 matches DbusValue::Str(key) && key@ == k) by {
            if j < s.len() - 1 {
                assert(s[j] == s.drop_last()[j]);
            }
        }
    }
}

} // verus!
