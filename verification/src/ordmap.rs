//! The ordered maps behind [`crate::keyfile::KeyFile`] and
//! [`crate::keyfile::Group`].
//!
//! Both maps are `indexmap::IndexMap` instances: an associative container
//! that preserves insertion order. The contents of each instantiation are
//! named by an uninterpreted sequence of key-value pairs, in map order, and
//! every method the library calls is wrapped in a function whose contract
//! states, over that sequence, what the `indexmap` documentation promises:
//! `insert` on a present key keeps the key and its slot and replaces only
//! the value, `insert` on an absent key appends, `shift_remove` removes by
//! shifting so the order of the remaining pairs is unchanged, and
//! `get_index` exposes the pairs in order.
//!
//! Key equality is the derived structural equality: `String` equality is
//! content equality, and equality of [`Locale`] is field-wise `String`
//! equality, so two keys are equivalent exactly when their views are equal.

use vstd::prelude::*;

use indexmap::IndexMap;

use crate::keyfile::{Group, KeyValuePair};
use crate::types::{Locale, LocaleV};

verus! {

/// `indexmap::IndexMap`, an insertion-order-preserving hash map.
#[verifier::external_type_specification]
#[verifier::external_body]
#[verifier::reject_recursive_types(K)]
#[verifier::reject_recursive_types(V)]
#[verifier::reject_recursive_types(S)]
pub struct ExIndexMap<K, V, S>(IndexMap<K, V, S>);

/// The compound key of an entry within a group: the key string and the
/// optional locale.
pub type EntryKey = (String, Option<Locale>);

/// The contents of a group map: its `(name, group)` pairs in map order.
pub uninterp spec fn group_map_seq(m: IndexMap<String, Group>) -> Seq<(String, Group)>;

/// The contents of an entry map: its `(compound key, pair)` pairs in map
/// order.
pub uninterp spec fn entry_map_seq(m: IndexMap<EntryKey, KeyValuePair>) -> Seq<
    (EntryKey, KeyValuePair),
>;

/// Some pair of `s` has this name as its key.
pub open spec fn gm_has(s: Seq<(String, Group)>, name: Seq<char>) -> bool {
    exists|i: int| 0 <= i < s.len() && (#[trigger] s[i]).0@ == name
}

/// The views of an entry key: the key characters and the locale value.
pub open spec fn ekey_view(k: EntryKey) -> (Seq<char>, Option<LocaleV>) {
    (k.0@, k.1.deep_view())
}

/// Some pair of `s` has this compound key.
pub open spec fn em_has(
    s: Seq<(EntryKey, KeyValuePair)>,
    key: Seq<char>,
    locale: Option<LocaleV>,
) -> bool {
    exists|i: int| 0 <= i < s.len() && ekey_view(#[trigger] s[i].0) == (key, locale)
}

/// Relies on `IndexMap::new`: creates an empty map.
#[verifier::external_body]
pub(crate) fn gm_new() -> (r: IndexMap<String, Group>)
    ensures
        group_map_seq(r) == Seq::<(String, Group)>::empty(),
{
    IndexMap::new()
}

/// Relies on `IndexMap::len`: the number of pairs.
#[verifier::external_body]
pub(crate) fn gm_len(m: &IndexMap<String, Group>) -> (r: usize)
    ensures
        r == group_map_seq(*m).len(),
{
    m.len()
}

/// Relies on `IndexMap::get_index`: the pair at a position, in map order.
#[verifier::external_body]
pub(crate) fn gm_get_index<'a>(m: &'a IndexMap<String, Group>, i: usize) -> (r: Option<
    (&'a String, &'a Group),
>)
    ensures
        match r {
            Some(p) => i < group_map_seq(*m).len() && *p.0 == group_map_seq(*m)[i as int].0 && *p.1
                == group_map_seq(*m)[i as int].1,
            None => i >= group_map_seq(*m).len(),
        },
{
    m.get_index(i)
}

/// Relies on `IndexMap::get`: lookup under `String` equality, which is
/// content equality.
#[verifier::external_body]
pub(crate) fn gm_get<'a>(m: &'a IndexMap<String, Group>, name: &str) -> (r: Option<&'a Group>)
    ensures
        match r {
            Some(g) => exists|i: int|
                0 <= i < group_map_seq(*m).len() && (#[trigger] group_map_seq(*m)[i]).0@ == name@
                    && *g == group_map_seq(*m)[i].1,
            None => !gm_has(group_map_seq(*m), name@),
        },
{
    m.get(name)
}

/// Relies on `IndexMap::insert`: a present key keeps its slot and its key
/// and only the value is replaced and returned; an absent key is appended
/// last.
#[verifier::external_body]
pub(crate) fn gm_insert(m: &mut IndexMap<String, Group>, name: String, g: Group) -> (r: Option<
    Group,
>)
    ensures
        ({
            let s = group_map_seq(*old(m));
            let t = group_map_seq(*final(m));
            if gm_has(s, name@) {
                exists|i: int|
                    0 <= i < s.len() && (#[trigger] s[i]).0@ == name@ && t == s.update(
                        i,
                        (s[i].0, g),
                    ) && r == Some(s[i].1)
            } else {
                t == s.push((name, g)) && r == Option::<Group>::None
            }
        }),
{
    m.insert(name, g)
}

/// Relies on `IndexMap::shift_remove`: a present key is removed by shifting
/// the pairs that follow it, preserving their order; an absent key leaves
/// the map unchanged.
#[verifier::external_body]
pub(crate) fn gm_shift_remove(m: &mut IndexMap<String, Group>, name: &str) -> (r: Option<Group>)
    ensures
        ({
            let s = group_map_seq(*old(m));
            let t = group_map_seq(*final(m));
            if gm_has(s, name@) {
                exists|i: int|
                    0 <= i < s.len() && (#[trigger] s[i]).0@ == name@ && t == s.remove(i) && r
                        == Some(s[i].1)
            } else {
                t == s && r == Option::<Group>::None
            }
        }),
{
    m.shift_remove(name)
}

/// Relies on `IndexMap::new`: creates an empty map.
#[verifier::external_body]
pub(crate) fn em_new() -> (r: IndexMap<EntryKey, KeyValuePair>)
    ensures
        entry_map_seq(r) == Seq::<(EntryKey, KeyValuePair)>::empty(),
{
    IndexMap::new()
}

/// Relies on `IndexMap::len`: the number of pairs.
#[verifier::external_body]
pub(crate) fn em_len(m: &IndexMap<EntryKey, KeyValuePair>) -> (r: usize)
    ensures
        r == entry_map_seq(*m).len(),
{
    m.len()
}

/// Relies on `IndexMap::get_index`: the pair at a position, in map order.
#[verifier::external_body]
pub(crate) fn em_get_index<'a>(m: &'a IndexMap<EntryKey, KeyValuePair>, i: usize) -> (r: Option<
    (&'a EntryKey, &'a KeyValuePair),
>)
    ensures
        match r {
            Some(p) => i < entry_map_seq(*m).len() && *p.0 == entry_map_seq(*m)[i as int].0 && *p.1
                == entry_map_seq(*m)[i as int].1,
            None => i >= entry_map_seq(*m).len(),
        },
{
    m.get_index(i)
}

/// Relies on `IndexMap::get`: lookup under the derived equality of the
/// compound key, which is content equality of the key string and field-wise
/// content equality of the locale.
#[verifier::external_body]
pub(crate) fn em_get<'a>(m: &'a IndexMap<EntryKey, KeyValuePair>, k: &EntryKey) -> (r: Option<
    &'a KeyValuePair,
>)
    ensures
        match r {
            Some(kv) => exists|i: int|
                0 <= i < entry_map_seq(*m).len() && ekey_view(#[trigger] entry_map_seq(*m)[i].0)
                    == ekey_view(*k) && *kv == entry_map_seq(*m)[i].1,
            None => !em_has(entry_map_seq(*m), k.0@, k.1.deep_view()),
        },
{
    m.get(k)
}

/// Relies on `IndexMap::insert`: a present key keeps its slot and its key
/// and only the value is replaced and returned; an absent key is appended
/// last.
#[verifier::external_body]
pub(crate) fn em_insert(
    m: &mut IndexMap<EntryKey, KeyValuePair>,
    k: EntryKey,
    kv: KeyValuePair,
) -> (r: Option<KeyValuePair>)
    ensures
        ({
            let s = entry_map_seq(*old(m));
            let t = entry_map_seq(*final(m));
            if em_has(s, k.0@, k.1.deep_view()) {
                exists|i: int|
                    0 <= i < s.len() && ekey_view(#[trigger] s[i].0) == ekey_view(k) && t
                        == s.update(i, (s[i].0, kv)) && r == Some(s[i].1)
            } else {
                t == s.push((k, kv)) && r == Option::<KeyValuePair>::None
            }
        }),
{
    m.insert(k, kv)
}

/// Relies on `IndexMap::shift_remove`: a present key is removed by shifting
/// the pairs that follow it, preserving their order; an absent key leaves
/// the map unchanged.
#[verifier::external_body]
pub(crate) fn em_shift_remove(m: &mut IndexMap<EntryKey, KeyValuePair>, k: &EntryKey) -> (r: Option<
    KeyValuePair,
>)
    ensures
        ({
            let s = entry_map_seq(*old(m));
            let t = entry_map_seq(*final(m));
            if em_has(s, k.0@, k.1.deep_view()) {
                exists|i: int|
                    0 <= i < s.len() && ekey_view(#[trigger] s[i].0) == ekey_view(*k) && t
                        == s.remove(i) && r == Some(s[i].1)
            } else {
                t == s && r == Option::<KeyValuePair>::None
            }
        }),
{
    m.shift_remove(k)
}

} // verus!
