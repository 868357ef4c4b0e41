//! Insertion-ordered maps from `linked_hash_map`, seen through the sequence
//! of their entries in iteration order.
use linked_hash_map::LinkedHashMap;
use vstd::prelude::*;

verus! {

#[verifier::external_type_specification]
#[verifier::external_body]
#[verifier::reject_recursive_types(K)]
#[verifier::reject_recursive_types(V)]
#[verifier::reject_recursive_types(S)]
pub struct ExLinkedHashMap<K, V, S>(LinkedHashMap<K, V, S>);

/// The entries of a map from strings to strings, in iteration order.
pub uninterp spec fn text_entries(m: LinkedHashMap<String, String>) -> Seq<(Seq<char>, Seq<char>)>;

/// The entries of a map from strings to lists of strings, in iteration order.
pub uninterp spec fn list_entries(m: LinkedHashMap<String, Vec<String>>) -> Seq<
    (Seq<char>, Seq<Seq<char>>),
>;

/// `es` without its entries under key `k`.
pub open spec fn without_key<V>(es: Seq<(Seq<char>, V)>, k: Seq<char>) -> Seq<(Seq<char>, V)>
    decreases es.len(),
{
    if es.len() == 0 {
        es
    } else {
        let r = without_key(es.drop_last(), k);
        if es.last().0 == k {
            r
        } else {
            r.push(es.last())
        }
    }
}

/// The entries after inserting `(k, v)`: an entry already under `k` is
/// dropped and the new one comes last.
pub open spec fn insert_entry<V>(es: Seq<(Seq<char>, V)>, k: Seq<char>, v: V) -> Seq<
    (Seq<char>, V),
> {
    without_key(es, k).push((k, v))
}

/// The value of the last entry under key `k`, if any.
pub open spec fn lookup<V>(es: Seq<(Seq<char>, V)>, k: Seq<char>) -> Option<V>
    decreases es.len(),
{
    if es.len() == 0 {
        None
    } else if es.last().0 == k {
        Some(es.last().1)
    } else {
        lookup(es.drop_last(), k)
    }
}

/// The views of pairs of strings.
pub open spec fn pair_views(v: Seq<(String, String)>) -> Seq<(Seq<char>, Seq<char>)> {
    v.map_values(|p: (String, String)| (p.0@, p.1@))
}

/// The views of pairs of a string and a list of strings.
pub open spec fn list_pair_views(v: Seq<(String, Vec<String>)>) -> Seq<
    (Seq<char>, Seq<Seq<char>>),
> {
    v.map_values(|p: (String, Vec<String>)| (p.0@, p.1@.map_values(|x: String| x@)))
}

/// Relies on `LinkedHashMap::new`: the map is empty.
#[verifier::external_body]
pub(crate) fn new_text_map() -> (m: LinkedHashMap<String, String>)
    ensures
        text_entries(m) == Seq::<(Seq<char>, Seq<char>)>::empty(),
{
    LinkedHashMap::new()
}

/// Relies on `LinkedHashMap::insert`: the value under an existing key is
/// replaced and that entry moves to the back; a new key is appended.
#[verifier::external_body]
pub(crate) fn text_map_insert(m: &mut LinkedHashMap<String, String>, k: String, v: String)
    ensures
        text_entries(*final(m)) == insert_entry(text_entries(*old(m)), k@, v@),
{
    m.insert(k, v);
}

/// Relies on `LinkedHashMap::get`: the value under the key, if there is one
/// (keys of a map are unique).
#[verifier::external_body]
pub(crate) fn text_map_get(m: &LinkedHashMap<String, String>, k: &str) -> (r: Option<String>)
    ensures
        match r {
            Some(v) => lookup(text_entries(*m), k@) == Some(v@),
            None => lookup(text_entries(*m), k@) is None,
        },
{
    m.get(k).cloned()
}

/// Relies on `LinkedHashMap::iter`: the entries in insertion order.
#[verifier::external_body]
pub(crate) fn text_map_entries(m: &LinkedHashMap<String, String>) -> (r: Vec<(String, String)>)
    ensures
        pair_views(r@) == text_entries(*m),
{
    m.iter().map(|(k, v)| (k.clone(), v.clone())).collect()
}

/// Relies on `LinkedHashMap::new` (lists as values): the map is empty.
#[verifier::external_body]
pub(crate) fn new_list_map() -> (m: LinkedHashMap<String, Vec<String>>)
    ensures
        list_entries(m) == Seq::<(Seq<char>, Seq<Seq<char>>)>::empty(),
{
    LinkedHashMap::new()
}

/// Relies on `LinkedHashMap::insert` (lists as values), as `text_map_insert`.
#[verifier::external_body]
pub(crate) fn list_map_insert(
    m: &mut LinkedHashMap<String, Vec<String>>,
    k: String,
    v: Vec<String>,
)
    ensures
        list_entries(*final(m)) == insert_entry(
            list_entries(*old(m)),
            k@,
            v@.map_values(|x: String| x@),
        ),
{
    m.insert(k, v);
}

/// Relies on `LinkedHashMap::iter` (lists as values): the entries in
/// insertion order.
#[verifier::external_body]
pub(crate) fn list_map_entries(m: &LinkedHashMap<String, Vec<String>>) -> (r: Vec<
    (String, Vec<String>),
>)
    ensures
        list_pair_views(r@) == list_entries(*m),
{
    m.iter().map(|(k, v)| (k.clone(), v.clone())).collect()
}

} // verus!
