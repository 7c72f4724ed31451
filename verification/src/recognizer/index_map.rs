//! The ordered map of the `indexmap` crate that holds the numbers of the recordings.

use indexmap::IndexMap;
use vstd::prelude::*;

use super::entries::has_id;

verus! {

/// `IndexMap`, a hash map that keeps its entries in an order. It is opaque; what it holds is
/// [`map_entries`].
#[verifier::external_type_specification]
#[verifier::external_body]
#[verifier::reject_recursive_types(K)]
#[verifier::reject_recursive_types(V)]
#[verifier::reject_recursive_types(S)]
pub struct ExIndexMap<K, V, S>(indexmap::IndexMap<K, V, S>);

/// The entries of a map, in the order in which the map keeps them.
pub uninterp spec fn map_entries(map: IndexMap<String, usize>) -> Seq<(Seq<char>, usize)>;

/// `IndexMap::new`: a map without entries.
#[verifier::external_body]
pub(crate) fn map_new() -> (map: IndexMap<String, usize>)
    ensures
        map_entries(map) == Seq::<(Seq<char>, usize)>::empty(),
{
    IndexMap::new()
}

/// `IndexMap::len`: the number of entries.
#[verifier::external_body]
pub(crate) fn map_len(map: &IndexMap<String, usize>) -> (len: usize)
    ensures
        len == map_entries(*map).len(),
{
    map.len()
}

/// `IndexMap::get_index`: the entry at a place, if there are that many.
#[verifier::external_body]
pub(crate) fn map_get_index(map: &IndexMap<String, usize>, index: usize) -> (res: Option<
    (&String, &usize),
>)
    ensures
        match res {
            Some((id, number)) => {
                &&& index < map_entries(*map).len()
                &&& map_entries(*map)[index as int] == (id@, *number)
            },
            None => index >= map_entries(*map).len(),
        },
{
    map.get_index(index)
}

/// `IndexMap::get_index_of`: the place of a key that the map has, else `None`.
#[verifier::external_body]
pub(crate) fn map_get_index_of(map: &IndexMap<String, usize>, id: &str) -> (res: Option<usize>)
    ensures
        match res {
            Some(index) => {
                &&& index < map_entries(*map).len()
                &&& map_entries(*map)[index as int].0 == id@
            },
            None => !has_id(map_entries(*map), id@),
        },
{
    map.get_index_of(id)
}

/// `IndexMap::insert_full`: under a key that the map has, the value is replaced where it is
/// and handed back; under a new key it goes last. The place of the key is returned as well.
#[verifier::external_body]
pub(crate) fn map_insert_full(
    map: &mut IndexMap<String, usize>,
    id: String,
    number: usize,
) -> (res: (usize, Option<usize>))
    ensures
        match res.1 {
            Some(last) => {
                &&& res.0 < map_entries(*old(map)).len()
                &&& map_entries(*old(map))[res.0 as int] == (id@, last)
                &&& map_entries(*final(map)) == map_entries(*old(map)).update(
                    res.0 as int,
                    (id@, number),
                )
            },
            None => {
                &&& !has_id(map_entries(*old(map)), id@)
                &&& res.0 == map_entries(*old(map)).len()
                &&& map_entries(*final(map)) == map_entries(*old(map)).push((id@, number))
            },
        },
{
    map.insert_full(id, number)
}

/// `IndexMap::shift_remove_full`: the entry of a key that the map has is taken out, and the
/// ones behind it move up; else nothing happens. What was taken out is returned with its
/// place.
#[verifier::external_body]
pub(crate) fn map_shift_remove_full(map: &mut IndexMap<String, usize>, id: &str) -> (res:
    Option<(usize, String, usize)>)
    ensures
        match res {
            Some((index, key, number)) => {
                &&& key@ == id@
                &&& index < map_entries(*old(map)).len()
                &&& map_entries(*old(map))[index as int] == (key@, number)
                &&& map_entries(*final(map)) == map_entries(*old(map)).remove(index as int)
            },
            None => {
                &&& !has_id(map_entries(*old(map)), id@)
                &&& map_entries(*final(map)) == map_entries(*old(map))
            },
        },
{
    map.shift_remove_full(id)
}

} // verus!
