//! The insertion-ordered map that holds a snapshot, as far as this library
//! relies on it. Everything stated here is taken on trust from `indexmap`.

use indexmap::IndexMap;
use vstd::prelude::*;

verus! {

/// `indexmap::IndexMap`, held as it is: nothing inside it is seen here.
#[verifier::external_type_specification]
#[verifier::external_body]
#[verifier::reject_recursive_types(K)]
#[verifier::reject_recursive_types(V)]
#[verifier::reject_recursive_types(S)]
pub struct ExIndexMap<K, V, S>(IndexMap<K, V, S>);

/// The key/value pairs that a map holds, in the map's own order.
pub uninterp spec fn map_entries(map: IndexMap<Vec<u8>, Vec<u8>>) -> Seq<(Seq<u8>, Seq<u8>)>;

/// `IndexMap::new`: the new map holds no pair.
#[verifier::external_body]
pub(crate) fn map_new() -> (map: IndexMap<Vec<u8>, Vec<u8>>)
    ensures
        map_entries(map) == Seq::<(Seq<u8>, Seq<u8>)>::empty(),
{
    IndexMap::new()
}

/// `IndexMap::len`: the number of pairs held.
#[verifier::external_body]
pub(crate) fn map_len(map: &IndexMap<Vec<u8>, Vec<u8>>) -> (len: usize)
    ensures
        len == map_entries(*map).len(),
{
    map.len()
}

/// `IndexMap::insert`: where a pair with an equal key is held, that pair
/// keeps its place, takes the new value and gives up the old one; otherwise
/// the new pair goes last and nothing is returned.
#[verifier::external_body]
pub(crate) fn map_insert(
    map: &mut IndexMap<Vec<u8>, Vec<u8>>,
    key: Vec<u8>,
    value: Vec<u8>,
) -> (previous: Option<Vec<u8>>)
    ensures
        match previous {
            Some(displaced) => exists|i: int|
                0 <= i < map_entries(*old(map)).len()
                    && #[trigger] map_entries(*old(map))[i] == (key@, displaced@)
                    && map_entries(*final(map)) == map_entries(*old(map)).update(
                    i,
                    (key@, value@),
                ),
            None => {
                &&& forall|i: int|
                    0 <= i < map_entries(*old(map)).len() ==> (#[trigger] map_entries(
                        *old(map),
                    )[i]).0 != key@
                &&& map_entries(*final(map)) == map_entries(*old(map)).push((key@, value@))
            },
        },
{
    map.insert(key, value)
}

/// `IndexMap::get_index`: the pair at `index` in the map's order, where
/// there is one.
#[verifier::external_body]
pub(crate) fn map_get_index(map: &IndexMap<Vec<u8>, Vec<u8>>, index: usize) -> (pair: Option<
    (&Vec<u8>, &Vec<u8>),
>)
    ensures
        match pair {
            Some((key, value)) => index < map_entries(*map).len() && map_entries(
                *map,
            )[index as int] == (key@, value@),
            None => index >= map_entries(*map).len(),
        },
{
    map.get_index(index)
}

} // verus!
