//! The map that holds the children of an actor in the order in which they were linked: an
//! [`IndexMap`] from the id of a child to its cell and its spec.
//!
//! The functions here call the map's methods; what they claim of these is not proved.

use crate::actor::{ActorCell, ActorId};
use crate::supervision::ChildSpec;
use indexmap::IndexMap;
use std::hash::RandomState;
use vstd::prelude::*;

verus! {

/// A map that remembers the order in which its keys were inserted.
#[verifier::external_type_specification]
#[verifier::external_body]
#[verifier::reject_recursive_types(K)]
#[verifier::reject_recursive_types(V)]
#[verifier::reject_recursive_types(S)]
pub struct ExIndexMap<K, V, S>(IndexMap<K, V, S>);

/// A map from the id of a child to its cell and its spec.
pub type ChildMap = IndexMap<ActorId, (ActorCell, ChildSpec), RandomState>;

/// The keys and values of the map, in its order.
pub uninterp spec fn child_entries(
    map: IndexMap<ActorId, (ActorCell, ChildSpec), RandomState>,
) -> Seq<(ActorId, (ActorCell, ChildSpec))>;

/// Calls `IndexMap::from_iter` on one pair: the map holds this pair and nothing else.
#[verifier::external_body]
pub(crate) fn map_of(id: ActorId, value: (ActorCell, ChildSpec)) -> (map: ChildMap)
    ensures
        child_entries(map) == seq![(id, value)],
{
    IndexMap::from_iter([(id, value)])
}

/// Calls `IndexMap::insert`: where the key is in the map, its value is replaced, and the key
/// keeps its place in the order; where it is not, the pair goes to the end.
#[verifier::external_body]
pub(crate) fn map_insert(
    map: &mut ChildMap,
    id: ActorId,
    value: (ActorCell, ChildSpec),
) -> (replaced: Option<(ActorCell, ChildSpec)>)
    ensures
        match replaced {
            Some(earlier) => exists|i: int|
                0 <= i < child_entries(*old(map)).len() && #[trigger] child_entries(*old(map))[i]
                    == (id, earlier) && child_entries(*final(map)) == child_entries(
                    *old(map),
                ).update(i, (id, value)),
            None => {
                &&& forall|i: int|
                    0 <= i < child_entries(*old(map)).len() ==> (#[trigger] child_entries(
                        *old(map),
                    )[i]).0 != id
                &&& child_entries(*final(map)) == child_entries(*old(map)).push((id, value))
            },
        },
{
    map.insert(id, value)
}

/// Calls `IndexMap::shift_remove`: where the key is in the map, its pair is taken out, and the
/// pairs that follow it move up without changing their order; where it is not, nothing changes.
#[verifier::external_body]
pub(crate) fn map_shift_remove(
    map: &mut ChildMap,
    id: ActorId,
) -> (removed: Option<(ActorCell, ChildSpec)>)
    ensures
        match removed {
            Some(value) => exists|i: int|
                0 <= i < child_entries(*old(map)).len() && #[trigger] child_entries(*old(map))[i]
                    == (id, value) && child_entries(*final(map)) == child_entries(
                    *old(map),
                ).remove(i),
            None => {
                &&& forall|i: int|
                    0 <= i < child_entries(*old(map)).len() ==> (#[trigger] child_entries(
                        *old(map),
                    )[i]).0 != id
                &&& child_entries(*final(map)) == child_entries(*old(map))
            },
        },
{
    map.shift_remove(&id)
}

/// Calls `IndexMap::get`: the value that the key has in the map, if it is there.
#[verifier::external_body]
pub(crate) fn map_get(map: &ChildMap, id: ActorId) -> (found: Option<&(ActorCell, ChildSpec)>)
    ensures
        match found {
            Some(value) => exists|i: int|
                0 <= i < child_entries(*map).len() && #[trigger] child_entries(*map)[i] == (
                    id,
                    *value,
                ),
            None => forall|i: int|
                0 <= i < child_entries(*map).len() ==> (#[trigger] child_entries(*map)[i]).0 != id,
        },
{
    map.get(&id)
}

/// Calls `IndexMap::values` and copies what it walks over: the values, in the map's order.
#[verifier::external_body]
pub(crate) fn map_values(map: &ChildMap) -> (values: Vec<(ActorCell, ChildSpec)>)
    ensures
        values@.len() == child_entries(*map).len(),
        forall|i: int|
            0 <= i < values@.len() ==> #[trigger] values@[i] == child_entries(*map)[i].1,
{
    map.values().copied().collect()
}

/// Calls `IndexMap::get_index`: the pair at the given place in the map's order, if there is one.
#[verifier::external_body]
pub(crate) fn map_at(map: &ChildMap, index: usize) -> (found: Option<
    (&ActorId, &(ActorCell, ChildSpec)),
>)
    ensures
        match found {
            Some((id, value)) => index < child_entries(*map).len()
                && child_entries(*map)[index as int] == (*id, *value),
            None => index >= child_entries(*map).len(),
        },
{
    map.get_index(index)
}

/// Calls `IndexMap::len`: the number of pairs in the map.
#[verifier::external_body]
pub(crate) fn map_len(map: &ChildMap) -> (len: usize)
    ensures
        len == child_entries(*map).len(),
{
    map.len()
}

} // verus!
