//! The engine's hash set of tiles and hash maps keyed by tiles, as the rules use them.
//!
//! The collections are `bevy::platform::collections::{HashSet, HashMap}` (hashbrown tables
//! with a fixed hasher). Their contents are named by the `*_view` functions below; the
//! wrappers state what each call does to those contents. Iteration order of a hash table
//! is not specified, so the functions that hand out the items state only which items come
//! out, each once.
use bevy::platform::collections::{HashMap, HashSet};
use bevy::platform::hash::FixedHasher;
use vstd::prelude::*;

use crate::utils::core_types::{Direction, FigType};

verus! {

#[verifier::external_type_specification]
#[verifier::external_body]
#[verifier::reject_recursive_types(T)]
#[verifier::reject_recursive_types(S)]
pub struct ExHashSet<T, S>(HashSet<T, S>);

#[verifier::external_type_specification]
#[verifier::external_body]
#[verifier::reject_recursive_types(K)]
#[verifier::reject_recursive_types(V)]
#[verifier::reject_recursive_types(S)]
pub struct ExHashMap<K, V, S>(HashMap<K, V, S>);

#[verifier::external_type_specification]
#[verifier::external_body]
pub struct ExFixedHasher(FixedHasher);

/// The tiles that a set of tiles holds.
pub uninterp spec fn tile_set_view(s: HashSet<(u8, u8)>) -> Set<(u8, u8)>;

/// The entries of a map from tiles to directions.
pub uninterp spec fn guard_map_view(m: HashMap<(u8, u8), Direction>) -> Map<(u8, u8), Direction>;

/// The entries of a map from tiles to a direction and a figure type.
pub uninterp spec fn threat_map_view(m: HashMap<(u8, u8), (Direction, FigType)>) -> Map<
    (u8, u8),
    (Direction, FigType),
>;

/// `HashSet::new`: an empty set.
#[verifier::external_body]
pub(crate) fn tile_set_new() -> (s: HashSet<(u8, u8)>)
    ensures
        tile_set_view(s) == Set::<(u8, u8)>::empty(),
{
    HashSet::new()
}

/// `HashSet::insert`: the set afterwards holds the tile as well; the result tells
/// whether it was absent before.
#[verifier::external_body]
pub(crate) fn tile_set_insert(s: &mut HashSet<(u8, u8)>, t: (u8, u8)) -> (added: bool)
    ensures
        tile_set_view(*final(s)) == tile_set_view(*old(s)).insert(t),
        added == !tile_set_view(*old(s)).contains(t),
{
    s.insert(t)
}

/// `HashSet::contains`: whether the set holds the tile.
#[verifier::external_body]
pub(crate) fn tile_set_contains(s: &HashSet<(u8, u8)>, t: (u8, u8)) -> (b: bool)
    ensures
        b == tile_set_view(*s).contains(t),
{
    s.contains(&t)
}

/// `HashSet::iter`, collected: every tile of the set once, in the table's order.
#[verifier::external_body]
pub(crate) fn tile_set_to_vec(s: &HashSet<(u8, u8)>) -> (v: Vec<(u8, u8)>)
    ensures
        v@.to_set() == tile_set_view(*s),
        v@.no_duplicates(),
{
    s.iter().copied().collect()
}

/// `HashMap::new`: an empty map.
#[verifier::external_body]
pub(crate) fn guard_map_new() -> (m: HashMap<(u8, u8), Direction>)
    ensures
        guard_map_view(m).is_empty(),
{
    HashMap::new()
}

/// `HashMap::insert`: the key is mapped to the value afterwards, other keys are unchanged;
/// the result is the value that the key had before, if any.
#[verifier::external_body]
pub(crate) fn guard_map_insert(m: &mut HashMap<(u8, u8), Direction>, k: (u8, u8), v: Direction) -> (prev: Option<Direction>)
    ensures
        guard_map_view(*final(m)) == guard_map_view(*old(m)).insert(k, v),
        prev == (if guard_map_view(*old(m)).dom().contains(k) {
            Some(guard_map_view(*old(m))[k])
        } else {
            None
        }),
{
    m.insert(k, v)
}

/// `HashMap::get`: the value of the key, if the map holds it.
#[verifier::external_body]
pub(crate) fn guard_map_get(m: &HashMap<(u8, u8), Direction>, k: (u8, u8)) -> (r: Option<
    Direction,
>)
    ensures
        r == (if guard_map_view(*m).dom().contains(k) {
            Some(guard_map_view(*m)[k])
        } else {
            None
        }),
{
    m.get(&k).copied()
}

/// `HashMap::new`: an empty map.
#[verifier::external_body]
pub(crate) fn threat_map_new() -> (m: HashMap<(u8, u8), (Direction, FigType)>)
    ensures
        threat_map_view(m).is_empty(),
{
    HashMap::new()
}

/// `HashMap::insert`: the key is mapped to the value afterwards, other keys are unchanged;
/// the result is the value that the key had before, if any.
#[verifier::external_body]
pub(crate) fn threat_map_insert(
    m: &mut HashMap<(u8, u8), (Direction, FigType)>,
    k: (u8, u8),
    v: (Direction, FigType),
) -> (prev: Option<(Direction, FigType)>)
    ensures
        threat_map_view(*final(m)) == threat_map_view(*old(m)).insert(k, v),
        prev == (if threat_map_view(*old(m)).dom().contains(k) {
            Some(threat_map_view(*old(m))[k])
        } else {
            None
        }),
{
    m.insert(k, v)
}

/// `HashMap::iter`, collected: every entry of the map once, in the table's order.
#[verifier::external_body]
pub(crate) fn threat_map_entries(m: &HashMap<(u8, u8), (Direction, FigType)>) -> (v: Vec<
    ((u8, u8), (Direction, FigType)),
>)
    ensures
        forall|i: int|
            0 <= i < v.len() ==> threat_map_view(*m).dom().contains(#[trigger] v@[i].0)
                && threat_map_view(*m)[v@[i].0] == v@[i].1,
        forall|k: (u8, u8)|
            #[trigger] threat_map_view(*m).dom().contains(k) ==> exists|i: int|
                0 <= i < v.len() && #[trigger] v@[i].0 == k,
        forall|i: int, j: int| 0 <= i < j < v.len() ==> v@[i].0 != v@[j].0,
{
    m.iter().map(|(k, v)| (*k, *v)).collect()
}

} // verus!
