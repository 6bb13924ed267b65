use bevy::platform::collections::HashMap;
use bevy::platform::hash::FixedHasher;
use vstd::prelude::*;

use crate::gameplay_tag_container::GameplayTagContainer;

verus! {

/// bevy_platform's default hasher, named by the map type below.
#[verifier::external_type_specification]
#[verifier::external_body]
pub struct ExFixedHasher(FixedHasher);

/// bevy_platform's hash map, opaque; what a map of this crate holds is named below.
#[verifier::external_type_specification]
#[verifier::external_body]
#[verifier::reject_recursive_types(K)]
#[verifier::reject_recursive_types(V)]
#[verifier::reject_recursive_types(S)]
pub struct ExHashMap<K, V, S>(HashMap<K, V, S>);

/// What a count map holds: each tag path with its count.
pub uninterp spec fn count_entries(m: HashMap<String, i32>) -> Map<Seq<char>, i32>;

/// What a registry map holds: each registered path with its precomputed container.
pub uninterp spec fn container_entries(m: HashMap<String, GameplayTagContainer>) -> Map<Seq<char>, GameplayTagContainer>;

/// Relies on bevy_platform's `HashMap::new`: the map starts empty.
#[verifier::external_body]
pub(crate) fn new_count_map() -> (r: HashMap<String, i32>)
    ensures
        forall|k: Seq<char>| !count_entries(r).contains_key(k),
{
    HashMap::new()
}

/// Relies on bevy_platform's `HashMap::get`: the value stored under the key, if any.
/// A `&str` key hashes and compares as the `String` with the same characters.
#[verifier::external_body]
pub(crate) fn count_get(m: &HashMap<String, i32>, k: &str) -> (r: Option<i32>)
    ensures
        r == (if count_entries(*m).contains_key(k@) {
            Some(count_entries(*m)[k@])
        } else {
            None
        }),
{
    m.get(k).copied()
}

/// Relies on bevy_platform's `HashMap::insert`: the key now maps to the value, others unchanged.
#[verifier::external_body]
pub(crate) fn count_insert(m: &mut HashMap<String, i32>, k: String, v: i32)
    ensures
        count_entries(*final(m)) == count_entries(*old(m)).insert(k@, v),
{
    m.insert(k, v);
}

/// Relies on bevy_platform's `HashMap::clear`: no entry is left.
#[verifier::external_body]
pub(crate) fn count_clear(m: &mut HashMap<String, i32>)
    ensures
        forall|k: Seq<char>| !count_entries(*final(m)).contains_key(k),
{
    m.clear();
}

/// Relies on bevy_platform's `HashMap::new`: the map starts empty.
#[verifier::external_body]
pub(crate) fn new_container_map() -> (r: HashMap<String, GameplayTagContainer>)
    ensures
        forall|k: Seq<char>| !container_entries(r).contains_key(k),
{
    HashMap::new()
}

/// Relies on bevy_platform's `HashMap::get`: the value stored under the key, if any.
#[verifier::external_body]
pub(crate) fn container_get<'a>(
    m: &'a HashMap<String, GameplayTagContainer>,
    k: &str,
) -> (r: Option<&'a GameplayTagContainer>)
    ensures
        r == (if container_entries(*m).contains_key(k@) {
            Some(&container_entries(*m)[k@])
        } else {
            None
        }),
{
    m.get(k)
}

/// Relies on bevy_platform's `HashMap::insert`: the key now maps to the value, others unchanged.
#[verifier::external_body]
pub(crate) fn container_insert(
    m: &mut HashMap<String, GameplayTagContainer>,
    k: String,
    v: GameplayTagContainer,
)
    ensures
        container_entries(*final(m)) == container_entries(*old(m)).insert(k@, v),
{
    m.insert(k, v);
}

} // verus!
