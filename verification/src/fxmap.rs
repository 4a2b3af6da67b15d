//! Trusted access to `rustc_hash::FxHashMap`, the hash map that the engine keys
//! its nodes, components and block definitions in.
//!
//! `FxHashMap<K, V>` is std's `HashMap` with the hasher builder
//! `BuildHasherDefault<FxHasher>`. Every `FxHasher` starts from the same fixed
//! state and hashes the same written bytes to the same value, so equal keys land
//! in the same bucket and the map behaves as a finite map from keys to values.
//! The functions below state that behaviour for the key types the engine uses
//! (`usize` and `std::any::TypeId`, whose `Eq` and `Hash` are std's own). Where
//! std leaves an order open (walking the keys), only what holds of every order is
//! stated.

use vstd::prelude::*;
use rustc_hash::FxHashMap;
use std::any::TypeId;

verus! {

#[verifier::external_type_specification]
#[verifier::external_body]
pub struct ExFxHasher(rustc_hash::FxHasher);

#[verifier::external_type_specification]
#[verifier::external_body]
#[verifier::reject_recursive_types(H)]
pub struct ExBuildHasherDefault<H>(std::hash::BuildHasherDefault<H>);

#[verifier::external_type_specification]
#[verifier::external_body]
pub struct ExTypeId(std::any::TypeId);

/// `FxHashMap::default`: a new map holds no entries.
#[verifier::external_body]
pub fn fx_new<K, V>() -> (r: FxHashMap<K, V>)
    ensures
        r@.dom() == Set::<K>::empty(),
{
    FxHashMap::default()
}

/// `HashMap::len` on a map with `usize` keys: the number of entries.
#[verifier::external_body]
pub fn fx_len<V>(m: &FxHashMap<usize, V>) -> (r: usize)
    ensures
        r == m@.len(),
{
    m.len()
}

/// `HashMap::contains_key` on a map with `usize` keys.
#[verifier::external_body]
pub fn fx_contains<V>(m: &FxHashMap<usize, V>, k: usize) -> (r: bool)
    ensures
        r == m@.contains_key(k),
{
    m.contains_key(&k)
}

/// `HashMap::get` on a map with `usize` keys: the value stored under the key, if any.
#[verifier::external_body]
pub fn fx_get<V>(m: &FxHashMap<usize, V>, k: usize) -> (r: Option<&V>)
    ensures
        match r {
            Some(v) => m@.contains_key(k) && *v == m@[k],
            None => !m@.contains_key(k),
        },
{
    m.get(&k)
}

/// `HashMap::get_mut` on a map with `usize` keys: a mutable reference to the value
/// stored under the key, if any; what is written through it is what the map holds
/// under the key afterwards.
#[verifier::external_body]
pub fn fx_get_mut<V>(m: &mut FxHashMap<usize, V>, k: usize) -> (r: Option<&mut V>)
    ensures
        match r {
            Some(v) => old(m)@.contains_key(k) && *v == old(m)@[k] && final(m)@ == old(
                m,
            )@.insert(k, *final(v)),
            None => !old(m)@.contains_key(k) && final(m)@ == old(m)@,
        },
{
    m.get_mut(&k)
}

/// `HashMap::insert` on a map with `usize` keys: the key maps to the new value, the
/// other keys keep theirs, and the value it held before, if any, is returned.
#[verifier::external_body]
pub fn fx_insert<V>(m: &mut FxHashMap<usize, V>, k: usize, v: V) -> (r: Option<V>)
    ensures
        final(m)@.dom() == old(m)@.dom().insert(k),
        final(m)@[k] == v,
        forall|j: usize| j != k && #[trigger] old(m)@.contains_key(j) ==> final(m)@[j] == old(m)@[j],
        match r {
            Some(o) => old(m)@.contains_key(k) && o == old(m)@[k],
            None => !old(m)@.contains_key(k),
        },
{
    m.insert(k, v)
}

/// `HashMap::keys` on a map with `usize` keys, collected: every key exactly once, in
/// the order the map walks them, which is left open.
#[verifier::external_body]
pub fn fx_keys<V>(m: &FxHashMap<usize, V>) -> (r: Vec<usize>)
    ensures
        r@.no_duplicates(),
        forall|k: usize| #[trigger] r@.contains(k) <==> m@.contains_key(k),
{
    m.keys().copied().collect()
}

/// `HashMap::get_mut` on a map with `TypeId` keys.
#[verifier::external_body]
pub fn fx_type_get_mut<V>(m: &mut FxHashMap<TypeId, V>, k: TypeId) -> (r: Option<&mut V>)
    ensures
        match r {
            Some(v) => old(m)@.contains_key(k) && *v == old(m)@[k] && final(m)@ == old(m)@.insert(k, *final(v)),
            None => !old(m)@.contains_key(k) && final(m)@ == old(m)@,
        },
{
    m.get_mut(&k)
}

/// `HashMap::insert` on a map with `TypeId` keys: the key maps to the new value,
/// the other keys keep theirs, and the value it held before, if any, is returned.
#[verifier::external_body]
pub fn fx_type_insert<V>(m: &mut FxHashMap<TypeId, V>, k: TypeId, v: V) -> (r: Option<V>)
    ensures
        final(m)@.dom() == old(m)@.dom().insert(k),
        final(m)@[k] == v,
        forall|j: TypeId| j != k && #[trigger] old(m)@.contains_key(j) ==> final(m)@[j] == old(m)@[j],
        match r {
            Some(o) => old(m)@.contains_key(k) && o == old(m)@[k],
            None => !old(m)@.contains_key(k),
        },
{
    m.insert(k, v)
}

/// `HashMap::get` on a map with `TypeId` keys.
#[verifier::external_body]
pub fn fx_type_get<V>(m: &FxHashMap<TypeId, V>, k: TypeId) -> (r: Option<&V>)
    ensures
        match r {
            Some(v) => m@.contains_key(k) && *v == m@[k],
            None => !m@.contains_key(k),
        },
{
    m.get(&k)
}

/// `HashMap::keys` on a map with `TypeId` keys, collected: every key exactly once,
/// in an order left open.
#[verifier::external_body]
pub fn fx_type_keys<V>(m: &FxHashMap<TypeId, V>) -> (r: Vec<TypeId>)
    ensures
        r@.no_duplicates(),
        forall|k: TypeId| #[trigger] r@.contains(k) <==> m@.contains_key(k),
{
    m.keys().copied().collect()
}

} // verus!
