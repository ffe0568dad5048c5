//! The arena that mints file identities: a slot map of the `slotmap` crate,
//! whose keys are generation-checked, so that a freed slot reused later
//! never answers to an old key. Keys leave this module as their 64-bit
//! form (`KeyData::as_ffi`).

use slotmap::{DefaultKey, Key, KeyData, SlotMap};
use vstd::prelude::*;

verus! {

/// A slot map that holds nothing but its keys. Verus does not take the
/// declaration of `SlotMap` itself (its key parameter is bound by the
/// crate's `Key` trait), so the map sits in a field hidden from Verus.
#[verifier::external_body]
pub struct KeyArena {
    slots: SlotMap<DefaultKey, ()>,
}

/// The live keys of an arena, in their 64-bit form.
pub uninterp spec fn arena_keys(m: KeyArena) -> Set<u64>;

/// Every key that the arena has handed out, live or freed, in 64-bit form.
pub uninterp spec fn arena_issued(m: KeyArena) -> Set<u64>;

/// How many keys the arena has handed out.
pub uninterp spec fn arena_insert_count(m: KeyArena) -> nat;

/// How many keys an arena hands out before a key may come back: a slot's
/// version grows by two with each reuse, so the first `2^31` occupancies
/// of any slot carry distinct versions.
pub open spec fn arena_insert_limit() -> nat {
    0x8000_0000
}

/// Relies on `SlotMap::with_key`: a new slot map holds no key and has
/// handed out none.
#[verifier::external_body]
pub(crate) fn arena_new() -> (r: KeyArena)
    ensures
        arena_keys(r) == Set::<u64>::empty(),
        arena_issued(r) == Set::<u64>::empty(),
        arena_insert_count(r) == 0,
{
    KeyArena { slots: SlotMap::with_key() }
}

/// Relies on `SlotMap::insert`: the key it returns lives in a slot that was
/// vacant, so it is none of the live keys before the call and is live
/// after it; the other keys stay. Slot 0 is a sentinel that never holds a
/// key, so the map panics once `u32::MAX - 1` keys are live; the bound on
/// the live keys rules that out. A new slot starts at version 1 and each
/// free and reuse adds two, so while fewer than `2^31` keys were handed out
/// in all, no slot has come back to an earlier version and the key was
/// never handed out before.
#[verifier::external_body]
pub(crate) fn arena_insert(m: &mut KeyArena) -> (k: u64)
    requires
        arena_keys(*old(m)).finite(),
        arena_keys(*old(m)).len() < u32::MAX - 1,
        arena_insert_count(*old(m)) < arena_insert_limit(),
    ensures
        !arena_keys(*old(m)).contains(k),
        !arena_issued(*old(m)).contains(k),
        arena_keys(*final(m)) == arena_keys(*old(m)).insert(k),
        arena_issued(*final(m)) == arena_issued(*old(m)).insert(k),
        arena_insert_count(*final(m)) == arena_insert_count(*old(m)) + 1,
{
    m.slots.insert(()).data().as_ffi()
}

/// Relies on `SlotMap::remove` and `KeyData::from_ffi`: the 64-bit form of a
/// live key gives back that key, which the call frees; the other keys stay.
#[verifier::external_body]
pub(crate) fn arena_remove(m: &mut KeyArena, k: u64)
    requires
        arena_keys(*old(m)).contains(k),
    ensures
        arena_keys(*final(m)) == arena_keys(*old(m)).remove(k),
        arena_issued(*final(m)) == arena_issued(*old(m)),
        arena_insert_count(*final(m)) == arena_insert_count(*old(m)),
{
    m.slots.remove(DefaultKey::from(KeyData::from_ffi(k)));
}

/// Relies on `SlotMap::keys`: it visits each live key once.
#[verifier::external_body]
pub(crate) fn arena_key_list(m: &KeyArena) -> (r: Vec<u64>)
    ensures
        r@.to_set() == arena_keys(*m),
        r@.no_duplicates(),
{
    m.slots.keys().map(|k| k.data().as_ffi()).collect()
}

} // verus!
