//! The slot map that stores every entity, seen through two names: the entries
//! it holds and the keys it has ever handed out.
use slotmap::{DefaultKey, SlotMap};
use uuid::Uuid;
use vstd::prelude::*;

use crate::registry::Entity;

verus! {

/// A slot map key: a slot index and that slot's version. Carried and
/// compared, never taken apart.
#[verifier::external_type_specification]
#[verifier::external_body]
pub struct ExDefaultKey(DefaultKey);

/// The scene names each sprite by a Uuid; the library only carries it.
#[verifier::external_type_specification]
#[verifier::external_body]
pub struct ExUuid(Uuid);

/// The slot map that holds the registry's entities. Verus sees it only through
/// `arena_entries` and `arena_issued`.
#[verifier::external_body]
pub struct EntityArena {
    slots: SlotMap<DefaultKey, Entity>,
}

/// Upper bound on the number of keys one arena may hand out. Below it no slot
/// is reused often enough for its version counter to wrap, so a key is never
/// handed out twice.
pub const KEY_LIMIT: usize = 0x8000_0000;

/// The entries that a slot map holds, by key.
pub uninterp spec fn arena_entries(m: EntityArena) -> Map<DefaultKey, Entity>;

/// Every key that a slot map has handed out since it was made, live or removed.
pub uninterp spec fn arena_issued(m: EntityArena) -> Set<DefaultKey>;

/// The facts every slot map made and changed through this module keeps.
pub open spec fn arena_wf(m: EntityArena) -> bool {
    &&& arena_issued(m).finite()
    &&& arena_entries(m).dom().subset_of(arena_issued(m))
}

/// Relies on slotmap::SlotMap::new: an empty map that has handed out no key.
#[verifier::external_body]
pub(crate) fn arena_new() -> (m: EntityArena)
    ensures
        arena_entries(m).is_empty(),
        arena_issued(m).is_empty(),
{
    EntityArena { slots: SlotMap::new() }
}

/// Relies on slotmap::SlotMap::insert: the value is stored under a key that the
/// map has never handed out before (its slot's version grows with each use, and
/// with fewer than 2^31 keys issued it cannot wrap); the other entries stay.
/// Below that bound the map is not full, so the call does not panic.
#[verifier::external_body]
pub(crate) fn arena_insert(m: &mut EntityArena, v: Entity) -> (k: DefaultKey)
    requires
        arena_wf(*old(m)),
        arena_issued(*old(m)).len() < KEY_LIMIT,
    ensures
        !arena_issued(*old(m)).contains(k),
        arena_issued(*final(m)) == arena_issued(*old(m)).insert(k),
        arena_entries(*final(m)) == arena_entries(*old(m)).insert(k, v),
{
    m.slots.insert(v)
}

/// Relies on slotmap::SlotMap::get: the entry stored under the key, if any.
#[verifier::external_body]
pub(crate) fn arena_get(m: &EntityArena, k: DefaultKey) -> (r: Option<Entity>)
    ensures
        r == (if arena_entries(*m).contains_key(k) {
            Some(arena_entries(*m)[k])
        } else {
            None
        }),
{
    m.slots.get(k).copied()
}

/// Relies on slotmap::SlotMap::get_mut: the entry under a live key is replaced
/// in place; no key is issued or retired.
#[verifier::external_body]
pub(crate) fn arena_set(m: &mut EntityArena, k: DefaultKey, v: Entity)
    requires
        arena_entries(*old(m)).contains_key(k),
    ensures
        arena_issued(*final(m)) == arena_issued(*old(m)),
        arena_entries(*final(m)) == arena_entries(*old(m)).insert(k, v),
{
    if let Some(slot) = m.slots.get_mut(k) {
        *slot = v;
    }
}

/// Relies on slotmap::SlotMap::remove: the entry under the key is taken out and
/// returned; the key stays among those issued, so it is not handed out again.
#[verifier::external_body]
pub(crate) fn arena_remove(m: &mut EntityArena, k: DefaultKey) -> (r: Option<Entity>)
    ensures
        r == (if arena_entries(*old(m)).contains_key(k) {
            Some(arena_entries(*old(m))[k])
        } else {
            None
        }),
        arena_issued(*final(m)) == arena_issued(*old(m)),
        arena_entries(*final(m)) == arena_entries(*old(m)).remove(k),
{
    m.slots.remove(k)
}

/// Relies on slotmap::SlotMap::keys: each live key once, in some order.
#[verifier::external_body]
pub(crate) fn arena_keys(m: &EntityArena) -> (r: Vec<DefaultKey>)
    ensures
        r@.no_duplicates(),
        forall|k: DefaultKey| r@.contains(k) <==> arena_entries(*m).contains_key(k),
{
    m.slots.keys().collect()
}

} // verus!
