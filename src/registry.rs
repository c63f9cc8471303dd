//! The entity registry: an arena that maps stable keys to game objects and
//! visual effects.
use slotmap::DefaultKey;
use uuid::Uuid;
use vstd::prelude::*;

use crate::arena::{arena_entries, arena_issued, arena_wf, EntityArena, KEY_LIMIT};

verus! {

/// A body of the physics world, named by its slot and that slot's version.
#[derive(Clone, Copy, Debug, PartialEq, Eq, Structural)]
pub struct BodyHandle {
    pub index: usize,
    pub version: usize,
}

/// What a game object does on each tick.
#[derive(Clone, Copy, Debug, PartialEq, Eq, Structural)]
pub enum GameObjectType {
    Default,
    Chaser,
    Player,
}

/// A logical object of the game: its body, its sprite and its kind.
#[derive(Clone, Copy, Debug)]
pub struct GameObject {
    pub physics_handle: BodyHandle,
    pub draw_id: Uuid,
    pub obj_type: GameObjectType,
}

/// A short-lived visual effect: its sprite and the ticks it has left.
#[derive(Clone, Copy, Debug)]
pub struct EffectEntity {
    pub draw_id: Uuid,
    pub countdown: u32,
}

impl GameObject {
    pub fn new(physics_handle: BodyHandle, draw_id: Uuid, obj_type: GameObjectType) -> (r: GameObject)
        ensures
            r == (GameObject { physics_handle, draw_id, obj_type }),
    {
        GameObject { physics_handle, draw_id, obj_type }
    }
}

/// What the registry stores under a key.
#[derive(Clone, Copy, Debug)]
pub enum Entity {
    Object(GameObject),
    Effect(EffectEntity),
}


/// Ticks that a freshly spawned effect stays in the registry.
pub const EFFECT_TICKS: u32 = 60;

/// The game object stored in an entry, if the entry holds one.
pub open spec fn object_of(e: Entity) -> Option<GameObject> {
    match e {
        Entity::Object(o) => Some(o),
        Entity::Effect(_) => None,
    }
}

/// The sprite of an entry, whatever it holds.
pub open spec fn draw_id_of(e: Entity) -> Uuid {
    match e {
        Entity::Object(o) => o.draw_id,
        Entity::Effect(x) => x.draw_id,
    }
}

/// An effect whose countdown ends on the coming tick.
pub open spec fn expires(e: Entity) -> bool {
    e matches Entity::Effect(x) && x.countdown <= 1
}

/// An entry after one tick: an effect has one tick less; an object is unchanged.
pub open spec fn ticked(e: Entity) -> Entity {
    match e {
        Entity::Effect(x) => Entity::Effect(EffectEntity { draw_id: x.draw_id, countdown: (x.countdown - 1) as u32 }),
        Entity::Object(o) => Entity::Object(o),
    }
}

/// The entries after one tick: expiring effects are gone, the other effects
/// count down, objects stay as they are.
pub open spec fn advanced(m: Map<DefaultKey, Entity>) -> Map<DefaultKey, Entity> {
    Map::new(|k: DefaultKey| m.contains_key(k) && !expires(m[k]), |k: DefaultKey| ticked(m[k]))
}

/// The entries after `n` ticks.
pub open spec fn advanced_n(m: Map<DefaultKey, Entity>, n: nat) -> Map<DefaultKey, Entity>
    decreases n,
{
    if n == 0 {
        m
    } else {
        advanced(advanced_n(m, (n - 1) as nat))
    }
}

/// The arena of game objects and effects, keyed by stable keys.
pub struct Registry {
    arena: EntityArena,
    issued_count: usize,
}

impl Registry {
    /// The entries, by key.
    pub closed spec fn entries(&self) -> Map<DefaultKey, Entity> {
        arena_entries(self.arena)
    }

    /// Every key this registry has handed out, live or removed.
    pub closed spec fn issued(&self) -> Set<DefaultKey> {
        arena_issued(self.arena)
    }

    /// The counter of issued keys is exact, and the arena keeps its facts.
    pub closed spec fn wf(&self) -> bool {
        &&& arena_wf(self.arena)
        &&& self.issued_count == arena_issued(self.arena).len()
        &&& self.issued_count <= KEY_LIMIT
    }

    /// What a well-formed registry guarantees: finitely many keys issued, below
    /// the limit, and every live key among them.
    pub proof fn lemma_wf(&self)
        requires
            self.wf(),
        ensures
            self.issued().finite(),
            self.issued().len() <= KEY_LIMIT,
            forall|k: DefaultKey| #[trigger] self.entries().contains_key(k) ==> self.issued().contains(k),
    {
    }

    /// The game object under a key, if the key holds one.
    pub open spec fn object_at(&self, k: DefaultKey) -> Option<GameObject> {
        if self.entries().contains_key(k) {
            object_of(self.entries()[k])
        } else {
            None
        }
    }

    /// `new` holds `k` with `e` under a key that `self` had never handed out.
    pub open spec fn inserted(&self, new: &Registry, k: DefaultKey, e: Entity) -> bool {
        &&& !self.issued().contains(k)
        &&& new.issued() == self.issued().insert(k)
        &&& new.entries() == self.entries().insert(k, e)
    }

    /// No key of `self` that holds no game object comes to hold one in `new`.
    pub open spec fn no_revival(&self, new: &Registry) -> bool {
        &&& self.issued().subset_of(new.issued())
        &&& forall|k: DefaultKey|
            #[trigger] new.object_at(k) is Some ==> self.object_at(k) is Some || !self.issued().contains(k)
    }

    pub fn new() -> (r: Registry)
        ensures
            r.wf(),
            r.entries().is_empty(),
            r.issued().is_empty(),
    {
        Registry { arena: crate::arena::arena_new(), issued_count: 0 }
    }

    /// How many more keys this registry can hand out.
    pub fn keys_left(&self) -> (r: usize)
        requires
            self.wf(),
        ensures
            r == KEY_LIMIT - self.issued().len(),
    {
        KEY_LIMIT - self.issued_count
    }

    fn insert_entity(&mut self, e: Entity) -> (k: DefaultKey)
        requires
            old(self).wf(),
            old(self).issued().len() < KEY_LIMIT,
        ensures
            final(self).wf(),
            old(self).inserted(final(self), k, e),
    {
        let k = crate::arena::arena_insert(&mut self.arena, e);
        self.issued_count = self.issued_count + 1;
        k
    }

    /// Stores a game object under a fresh key.
    pub fn insert(&mut self, object: GameObject) -> (k: DefaultKey)
        requires
            old(self).wf(),
            old(self).issued().len() < KEY_LIMIT,
        ensures
            final(self).wf(),
            old(self).inserted(final(self), k, Entity::Object(object)),
            final(self).object_at(k) == Some(object),
            old(self).no_revival(final(self)),
    {
        self.insert_entity(Entity::Object(object))
    }

    /// The game object under a key; none if the key was never handed out, was
    /// removed, or holds an effect.
    pub fn get(&self, key: DefaultKey) -> (r: Option<GameObject>)
        ensures
            r == self.object_at(key),
    {
        match crate::arena::arena_get(&self.arena, key) {
            Some(Entity::Object(o)) => Some(o),
            _ => None,
        }
    }

    /// Takes the game object under a key out of the registry; the key is never
    /// handed out again. A key that holds no game object is left as it is.
    pub fn remove(&mut self, key: DefaultKey) -> (r: Option<GameObject>)
        requires
            old(self).wf(),
        ensures
            final(self).wf(),
            r == old(self).object_at(key),
            final(self).issued() == old(self).issued(),
            final(self).entries() == (if r is Some {
                old(self).entries().remove(key)
            } else {
                old(self).entries()
            }),
            final(self).object_at(key) is None,
            old(self).no_revival(final(self)),
    {
        match crate::arena::arena_get(&self.arena, key) {
            Some(Entity::Object(_)) => {
                let taken = crate::arena::arena_remove(&mut self.arena, key);
                match taken {
                    Some(Entity::Object(o)) => Some(o),
                    _ => None,
                }
            },
            _ => None,
        }
    }

    /// Stores a new effect with the full countdown under a fresh key.
    pub fn spawn_effect(&mut self, draw_id: Uuid) -> (k: DefaultKey)
        requires
            old(self).wf(),
            old(self).issued().len() < KEY_LIMIT,
        ensures
            final(self).wf(),
            old(self).inserted(final(self), k, Entity::Effect(EffectEntity { draw_id, countdown: EFFECT_TICKS })),
            old(self).no_revival(final(self)),
    {
        self.insert_entity(Entity::Effect(EffectEntity { draw_id, countdown: EFFECT_TICKS }))
    }

    /// The keys of all live game objects, each once, in some order.
    pub fn object_keys(&self) -> (r: Vec<DefaultKey>)
        ensures
            r@.no_duplicates(),
            forall|k: DefaultKey| r@.contains(k) <==> self.object_at(k) is Some,
    {
        let keys = crate::arena::arena_keys(&self.arena);
        let mut r: Vec<DefaultKey> = Vec::new();
        let mut i: usize = 0;
        while i < keys.len()
            invariant
                0 <= i <= keys.len(),
                keys@.no_duplicates(),
                forall|k: DefaultKey| keys@.contains(k) <==> self.entries().contains_key(k),
                r@.no_duplicates(),
                forall|k: DefaultKey|
                    r@.contains(k) <==> (keys@.subrange(0, i as int).contains(k) && self.object_at(k) is Some),
            decreases keys.len() - i,
        {
            let k = keys[i];
            proof {
                crate::seq_lemmas::lemma_prefix_step(keys@, i as int);
            }
            let ghost r0 = r@;
            if let Some(Entity::Object(_)) = crate::arena::arena_get(&self.arena, k) {
                proof {
                    crate::seq_lemmas::lemma_push_no_duplicates(r0, k);
                }
                r.push(k);
            }
            proof {
                assert forall|q: DefaultKey|
                    r@.contains(q) <==> (keys@.subrange(0, i + 1).contains(q) && self.object_at(q) is Some) by {
                    crate::seq_lemmas::lemma_push_contains(r0, k, q);
                    crate::seq_lemmas::lemma_push_contains(keys@.subrange(0, i as int), k, q);
                }
            }
            i = i + 1;
        }
        proof {
            assert(keys@.subrange(0, keys@.len() as int) == keys@);
        }
        r
    }

    /// One tick of the effects: each effect counts down by one, and those whose
    /// countdown ends are taken out together after the pass. Returns the key and
    /// sprite of each effect taken out, for the caller to release the sprite.
    pub fn advance_effects(&mut self) -> (released: Vec<(DefaultKey, Uuid)>)
        requires
            old(self).wf(),
        ensures
            final(self).wf(),
            final(self).issued() == old(self).issued(),
            final(self).entries() == advanced(old(self).entries()),
            old(self).no_revival(final(self)),
            released@.map_values(|p: (DefaultKey, Uuid)| p.0).no_duplicates(),
            forall|i: int| 0 <= i < released@.len() ==> {
                let k = (#[trigger] released@[i]).0;
                &&& old(self).entries().contains_key(k)
                &&& expires(old(self).entries()[k])
                &&& released@[i].1 == draw_id_of(old(self).entries()[k])
            },
            forall|k: DefaultKey| #![trigger old(self).entries()[k]]
                old(self).entries().contains_key(k) && expires(old(self).entries()[k])
                    ==> released@.map_values(|p: (DefaultKey, Uuid)| p.0).contains(k),
    {
        let ghost m0 = self.entries();
        let keys = crate::arena::arena_keys(&self.arena);
        let mut doomed: Vec<(DefaultKey, Uuid)> = Vec::new();
        let mut i: usize = 0;
        while i < keys.len()
            invariant
                0 <= i <= keys.len(),
                keys@.no_duplicates(),
                forall|k: DefaultKey| keys@.contains(k) <==> m0.contains_key(k),
                self.wf(),
                self.issued() == arena_issued(old(self).arena),
                m0 == arena_entries(old(self).arena),
                self.entries().dom() == m0.dom(),
                forall|k: DefaultKey| #![trigger self.entries()[k]]
                    m0.contains_key(k) ==> self.entries()[k] == (
                        if keys@.subrange(0, i as int).contains(k) && !expires(m0[k]) {
                            ticked(m0[k])
                        } else {
                            m0[k]
                        }),
                doomed@.map_values(|p: (DefaultKey, Uuid)| p.0).no_duplicates(),
                forall|j: int| 0 <= j < doomed@.len() ==> {
                    let k = (#[trigger] doomed@[j]).0;
                    &&& m0.contains_key(k)
                    &&& expires(m0[k])
                    &&& doomed@[j].1 == draw_id_of(m0[k])
                    &&& keys@.subrange(0, i as int).contains(k)
                },
                forall|k: DefaultKey| #![trigger m0[k]]
                    (m0.contains_key(k) && expires(m0[k]) && keys@.subrange(0, i as int).contains(k))
                        ==> doomed@.map_values(|p: (DefaultKey, Uuid)| p.0).contains(k),
            decreases keys.len() - i,
        {
            let k = keys[i];
            proof {
                crate::seq_lemmas::lemma_prefix_step(keys@, i as int);
            }
            let ghost d0 = doomed@;
            let ghost ks0 = d0.map_values(|p: (DefaultKey, Uuid)| p.0);
            match crate::arena::arena_get(&self.arena, k) {
                Some(Entity::Effect(x)) => {
                    if x.countdown <= 1 {
                        proof {
                            assert(!ks0.contains(k)) by {
                                if ks0.contains(k) {
                                    let j = choose|j: int| 0 <= j < ks0.len() && ks0[j] == k;
                                    assert(d0[j].0 == k);
                                }
                            }
                            crate::seq_lemmas::lemma_push_no_duplicates(ks0, k);
                        }
                        doomed.push((k, x.draw_id));
                        proof {
                            assert(doomed@.map_values(|p: (DefaultKey, Uuid)| p.0) =~= ks0.push(k));
                        }
                    } else {
                        crate::arena::arena_set(
                            &mut self.arena,
                            k,
                            Entity::Effect(EffectEntity { draw_id: x.draw_id, countdown: x.countdown - 1 }),
                        );
                    }
                },
                _ => {},
            }
            proof {
                let ks = doomed@.map_values(|p: (DefaultKey, Uuid)| p.0);
                assert(ks == ks0 || ks == ks0.push(k));
                assert forall|j: int| 0 <= j < doomed@.len() implies keys@.subrange(0, i + 1).contains((#[trigger] doomed@[j]).0) by {
                    crate::seq_lemmas::lemma_push_contains(keys@.subrange(0, i as int), k, doomed@[j].0);
                    if j < d0.len() {
                        assert(doomed@[j] == d0[j]);
                    }
                }
                assert forall|q: DefaultKey| #![trigger m0[q]]
                    (m0.contains_key(q) && expires(m0[q]) && keys@.subrange(0, i + 1).contains(q))
                        implies ks.contains(q) by {
                    crate::seq_lemmas::lemma_push_contains(keys@.subrange(0, i as int), k, q);
                    crate::seq_lemmas::lemma_push_contains(ks0, k, q);
                }
                assert forall|q: DefaultKey| #![trigger self.entries()[q]]
                    m0.contains_key(q) implies self.entries()[q] == (
                        if keys@.subrange(0, i + 1).contains(q) && !expires(m0[q]) {
                            ticked(m0[q])
                        } else {
                            m0[q]
                        }) by {
                    crate::seq_lemmas::lemma_push_contains(keys@.subrange(0, i as int), k, q);
                }
            }
            i = i + 1;
        }
        proof {
            assert(keys@.subrange(0, keys@.len() as int) =~= keys@);
        }
        let ghost mid = self.entries();
        let ghost doomed_keys = doomed@.map_values(|p: (DefaultKey, Uuid)| p.0);
        let mut j: usize = 0;
        while j < doomed.len()
            invariant
                0 <= j <= doomed.len(),
                doomed_keys == doomed@.map_values(|p: (DefaultKey, Uuid)| p.0),
                self.wf(),
                self.issued() == arena_issued(old(self).arena),
                forall|k: DefaultKey| #![trigger self.entries().contains_key(k)]
                    self.entries().contains_key(k) <==> (mid.contains_key(k) && !doomed_keys.subrange(0, j as int).contains(k)),
                forall|k: DefaultKey| #![trigger self.entries()[k]]
                    self.entries().contains_key(k) ==> self.entries()[k] == mid[k],
            decreases doomed.len() - j,
        {
            let k = doomed[j].0;
            proof {
                assert(doomed_keys[j as int] == k);
                assert(doomed_keys.subrange(0, j + 1) =~= doomed_keys.subrange(0, j as int).push(k));
                assert forall|q: DefaultKey|
                    doomed_keys.subrange(0, j + 1).contains(q) <==> (doomed_keys.subrange(0, j as int).contains(q) || q == k) by {
                    crate::seq_lemmas::lemma_push_contains(doomed_keys.subrange(0, j as int), k, q);
                }
            }
            let ghost before = self.entries();
            crate::arena::arena_remove(&mut self.arena, k);
            proof {
                assert forall|q: DefaultKey| (mid.contains_key(q) && !doomed_keys.subrange(0, j + 1).contains(q))
                    implies #[trigger] self.entries().contains_key(q) by {
                    assert(before.contains_key(q));
                }
                assert forall|q: DefaultKey| #[trigger] self.entries().contains_key(q)
                    implies (mid.contains_key(q) && !doomed_keys.subrange(0, j + 1).contains(q)) && self.entries()[q] == mid[q] by {
                    assert(before.contains_key(q));
                    assert(before[q] == mid[q]);
                }
            }
            j = j + 1;
        }
        proof {
            assert(doomed_keys.subrange(0, doomed_keys.len() as int) =~= doomed_keys);
            assert(self.entries() =~= advanced(m0)) by {
                assert forall|k: DefaultKey| #[trigger] self.entries().contains_key(k) <==> advanced(m0).contains_key(k) by {
                    if m0.contains_key(k) && expires(m0[k]) {
                        assert(keys@.contains(k));
                        assert(doomed_keys.contains(k));
                    }
                    if doomed_keys.contains(k) {
                        let jj = choose|jj: int| 0 <= jj < doomed_keys.len() && doomed_keys[jj] == k;
                        assert(doomed@[jj].0 == k);
                    }
                }
            }
            assert forall|q: DefaultKey| #![trigger old(self).entries()[q]]
                old(self).entries().contains_key(q) && expires(old(self).entries()[q])
                    implies doomed_keys.contains(q) by {
                assert(keys@.contains(q));
                assert(m0[q] == old(self).entries()[q]);
            }
        }
        doomed
    }

    /// The body of the game object under a key.
    pub fn handle(&self, key: DefaultKey) -> (r: Option<BodyHandle>)
        ensures
            r == (match self.object_at(key) {
                Some(o) => Some(o.physics_handle),
                None => None,
            }),
    {
        match self.get(key) {
            Some(o) => Some(o.physics_handle),
            None => None,
        }
    }

    /// The sprite of the entry under a key, game object or effect.
    pub fn draw_id(&self, key: DefaultKey) -> (r: Option<Uuid>)
        ensures
            r == (if self.entries().contains_key(key) {
                Some(draw_id_of(self.entries()[key]))
            } else {
                None
            }),
    {
        match crate::arena::arena_get(&self.arena, key) {
            Some(Entity::Object(o)) => Some(o.draw_id),
            Some(Entity::Effect(x)) => Some(x.draw_id),
            None => None,
        }
    }

    /// The kind of the game object under a key.
    pub fn obj_type(&self, key: DefaultKey) -> (r: Option<GameObjectType>)
        ensures
            r == (match self.object_at(key) {
                Some(o) => Some(o.obj_type),
                None => None,
            }),
    {
        match self.get(key) {
            Some(o) => Some(o.obj_type),
            None => None,
        }
    }
}


/// The keys that a run of inserts hands out are pairwise distinct, and at the
/// end of the run each of them still holds the object inserted under it.
pub proof fn lemma_inserts_distinct(states: Seq<Registry>, objects: Seq<GameObject>, keys: Seq<DefaultKey>)
    requires
        states.len() == objects.len() + 1,
        keys.len() == objects.len(),
        forall|i: int| 0 <= i < objects.len() ==>
            #[trigger] states[i].inserted(&states[i + 1], keys[i], Entity::Object(objects[i])),
    ensures
        keys.no_duplicates(),
        forall|i: int| 0 <= i < keys.len() ==> states.last().object_at(#[trigger] keys[i]) == Some(objects[i]),
        forall|i: int| 0 <= i < keys.len() ==> states.last().issued().contains(#[trigger] keys[i]),
    decreases objects.len(),
{
    if objects.len() > 0 {
        let n = objects.len() - 1;
        let s0 = states.drop_last();
        let o0 = objects.drop_last();
        let k0 = keys.drop_last();
        assert forall|i: int| 0 <= i < o0.len() implies
            #[trigger] s0[i].inserted(&s0[i + 1], k0[i], Entity::Object(o0[i])) by {
            assert(states[i].inserted(&states[i + 1], keys[i], Entity::Object(objects[i])));
        }
        lemma_inserts_distinct(s0, o0, k0);
        assert(states[n].inserted(&states[n + 1], keys[n], Entity::Object(objects[n])));
        assert(s0.last() == states[n]);
        assert forall|a: int, b: int| 0 <= a < keys.len() && 0 <= b < keys.len() && a != b
            implies keys[a] != keys[b] by {
            if a < n && b < n {
                assert(k0[a] != k0[b]);
            } else if a == n {
                assert(s0.last().issued().contains(k0[b]));
            } else {
                assert(s0.last().issued().contains(k0[a]));
            }
        }
        assert forall|i: int| 0 <= i < keys.len() implies states.last().object_at(#[trigger] keys[i]) == Some(objects[i]) by {
            if i < n {
                assert(s0.last().object_at(k0[i]) == Some(o0[i]));
                assert(s0.last().issued().contains(k0[i]));
            }
        }
        assert forall|i: int| 0 <= i < keys.len() implies states.last().issued().contains(#[trigger] keys[i]) by {
            if i < n {
                assert(s0.last().issued().contains(k0[i]));
            }
        }
    }
}

/// A key that was handed out and holds no game object (say, just removed)
/// never holds one again, whatever inserts, spawns, removals and ticks follow.
pub proof fn lemma_removed_stays_absent(states: Seq<Registry>, k: DefaultKey)
    requires
        states.len() >= 1,
        states[0].issued().contains(k),
        states[0].object_at(k) is None,
        forall|i: int| 0 <= i < states.len() - 1 ==> #[trigger] states[i].no_revival(&states[i + 1]),
    ensures
        forall|i: int| 0 <= i < states.len() ==>
            (#[trigger] states[i].object_at(k)) is None && states[i].issued().contains(k),
    decreases states.len(),
{
    if states.len() > 1 {
        let s0 = states.drop_last();
        assert forall|i: int| 0 <= i < s0.len() - 1 implies #[trigger] s0[i].no_revival(&s0[i + 1]) by {
            assert(states[i].no_revival(&states[i + 1]));
        }
        lemma_removed_stays_absent(s0, k);
        let n = states.len() - 2;
        assert(states[n].no_revival(&states[n + 1]));
        assert(s0[n].object_at(k) is None && s0[n].issued().contains(k));
        assert forall|i: int| 0 <= i < states.len() implies
            (#[trigger] states[i].object_at(k)) is None && states[i].issued().contains(k) by {
            if i < states.len() - 1 {
                assert(s0[i].object_at(k) is None && s0[i].issued().contains(k));
            }
        }
    }
}

/// The ticks an entry has left, for an effect.
pub open spec fn countdown_of(e: Entity) -> nat {
    match e {
        Entity::Effect(x) => x.countdown as nat,
        Entity::Object(_) => 0,
    }
}

/// An effect whose countdown is `c` stays through the next `c - 1` ticks, one
/// tick less on its countdown after each, and is gone after `c` ticks and
/// every tick after.
pub proof fn lemma_effect_lifetime(m: Map<DefaultKey, Entity>, k: DefaultKey, n: nat)
    requires
        m.contains_key(k),
        m[k] is Effect,
        countdown_of(m[k]) >= 1,
    ensures
        advanced_n(m, n).contains_key(k) <==> n < countdown_of(m[k]),
        n < countdown_of(m[k]) ==> advanced_n(m, n)[k] == Entity::Effect(
            EffectEntity { draw_id: draw_id_of(m[k]), countdown: (countdown_of(m[k]) - n) as u32 },
        ),
    decreases n,
{
    if n > 0 {
        lemma_effect_lifetime(m, k, (n - 1) as nat);
        if n >= countdown_of(m[k]) + 1 {
            assert(!advanced_n(m, (n - 1) as nat).contains_key(k));
        }
    }
}

/// Registry states `i` ticks apart have entries `i` ticks advanced.
proof fn lemma_ticks_compose(states: Seq<Registry>, i: int)
    requires
        0 <= i < states.len(),
        forall|j: int| 0 <= j < states.len() - 1 ==>
            #[trigger] states[j + 1].entries() == advanced(states[j].entries()),
    ensures
        states[i].entries() == advanced_n(states[0].entries(), i as nat),
    decreases i,
{
    if i > 0 {
        lemma_ticks_compose(states, i - 1);
        assert(states[(i - 1) + 1].entries() == advanced(states[i - 1].entries()));
    }
}

/// An effect just spawned stays in the registry through its spawn tick and the
/// next 59 (the first 60 ticks, each of which ends with one call of
/// `advance_effects`) and is gone from the 61st tick on.
pub proof fn lemma_spawned_effect_lifetime(states: Seq<Registry>, k: DefaultKey, d: Uuid)
    requires
        states.len() >= 1,
        states[0].entries().contains_key(k),
        states[0].entries()[k] == Entity::Effect(EffectEntity { draw_id: d, countdown: EFFECT_TICKS }),
        forall|j: int| 0 <= j < states.len() - 1 ==>
            #[trigger] states[j + 1].entries() == advanced(states[j].entries()),
    ensures
        forall|i: int| 0 <= i < states.len() ==>
            ((#[trigger] states[i].entries()).contains_key(k) <==> i < EFFECT_TICKS),
{
    assert forall|i: int| 0 <= i < states.len() implies
        ((#[trigger] states[i].entries()).contains_key(k) <==> i < EFFECT_TICKS) by {
        lemma_ticks_compose(states, i);
        lemma_effect_lifetime(states[0].entries(), k, i as nat);
    }
}

} // verus!
