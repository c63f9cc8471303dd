//! The state that the tick loop owns: the registry, the player and whether the
//! pointer is captured.
use slotmap::DefaultKey;
use uuid::Uuid;
use vstd::prelude::*;

use crate::registry::{BodyHandle, GameObject, GameObjectType, Registry};

verus! {

/// The kind of input a tick's event carries, as far as behaviour cares.
#[derive(Clone, Copy, Debug, PartialEq, Eq, Structural)]
pub enum InputEvent {
    /// The pointer moved by some delta.
    PointerDelta,
    /// A frame is being rendered.
    Render,
    /// Anything else.
    Other,
}

/// What an object of some kind does about an event.
#[derive(Clone, Copy, Debug, PartialEq, Eq, Structural)]
pub enum Reaction {
    Idle,
    /// Push along the pointer's delta, clamped.
    Thrust,
    /// Push towards the player.
    Pursue,
}

/// A force to apply to a body this tick.
#[derive(Clone, Copy, Debug, PartialEq, Eq, Structural)]
pub enum ForceOrder {
    /// Push `body` along the pointer's delta.
    Thrust { body: BodyHandle },
    /// Push `body` towards `target`.
    Pursue { body: BodyHandle, target: BodyHandle },
}

/// What an object of kind `kind` does about `event`.
pub open spec fn reaction(kind: GameObjectType, event: InputEvent, cursor_captured: bool) -> Reaction {
    match kind {
        GameObjectType::Default => Reaction::Idle,
        GameObjectType::Player => if cursor_captured && event == InputEvent::PointerDelta {
            Reaction::Thrust
        } else {
            Reaction::Idle
        },
        GameObjectType::Chaser => if event == InputEvent::Render {
            Reaction::Pursue
        } else {
            Reaction::Idle
        },
    }
}

/// The force for an object, given the player's body if there is one; none
/// when it idles, or when it would pursue a player that is gone.
pub open spec fn force_for(o: GameObject, event: InputEvent, cursor_captured: bool, target: Option<BodyHandle>) -> Option<ForceOrder> {
    match reaction(o.obj_type, event, cursor_captured) {
        Reaction::Idle => None,
        Reaction::Thrust => Some(ForceOrder::Thrust { body: o.physics_handle }),
        Reaction::Pursue => match target {
            Some(t) => Some(ForceOrder::Pursue { body: o.physics_handle, target: t }),
            None => None,
        },
    }
}

impl GameObjectType {
    /// What an object of this kind does about an event: the player thrusts on
    /// each pointer move while the pointer is captured; a chaser pursues once per
    /// rendered frame; anything else idles.
    pub fn update(&self, event: InputEvent, cursor_captured: bool) -> (r: Reaction)
        ensures
            r == reaction(*self, event, cursor_captured),
    {
        match self {
            GameObjectType::Default => Reaction::Idle,
            GameObjectType::Player => if cursor_captured && event == InputEvent::PointerDelta {
                Reaction::Thrust
            } else {
                Reaction::Idle
            },
            GameObjectType::Chaser => if event == InputEvent::Render {
                Reaction::Pursue
            } else {
                Reaction::Idle
            },
        }
    }
}

/// The state the tick loop owns: the registry, the player's key and whether
/// the pointer is captured.
pub struct Game {
    pub objects: Registry,
    pub player: DefaultKey,
    pub cursor_captured: bool,
}

impl Game {
    /// The forces of one tick: for each live game object that acts on the
    /// event, its key and its force, each key once. Chasers pursue the player's
    /// body; with no player they idle.
    pub fn dispatch(&self, event: InputEvent) -> (r: Vec<(DefaultKey, ForceOrder)>)
        ensures
            r@.map_values(|p: (DefaultKey, ForceOrder)| p.0).no_duplicates(),
            forall|i: int| 0 <= i < r@.len() ==> {
                &&& Some((#[trigger] r@[i]).1) == force_for(self.objects.object_at(r@[i].0).unwrap(), event, self.cursor_captured, self.player_body())
                &&& self.objects.object_at(r@[i].0) is Some
            },
            forall|k: DefaultKey| #![trigger self.objects.object_at(k)]
                (self.objects.object_at(k) is Some
                    && force_for(self.objects.object_at(k).unwrap(), event, self.cursor_captured, self.player_body()) is Some)
                ==> r@.map_values(|p: (DefaultKey, ForceOrder)| p.0).contains(k),
    {
        let target = self.handle(self.player);
        let keys = self.objects.object_keys();
        let mut r: Vec<(DefaultKey, ForceOrder)> = Vec::new();
        let mut i: usize = 0;
        while i < keys.len()
            invariant
                0 <= i <= keys.len(),
                target == self.player_body(),
                keys@.no_duplicates(),
                forall|k: DefaultKey| keys@.contains(k) <==> self.objects.object_at(k) is Some,
                r@.map_values(|p: (DefaultKey, ForceOrder)| p.0).no_duplicates(),
                forall|j: int| 0 <= j < r@.len() ==> {
                    &&& Some((#[trigger] r@[j]).1) == force_for(self.objects.object_at(r@[j].0).unwrap(), event, self.cursor_captured, target)
                    &&& self.objects.object_at(r@[j].0) is Some
                    &&& keys@.subrange(0, i as int).contains(r@[j].0)
                },
                forall|k: DefaultKey| #![trigger self.objects.object_at(k)]
                    (keys@.subrange(0, i as int).contains(k) && self.objects.object_at(k) is Some
                        && force_for(self.objects.object_at(k).unwrap(), event, self.cursor_captured, target) is Some)
                    ==> r@.map_values(|p: (DefaultKey, ForceOrder)| p.0).contains(k),
            decreases keys.len() - i,
        {
            let k = keys[i];
            proof {
                crate::seq_lemmas::lemma_prefix_step(keys@, i as int);
            }
            let ghost r0 = r@;
            let ghost ks0 = r0.map_values(|p: (DefaultKey, ForceOrder)| p.0);
            match self.objects.get(k) {
                Some(o) => {
                    let order = match o.obj_type.update(event, self.cursor_captured) {
                        Reaction::Idle => None,
                        Reaction::Thrust => Some(ForceOrder::Thrust { body: o.physics_handle }),
                        Reaction::Pursue => match target {
                            Some(t) => Some(ForceOrder::Pursue { body: o.physics_handle, target: t }),
                            None => None,
                        },
                    };
                    if let Some(f) = order {
                        proof {
                            assert(!ks0.contains(k)) by {
                                if ks0.contains(k) {
                                    let j = choose|j: int| 0 <= j < ks0.len() && ks0[j] == k;
                                    assert(r0[j].0 == k);
                                    assert(keys@.subrange(0, i as int).contains(r0[j].0));
                                }
                            }
                            crate::seq_lemmas::lemma_push_no_duplicates(ks0, k);
                        }
                        r.push((k, f));
                        proof {
                            assert(r@.map_values(|p: (DefaultKey, ForceOrder)| p.0) =~= ks0.push(k));
                        }
                    }
                },
                None => {},
            }
            proof {
                let ks = r@.map_values(|p: (DefaultKey, ForceOrder)| p.0);
                assert forall|j: int| 0 <= j < r@.len() implies keys@.subrange(0, i + 1).contains(#[trigger] r@[j].0) by {
                    crate::seq_lemmas::lemma_push_contains(keys@.subrange(0, i as int), k, r@[j].0);
                    if j < r0.len() {
                        assert(r@[j] == r0[j]);
                    }
                }
                assert forall|q: DefaultKey| #![trigger self.objects.object_at(q)]
                    (keys@.subrange(0, i + 1).contains(q) && self.objects.object_at(q) is Some
                        && force_for(self.objects.object_at(q).unwrap(), event, self.cursor_captured, target) is Some)
                    implies ks.contains(q) by {
                    crate::seq_lemmas::lemma_push_contains(keys@.subrange(0, i as int), k, q);
                    if q == k {
                        assert(ks[ks.len() - 1] == k);
                    } else {
                        assert(ks0.contains(q));
                        let j = choose|j: int| 0 <= j < ks0.len() && ks0[j] == q;
                        assert(ks[j] == q);
                    }
                }
            }
            i = i + 1;
        }
        proof {
            assert(keys@.subrange(0, keys@.len() as int) =~= keys@);
        }
        r
    }

    /// A button press frees a captured pointer, or captures a free one; returns
    /// whether the pointer is now captured.
    pub fn toggle_capture(&mut self) -> (captured: bool)
        ensures
            captured == !old(self).cursor_captured,
            final(self).cursor_captured == captured,
            final(self).objects == old(self).objects,
            final(self).player == old(self).player,
    {
        self.cursor_captured = !self.cursor_captured;
        self.cursor_captured
    }

    /// The player's body, if the player is still there.
    pub open spec fn player_body(&self) -> Option<BodyHandle> {
        match self.objects.object_at(self.player) {
            Some(o) => Some(o.physics_handle),
            None => None,
        }
    }

    /// The body of the game object under a key.
    pub fn handle(&self, key: DefaultKey) -> (r: Option<BodyHandle>)
        ensures
            r == (match self.objects.object_at(key) {
                Some(o) => Some(o.physics_handle),
                None => None,
            }),
    {
        self.objects.handle(key)
    }

    /// The sprite of the entry under a key.
    pub fn draw_id(&self, key: DefaultKey) -> (r: Option<Uuid>)
        ensures
            r == (if self.objects.entries().contains_key(key) {
                Some(crate::registry::draw_id_of(self.objects.entries()[key]))
            } else {
                None
            }),
    {
        self.objects.draw_id(key)
    }

    /// The kind of the game object under a key.
    pub fn obj_type(&self, key: DefaultKey) -> (r: Option<GameObjectType>)
        ensures
            r == (match self.objects.object_at(key) {
                Some(o) => Some(o.obj_type),
                None => None,
            }),
    {
        self.objects.obj_type(key)
    }
}

} // verus!
