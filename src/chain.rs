//! Chains: a run of small link bodies between two objects, joined by rope
//! joints, with one more rope joint straight between the two ends.
use slotmap::DefaultKey;
use uuid::Uuid;
use vstd::prelude::*;

use crate::arena::KEY_LIMIT;
use crate::game::Game;
use crate::registry::{BodyHandle, Entity, GameObject, GameObjectType};

verus! {

/// Lengths are counted in hundredths of a world unit.
pub const LENGTH_UNIT: i64 = 100;

/// Longest stretch of a joint between two links, or from the first object to
/// the first link: about one link's size.
pub const LINK_SPAN: i64 = 100;

/// Longest stretch of the joint from the last link to the second object.
pub const END_SLACK: i64 = 30;

/// Where a rope joint holds on to a body.
#[derive(Clone, Copy, Debug, PartialEq, Eq, Structural)]
pub enum Anchor {
    /// The engine's own choice for a new rope joint.
    EngineDefault,
    /// The body's centre of mass, so that the body does not snap round.
    BodyCenter,
    /// A corner of a link's box, (0.18, 0.18) in the link's frame.
    LinkCorner,
}

/// A rope joint to be made in the physics world.
#[derive(Clone, Copy, Debug, PartialEq, Eq, Structural)]
pub struct RopeJoint {
    pub body_a: BodyHandle,
    pub body_b: BodyHandle,
    pub anchor_a: Anchor,
    pub anchor_b: Anchor,
    pub max_length: i64,
    pub collide_connected: bool,
}

/// A chain as a weapon declares it: the names of its two ends and its length
/// in links.
#[derive(Clone, Debug)]
pub struct ChainSpec {
    pub object1: String,
    pub object2: String,
    pub length: i32,
}

/// A link body already made in the physics world, with its sprite.
#[derive(Clone, Copy, Debug)]
pub struct ChainLink {
    pub physics_handle: BodyHandle,
    pub draw_id: Uuid,
}

/// What a chain adds: the keys of its links and the joints to make.
pub struct ChainBuild {
    pub link_keys: Vec<DefaultKey>,
    pub joints: Vec<RopeJoint>,
}

/// Links in a chain of the given length; a length below one gives none.
pub open spec fn link_count(length: i32) -> nat {
    if length > 0 {
        length as nat
    } else {
        0
    }
}

/// The game object that stands for a link.
pub open spec fn link_object(l: ChainLink) -> GameObject {
    GameObject { physics_handle: l.physics_handle, draw_id: l.draw_id, obj_type: GameObjectType::Default }
}

/// The `i`-th body along the chain: the first object, the links, the second object.
pub open spec fn chain_node(h1: BodyHandle, links: Seq<ChainLink>, h2: BodyHandle, i: int) -> BodyHandle {
    if i == 0 {
        h1
    } else if i <= links.len() {
        links[i - 1].physics_handle
    } else {
        h2
    }
}

/// The joint from the `i`-th body along the chain to the next.
pub open spec fn path_joint(h1: BodyHandle, links: Seq<ChainLink>, h2: BodyHandle, i: int) -> RopeJoint {
    RopeJoint {
        body_a: chain_node(h1, links, h2, i),
        body_b: chain_node(h1, links, h2, i + 1),
        anchor_a: if i == 0 { Anchor::BodyCenter } else { Anchor::LinkCorner },
        anchor_b: if i == links.len() { Anchor::BodyCenter } else { Anchor::LinkCorner },
        max_length: if i == links.len() { END_SLACK } else { LINK_SPAN },
        collide_connected: false,
    }
}

/// The rope joint straight between two bodies, at most `max_length` long.
pub open spec fn direct_rope(h1: BodyHandle, h2: BodyHandle, max_length: i64) -> RopeJoint {
    RopeJoint {
        body_a: h1,
        body_b: h2,
        anchor_a: Anchor::EngineDefault,
        anchor_b: Anchor::EngineDefault,
        max_length,
        collide_connected: false,
    }
}

/// All joints of a chain: one along the path for each step from body to body,
/// then the failsafe rope between the two ends, as long as the chain.
pub open spec fn chain_joints(h1: BodyHandle, links: Seq<ChainLink>, h2: BodyHandle, length: i32) -> Seq<RopeJoint> {
    Seq::new(
        links.len() + 2,
        |i: int|
            if i <= links.len() {
                path_joint(h1, links, h2, i)
            } else {
                direct_rope(h1, h2, (length * LENGTH_UNIT) as i64)
            },
    )
}

/// How many links a chain needs.
pub fn chain_link_count(def: &ChainSpec) -> (n: usize)
    ensures
        n == link_count(def.length),
{
    if def.length > 0 {
        def.length as usize
    } else {
        0
    }
}

/// A rope joint straight between the objects under two keys; none if either
/// key holds no game object.
pub fn make_rope_joint(game: &Game, key1: DefaultKey, key2: DefaultKey, max_length: i64) -> (r: Option<RopeJoint>)
    ensures
        r == (match (game.objects.object_at(key1), game.objects.object_at(key2)) {
            (Some(a), Some(b)) => Some(direct_rope(a.physics_handle, b.physics_handle, max_length)),
            _ => None,
        }),
{
    let h1 = match game.handle(key1) {
        Some(h) => h,
        None => return None,
    };
    let h2 = match game.handle(key2) {
        Some(h) => h,
        None => return None,
    };
    Some(RopeJoint {
        body_a: h1,
        body_b: h2,
        anchor_a: Anchor::EngineDefault,
        anchor_b: Anchor::EngineDefault,
        max_length,
        collide_connected: false,
    })
}

/// Builds a chain between the objects under `key1` and `key2` from link bodies
/// already made, one for each link the chain needs. None, and nothing changed,
/// if either key holds no game object. Otherwise each link is stored as a game
/// object under a fresh key, and the joints to make are returned in order: from
/// the first object through the links to the second object, then the failsafe
/// rope straight between the two, as long as the chain.
pub fn make_chain(game: &mut Game, key1: DefaultKey, key2: DefaultKey, def: &ChainSpec, links: Vec<ChainLink>) -> (r: Option<ChainBuild>)
    requires
        old(game).objects.wf(),
        links@.len() == link_count(def.length),
        old(game).objects.issued().len() + links@.len() <= KEY_LIMIT,
    ensures
        final(game).objects.wf(),
        final(game).player == old(game).player,
        final(game).cursor_captured == old(game).cursor_captured,
        old(game).objects.no_revival(&final(game).objects),
        r is None <==> (old(game).objects.object_at(key1) is None || old(game).objects.object_at(key2) is None),
        r is None ==> final(game).objects.entries() == old(game).objects.entries()
            && final(game).objects.issued() == old(game).objects.issued(),
        r matches Some(b) ==> {
            let h1 = old(game).objects.object_at(key1).unwrap().physics_handle;
            let h2 = old(game).objects.object_at(key2).unwrap().physics_handle;
            &&& b.joints@ == chain_joints(h1, links@, h2, def.length)
            &&& b.link_keys@.len() == links@.len()
            &&& b.link_keys@.no_duplicates()
            &&& forall|i: int| 0 <= i < links@.len() ==> !old(game).objects.issued().contains(#[trigger] b.link_keys@[i])
            &&& forall|q: DefaultKey| #[trigger] final(game).objects.issued().contains(q)
                <==> (old(game).objects.issued().contains(q) || b.link_keys@.contains(q))
            &&& forall|q: DefaultKey| #[trigger] final(game).objects.entries().contains_key(q)
                <==> (old(game).objects.entries().contains_key(q) || b.link_keys@.contains(q))
            &&& forall|q: DefaultKey| #[trigger] old(game).objects.entries().contains_key(q)
                ==> final(game).objects.entries()[q] == old(game).objects.entries()[q]
            &&& forall|i: int| 0 <= i < links@.len()
                ==> final(game).objects.entries()[#[trigger] b.link_keys@[i]] == Entity::Object(link_object(links@[i]))
        },
{
    let h1 = match game.handle(key1) {
        Some(h) => h,
        None => return None,
    };
    let h2 = match game.handle(key2) {
        Some(h) => h,
        None => return None,
    };
    let ghost g0 = game.objects;
    let n = links.len();
    let mut link_keys: Vec<DefaultKey> = Vec::new();
    let mut i: usize = 0;
    while i < n
        invariant
            0 <= i <= n,
            n == links@.len(),
            game.objects.wf(),
            game.player == old(game).player,
            game.cursor_captured == old(game).cursor_captured,
            g0 == old(game).objects,
            g0.wf(),
            g0.issued().len() + n <= KEY_LIMIT,
            game.objects.issued().len() == g0.issued().len() + i,
            link_keys@.len() == i,
            link_keys@.no_duplicates(),
            forall|j: int| 0 <= j < i ==> !g0.issued().contains(#[trigger] link_keys@[j]),
            forall|q: DefaultKey| #[trigger] game.objects.issued().contains(q)
                <==> (g0.issued().contains(q) || link_keys@.contains(q)),
            forall|q: DefaultKey| #[trigger] game.objects.entries().contains_key(q)
                <==> (g0.entries().contains_key(q) || link_keys@.contains(q)),
            forall|q: DefaultKey| #[trigger] g0.entries().contains_key(q)
                ==> game.objects.entries()[q] == g0.entries()[q],
            forall|j: int| 0 <= j < i
                ==> game.objects.entries()[#[trigger] link_keys@[j]] == Entity::Object(link_object(links@[j])),
        decreases n - i,
    {
        let l = links[i];
        let ghost before = game.objects;
        let ghost keys0 = link_keys@;
        proof {
            before.lemma_wf();
            g0.lemma_wf();
        }
        let k = game.objects.insert(GameObject { physics_handle: l.physics_handle, draw_id: l.draw_id, obj_type: GameObjectType::Default });
        proof {
            assert(!keys0.contains(k)) by {
                if keys0.contains(k) {
                    assert(before.issued().contains(k));
                }
            }
            crate::seq_lemmas::lemma_push_no_duplicates(keys0, k);
        }
        link_keys.push(k);
        proof {
            assert forall|q: DefaultKey| #[trigger] link_keys@.contains(q) <==> (keys0.contains(q) || q == k) by {
                crate::seq_lemmas::lemma_push_contains(keys0, k, q);
            }
            assert(!g0.issued().contains(k)) by {
                if g0.issued().contains(k) {
                    assert(before.issued().contains(k));
                }
            }
            assert forall|q: DefaultKey| #[trigger] g0.entries().contains_key(q)
                implies game.objects.entries()[q] == g0.entries()[q] by {
                assert(before.entries().contains_key(q));
                assert(q != k) by {
                    if q == k {
                        assert(g0.issued().contains(q));
                    }
                }
            }
            assert forall|j: int| 0 <= j < i + 1
                implies game.objects.entries()[#[trigger] link_keys@[j]] == Entity::Object(link_object(links@[j])) by {
                if j < i {
                    assert(link_keys@[j] == keys0[j]);
                    assert(before.entries().contains_key(keys0[j]));
                    assert(keys0[j] != k);
                } else {
                    assert(link_keys@[j] == k);
                }
            }
            assert forall|j: int| 0 <= j < i + 1 implies !g0.issued().contains(#[trigger] link_keys@[j]) by {
                if j < i {
                    assert(link_keys@[j] == keys0[j]);
                }
            }
        }
        i = i + 1;
    }
    let mut joints: Vec<RopeJoint> = Vec::new();
    let mut p: usize = 0;
    while p <= n
        invariant
            0 <= p <= n + 1,
            n == links@.len(),
            n < KEY_LIMIT + 1,
            joints@.len() == p,
            forall|j: int| 0 <= j < p ==> #[trigger] joints@[j] == path_joint(h1, links@, h2, j),
        decreases n + 1 - p,
    {
        let a = if p == 0 { h1 } else { links[p - 1].physics_handle };
        let b = if p == n { h2 } else { links[p].physics_handle };
        let anchor_a = if p == 0 { Anchor::BodyCenter } else { Anchor::LinkCorner };
        let anchor_b = if p == n { Anchor::BodyCenter } else { Anchor::LinkCorner };
        let max_length = if p == n { END_SLACK } else { LINK_SPAN };
        joints.push(RopeJoint { body_a: a, body_b: b, anchor_a, anchor_b, max_length, collide_connected: false });
        p = p + 1;
    }
    let failsafe_length = def.length as i64 * LENGTH_UNIT;
    joints.push(RopeJoint {
        body_a: h1,
        body_b: h2,
        anchor_a: Anchor::EngineDefault,
        anchor_b: Anchor::EngineDefault,
        max_length: failsafe_length,
        collide_connected: false,
    });
    proof {
        assert(joints@ =~= chain_joints(h1, links@, h2, def.length));
        assert forall|q: DefaultKey| #[trigger] game.objects.object_at(q) is Some
            implies g0.object_at(q) is Some || !g0.issued().contains(q) by {
            if g0.entries().contains_key(q) {
                assert(game.objects.entries()[q] == g0.entries()[q]);
            } else {
                assert(link_keys@.contains(q));
                let j = choose|j: int| 0 <= j < link_keys@.len() && link_keys@[j] == q;
                assert(!g0.issued().contains(link_keys@[j]));
            }
        }
    }
    Some(ChainBuild { link_keys, joints })
}

/// A chain of length `N` has `N` links and `N + 2` joints: `N + 1` along the
/// path, from the first object through each link in turn to the second object,
/// then the failsafe rope straight between the two ends.
pub proof fn lemma_chain_shape(h1: BodyHandle, links: Seq<ChainLink>, h2: BodyHandle, length: i32)
    requires
        links.len() == link_count(length),
    ensures
        length >= 0 ==> links.len() == length,
        chain_joints(h1, links, h2, length).len() == links.len() + 2,
        chain_joints(h1, links, h2, length)[0].body_a == h1,
        chain_joints(h1, links, h2, length)[links.len() as int].body_b == h2,
        forall|i: int| 0 < i <= links.len() ==> {
            &&& #[trigger] chain_joints(h1, links, h2, length)[i - 1].body_b == links[i - 1].physics_handle
            &&& chain_joints(h1, links, h2, length)[i].body_a == links[i - 1].physics_handle
        },
        chain_joints(h1, links, h2, length)[links.len() + 1int].body_a == h1,
        chain_joints(h1, links, h2, length)[links.len() + 1int].body_b == h2,
{
}

/// The failsafe rope is exactly as long as the chain, whatever its number of links.
pub proof fn lemma_failsafe_length(h1: BodyHandle, links: Seq<ChainLink>, h2: BodyHandle, length: i32)
    requires
        links.len() == link_count(length),
    ensures
        chain_joints(h1, links, h2, length).last().max_length == length * LENGTH_UNIT,
{
}

} // verus!
