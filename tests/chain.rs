use swingyships::chain::{chain_link_count, make_chain, make_rope_joint, Anchor, ChainLink, ChainSpec, RopeJoint, END_SLACK, LINK_SPAN};
use swingyships::game::Game;
use swingyships::registry::{BodyHandle, GameObject, GameObjectType, Registry};
use uuid::Uuid;

fn body(n: usize) -> BodyHandle {
    BodyHandle { index: n, version: 0 }
}

fn setup() -> (Game, slotmap::DefaultKey, slotmap::DefaultKey) {
    let mut objects = Registry::new();
    let player = objects.insert(GameObject { physics_handle: body(1), draw_id: Uuid::nil(), obj_type: GameObjectType::Player });
    let ball = objects.insert(GameObject { physics_handle: body(2), draw_id: Uuid::nil(), obj_type: GameObjectType::Default });
    (Game { objects, player, cursor_captured: true }, player, ball)
}

fn spec(length: i32) -> ChainSpec {
    ChainSpec { object1: "root".to_string(), object2: "ball".to_string(), length }
}

fn links(n: usize) -> Vec<ChainLink> {
    (0..n).map(|i| ChainLink { physics_handle: body(100 + i), draw_id: Uuid::from_bytes(&[i as u8 + 1; 16]).unwrap() }).collect()
}

fn check_topology(length: i32) {
    let (mut game, k1, k2) = setup();
    let n = chain_link_count(&spec(length));
    assert_eq!(n, length.max(0) as usize);
    let build = make_chain(&mut game, k1, k2, &spec(length), links(n)).unwrap();
    assert_eq!(build.link_keys.len(), n);
    assert_eq!(build.joints.len(), n + 2);
    assert_eq!(game.objects.object_keys().len(), 2 + n);
    let path: Vec<BodyHandle> = std::iter::once(body(1)).chain((0..n).map(|i| body(100 + i))).chain(std::iter::once(body(2))).collect();
    for i in 0..=n {
        let j = build.joints[i];
        assert_eq!(j.body_a, path[i]);
        assert_eq!(j.body_b, path[i + 1]);
        assert_eq!(j.anchor_a, if i == 0 { Anchor::BodyCenter } else { Anchor::LinkCorner });
        assert_eq!(j.anchor_b, if i == n { Anchor::BodyCenter } else { Anchor::LinkCorner });
        assert_eq!(j.max_length, if i == n { END_SLACK } else { LINK_SPAN });
        assert!(!j.collide_connected);
    }
    let failsafe = build.joints[n + 1];
    assert_eq!(failsafe, RopeJoint { body_a: body(1), body_b: body(2), anchor_a: Anchor::EngineDefault, anchor_b: Anchor::EngineDefault, max_length: length as i64 * 100, collide_connected: false });
    for (i, k) in build.link_keys.iter().enumerate() {
        assert_eq!(game.handle(*k), Some(body(100 + i)));
        assert_eq!(game.obj_type(*k), Some(GameObjectType::Default));
    }
}

#[test]
fn chain_of_zero_links() {
    check_topology(0);
}

#[test]
fn chain_of_one_link() {
    check_topology(1);
}

#[test]
fn chain_of_five_links() {
    check_topology(5);
}

#[test]
fn failsafe_length_follows_chain_length() {
    for length in [0, 1, 2, 5, 12] {
        let (mut game, k1, k2) = setup();
        let build = make_chain(&mut game, k1, k2, &spec(length), links(length as usize)).unwrap();
        assert_eq!(build.joints.last().unwrap().max_length, length as i64 * 100);
    }
}

#[test]
fn negative_length_builds_no_links() {
    let (mut game, k1, k2) = setup();
    assert_eq!(chain_link_count(&spec(-3)), 0);
    let build = make_chain(&mut game, k1, k2, &spec(-3), Vec::new()).unwrap();
    assert_eq!(build.joints.len(), 2);
    assert_eq!(build.joints[1].max_length, -300);
}

#[test]
fn chain_to_missing_object_changes_nothing() {
    let (mut game, k1, k2) = setup();
    game.objects.remove(k2);
    assert!(make_chain(&mut game, k1, k2, &spec(3), links(3)).is_none());
    assert_eq!(game.objects.object_keys().len(), 1);
    assert_eq!(game.handle(k1), Some(body(1)));
    assert!(make_chain(&mut game, k2, k1, &spec(3), links(3)).is_none());
    assert_eq!(game.objects.object_keys().len(), 1);
}

#[test]
fn rope_joint_between_live_objects() {
    let (mut game, k1, k2) = setup();
    let j = make_rope_joint(&game, k1, k2, 250).unwrap();
    assert_eq!((j.body_a, j.body_b, j.max_length), (body(1), body(2), 250));
    assert_eq!((j.anchor_a, j.anchor_b), (Anchor::EngineDefault, Anchor::EngineDefault));
    game.objects.remove(k1);
    assert!(make_rope_joint(&game, k1, k2, 250).is_none());
}
