use swingyships::registry::{BodyHandle, GameObject, GameObjectType, Registry, EFFECT_TICKS};
use uuid::Uuid;

fn sprite(n: u8) -> Uuid {
    Uuid::from_bytes(&[n; 16]).unwrap()
}

fn object(n: usize, kind: GameObjectType) -> GameObject {
    GameObject { physics_handle: BodyHandle { index: n, version: 1 }, draw_id: sprite(n as u8), obj_type: kind }
}

#[test]
fn inserted_keys_are_unique_and_resolve() {
    let mut reg = Registry::new();
    let mut keys = Vec::new();
    for n in 0..20 {
        keys.push(reg.insert(object(n, GameObjectType::Default)));
    }
    for a in 0..keys.len() {
        for b in 0..keys.len() {
            if a != b {
                assert_ne!(keys[a], keys[b]);
            }
        }
        assert_eq!(reg.handle(keys[a]), Some(BodyHandle { index: a, version: 1 }));
        assert_eq!(reg.draw_id(keys[a]), Some(sprite(a as u8)));
    }
}

#[test]
fn removed_key_stays_absent_after_more_inserts() {
    let mut reg = Registry::new();
    let k = reg.insert(object(1, GameObjectType::Chaser));
    let kept = reg.insert(object(2, GameObjectType::Player));
    let removed = reg.remove(k);
    assert_eq!(removed.map(|o| o.physics_handle), Some(BodyHandle { index: 1, version: 1 }));
    assert!(reg.get(k).is_none());
    for n in 3..50 {
        let fresh = reg.insert(object(n, GameObjectType::Default));
        assert_ne!(fresh, k);
        assert!(reg.get(k).is_none());
    }
    assert!(reg.remove(k).is_none());
    assert_eq!(reg.obj_type(kept), Some(GameObjectType::Player));
}

#[test]
fn accessors_report_absence_for_missing_keys() {
    let mut reg = Registry::new();
    let k = reg.insert(object(4, GameObjectType::Chaser));
    assert_eq!(reg.obj_type(k), Some(GameObjectType::Chaser));
    reg.remove(k);
    assert_eq!(reg.handle(k), None);
    assert_eq!(reg.draw_id(k), None);
    assert_eq!(reg.obj_type(k), None);
}

#[test]
fn keys_left_counts_down() {
    let mut reg = Registry::new();
    let start = reg.keys_left();
    assert_eq!(start, 0x8000_0000);
    let k = reg.insert(object(1, GameObjectType::Default));
    reg.remove(k);
    assert_eq!(reg.keys_left(), start - 1);
}

#[test]
fn object_keys_lists_objects_only() {
    let mut reg = Registry::new();
    let a = reg.insert(object(1, GameObjectType::Default));
    let b = reg.insert(object(2, GameObjectType::Chaser));
    let e = reg.spawn_effect(sprite(9));
    let keys = reg.object_keys();
    assert_eq!(keys.len(), 2);
    assert!(keys.contains(&a) && keys.contains(&b));
    assert!(!keys.contains(&e));
    assert!(reg.get(e).is_none());
    assert_eq!(reg.draw_id(e), Some(sprite(9)));
}

#[test]
fn effect_lives_exactly_sixty_ticks() {
    assert_eq!(EFFECT_TICKS, 60);
    let mut reg = Registry::new();
    let player = reg.insert(object(1, GameObjectType::Player));
    let e = reg.spawn_effect(sprite(7));
    for tick in 1..=60 {
        assert_eq!(reg.draw_id(e), Some(sprite(7)), "present during tick {}", tick);
        let released = reg.advance_effects();
        if tick < 60 {
            assert!(released.is_empty());
        } else {
            assert_eq!(released, vec![(e, sprite(7))]);
        }
    }
    for _ in 61..=70 {
        assert_eq!(reg.draw_id(e), None);
        assert!(reg.advance_effects().is_empty());
    }
    assert_eq!(reg.obj_type(player), Some(GameObjectType::Player));
}

#[test]
fn effects_expire_in_spawn_order() {
    let mut reg = Registry::new();
    let first = reg.spawn_effect(sprite(1));
    for _ in 0..30 {
        reg.advance_effects();
    }
    let second = reg.spawn_effect(sprite(2));
    for _ in 0..29 {
        assert!(reg.advance_effects().is_empty());
    }
    assert_eq!(reg.advance_effects(), vec![(first, sprite(1))]);
    assert_eq!(reg.draw_id(first), None);
    assert_eq!(reg.draw_id(second), Some(sprite(2)));
    for _ in 0..29 {
        assert!(reg.advance_effects().is_empty());
    }
    assert_eq!(reg.advance_effects(), vec![(second, sprite(2))]);
}

#[test]
fn game_object_new_keeps_its_fields() {
    let o = GameObject::new(BodyHandle { index: 3, version: 5 }, sprite(3), GameObjectType::Chaser);
    assert_eq!(o.physics_handle, BodyHandle { index: 3, version: 5 });
    assert_eq!(o.draw_id, sprite(3));
    assert_eq!(o.obj_type, GameObjectType::Chaser);
}

#[test]
fn effects_expiring_together_are_each_released_once() {
    let mut reg = Registry::new();
    let a = reg.spawn_effect(sprite(1));
    let b = reg.spawn_effect(sprite(2));
    let kept = reg.insert(object(5, GameObjectType::Default));
    for _ in 0..59 {
        assert!(reg.advance_effects().is_empty());
    }
    let mut released = reg.advance_effects();
    released.sort_by_key(|p| p.1);
    assert_eq!(released, vec![(a, sprite(1)), (b, sprite(2))]);
    assert_eq!(reg.object_keys(), vec![kept]);
    assert_eq!(reg.handle(kept), Some(BodyHandle { index: 5, version: 1 }));
}
