use swingyships::game::{ForceOrder, Game, InputEvent, Reaction};
use swingyships::registry::{BodyHandle, GameObject, GameObjectType, Registry};
use uuid::Uuid;

fn object(n: usize, kind: GameObjectType) -> GameObject {
    GameObject { physics_handle: BodyHandle { index: n, version: 0 }, draw_id: Uuid::nil(), obj_type: kind }
}

#[test]
fn reactions_by_kind() {
    assert_eq!(GameObjectType::Default.update(InputEvent::PointerDelta, true), Reaction::Idle);
    assert_eq!(GameObjectType::Default.update(InputEvent::Render, true), Reaction::Idle);
    assert_eq!(GameObjectType::Player.update(InputEvent::PointerDelta, true), Reaction::Thrust);
    assert_eq!(GameObjectType::Player.update(InputEvent::PointerDelta, false), Reaction::Idle);
    assert_eq!(GameObjectType::Player.update(InputEvent::Render, true), Reaction::Idle);
    assert_eq!(GameObjectType::Chaser.update(InputEvent::Render, false), Reaction::Pursue);
    assert_eq!(GameObjectType::Chaser.update(InputEvent::PointerDelta, true), Reaction::Idle);
    assert_eq!(GameObjectType::Chaser.update(InputEvent::Other, true), Reaction::Idle);
}

fn game() -> (Game, slotmap::DefaultKey) {
    let mut objects = Registry::new();
    let player = objects.insert(object(1, GameObjectType::Player));
    objects.insert(object(2, GameObjectType::Chaser));
    objects.insert(object(3, GameObjectType::Chaser));
    objects.insert(object(4, GameObjectType::Default));
    (Game { objects, player, cursor_captured: true }, player)
}

#[test]
fn chasers_pursue_the_player_on_render() {
    let (g, _) = game();
    let mut orders: Vec<ForceOrder> = g.dispatch(InputEvent::Render).into_iter().map(|p| p.1).collect();
    orders.sort_by_key(|o| match o {
        ForceOrder::Pursue { body, .. } => body.index,
        ForceOrder::Thrust { body } => body.index,
    });
    let player = BodyHandle { index: 1, version: 0 };
    assert_eq!(
        orders,
        vec![
            ForceOrder::Pursue { body: BodyHandle { index: 2, version: 0 }, target: player },
            ForceOrder::Pursue { body: BodyHandle { index: 3, version: 0 }, target: player },
        ]
    );
}

#[test]
fn player_thrusts_on_pointer_move_only_when_captured() {
    let (mut g, player) = game();
    let orders = g.dispatch(InputEvent::PointerDelta);
    assert_eq!(orders.len(), 1);
    assert_eq!(orders[0].0, player);
    assert_eq!(orders[0].1, ForceOrder::Thrust { body: BodyHandle { index: 1, version: 0 } });
    g.cursor_captured = false;
    assert!(g.dispatch(InputEvent::PointerDelta).is_empty());
    assert!(g.dispatch(InputEvent::Other).is_empty());
}

#[test]
fn chasers_idle_without_a_player() {
    let (mut g, player) = game();
    g.objects.remove(player);
    assert!(g.dispatch(InputEvent::Render).is_empty());
    assert_eq!(g.handle(player), None);
}

#[test]
fn press_toggles_capture() {
    let (mut g, player) = game();
    assert!(!g.toggle_capture());
    assert!(!g.cursor_captured);
    assert!(g.dispatch(InputEvent::PointerDelta).is_empty());
    assert!(g.toggle_capture());
    assert_eq!(g.dispatch(InputEvent::PointerDelta)[0].0, player);
}
