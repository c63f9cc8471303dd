use swingyships::assembly::{plan_level, plan_weapon, ColliderSpec, ConfigError, LevelSpec, PartRef, RootRef, WeaponInstance, WeaponPlacement, WeaponSpec};
use swingyships::chain::ChainSpec;

fn collider(name: &str, props: &str) -> ColliderSpec {
    ColliderSpec { name: name.to_string(), props: props.to_string() }
}

fn chain(a: &str, b: &str) -> ChainSpec {
    ChainSpec { object1: a.to_string(), object2: b.to_string(), length: 4 }
}

fn props() -> Vec<String> {
    vec!["heavy".to_string(), "light".to_string()]
}

fn flail() -> WeaponSpec {
    WeaponSpec {
        name: "flail".to_string(),
        colliders: vec![collider("head", "heavy"), collider("spike", "missing"), collider("tail", "light")],
        chains: vec![chain("root", "head"), chain("head", "nowhere"), chain("spike", "tail"), chain("head", "tail")],
    }
}

#[test]
fn weapon_plan_skips_unknown_props_and_unresolved_chains() {
    let plan = plan_weapon(&flail(), &props());
    assert_eq!(plan.colliders, vec![Ok(()), Err(ConfigError::UnknownColliderProps), Ok(())]);
    assert_eq!(
        plan.chains,
        vec![
            Ok((PartRef::Root, PartRef::Collider(0))),
            Err(ConfigError::UnknownSecondObject),
            Err(ConfigError::UnknownFirstObject),
            Ok((PartRef::Collider(0), PartRef::Collider(2))),
        ]
    );
}

#[test]
fn unresolved_chain_is_skipped_alone() {
    let mut without = flail();
    without.chains.remove(1);
    let full = plan_weapon(&flail(), &props());
    let reduced = plan_weapon(&without, &props());
    let mut expected = full.chains.clone();
    expected.remove(1);
    assert_eq!(reduced.chains, expected);
    assert_eq!(reduced.colliders, full.colliders);
}

#[test]
fn later_collider_of_same_name_wins() {
    let w = WeaponSpec {
        name: "twin".to_string(),
        colliders: vec![collider("ball", "heavy"), collider("ball", "light"), collider("ball", "missing")],
        chains: vec![chain("ball", "root")],
    };
    let plan = plan_weapon(&w, &props());
    assert_eq!(plan.chains, vec![Ok((PartRef::Collider(1), PartRef::Root))]);
}

#[test]
fn collider_named_root_shadows_the_root() {
    let w = WeaponSpec { name: "odd".to_string(), colliders: vec![collider("root", "heavy")], chains: vec![chain("root", "root")] };
    let plan = plan_weapon(&w, &props());
    assert_eq!(plan.chains, vec![Ok((PartRef::Collider(0), PartRef::Collider(0)))]);
}

#[test]
fn weapon_without_props_builds_nothing() {
    let plan = plan_weapon(&flail(), &Vec::new());
    assert!(plan.colliders.iter().all(|c| *c == Err(ConfigError::UnknownColliderProps)));
    assert_eq!(plan.chains[0], Err(ConfigError::UnknownSecondObject));
    assert_eq!(plan.chains[1], Err(ConfigError::UnknownFirstObject));
}

fn instance(class: &str, root: &str) -> WeaponInstance {
    WeaponInstance { class: class.to_string(), root: root.to_string() }
}

#[test]
fn level_plan_resolves_classes_and_roots() {
    let classes = vec![flail(), WeaponSpec { name: "whip".to_string(), colliders: vec![], chains: vec![] }];
    let level = LevelSpec {
        named_chasers: vec!["boss".to_string(), "minion".to_string()],
        weapons: vec![
            instance("flail", "player"),
            instance("whip", "boss"),
            instance("sword", "player"),
            instance("whip", "ghost"),
            instance("flail", "minion"),
        ],
    };
    let plan = plan_level(&level, &classes);
    assert_eq!(
        plan.weapons,
        vec![
            Ok(WeaponPlacement { class: 0, root: RootRef::Player }),
            Ok(WeaponPlacement { class: 1, root: RootRef::NamedChaser(0) }),
            Err(ConfigError::UnknownWeaponClass),
            Err(ConfigError::UnknownRoot),
            Ok(WeaponPlacement { class: 0, root: RootRef::NamedChaser(1) }),
        ]
    );
}

#[test]
fn class_is_checked_before_root() {
    let level = LevelSpec { named_chasers: vec![], weapons: vec![instance("sword", "ghost")] };
    assert_eq!(plan_level(&level, &vec![flail()]).weapons, vec![Err(ConfigError::UnknownWeaponClass)]);
}

#[test]
fn named_chaser_called_player_takes_over_the_name() {
    let level = LevelSpec { named_chasers: vec!["player".to_string()], weapons: vec![instance("flail", "player")] };
    let plan = plan_level(&level, &vec![flail()]);
    assert_eq!(plan.weapons, vec![Ok(WeaponPlacement { class: 0, root: RootRef::NamedChaser(0) })]);
}

#[test]
fn later_class_of_same_name_wins() {
    let level = LevelSpec { named_chasers: vec![], weapons: vec![instance("flail", "player")] };
    let plan = plan_level(&level, &vec![flail(), flail()]);
    assert_eq!(plan.weapons, vec![Ok(WeaponPlacement { class: 1, root: RootRef::Player })]);
}
