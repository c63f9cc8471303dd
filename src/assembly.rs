//! Level and weapon assembly: which pieces a level definition builds, which
//! objects each chain joins, and which pieces are skipped because a name in
//! the definition resolves to nothing. A skipped piece takes nothing else with it.
use vstd::prelude::*;

use crate::chain::ChainSpec;

verus! {

/// A collider of a weapon: the name other pieces refer to it by, and the name
/// of its property set.
#[derive(Clone, Debug)]
pub struct ColliderSpec {
    pub name: String,
    pub props: String,
}

/// A weapon class: its colliders and the chains between them.
#[derive(Clone, Debug)]
pub struct WeaponSpec {
    pub name: String,
    pub colliders: Vec<ColliderSpec>,
    pub chains: Vec<ChainSpec>,
}

/// A weapon placed in a level: its class and the object it hangs from.
#[derive(Clone, Debug)]
pub struct WeaponInstance {
    pub class: String,
    pub root: String,
}

/// The names that a level gives: its named chasers, in order, and its weapons.
#[derive(Clone, Debug)]
pub struct LevelSpec {
    pub named_chasers: Vec<String>,
    pub weapons: Vec<WeaponInstance>,
}

/// A name in a definition that resolves to nothing.
#[derive(Clone, Copy, Debug, PartialEq, Eq, Structural)]
pub enum ConfigError {
    /// No weapon class has the instance's class name.
    UnknownWeaponClass,
    /// No object of the level has the instance's root name.
    UnknownRoot,
    /// No property set has the collider's property name.
    UnknownColliderProps,
    /// No object of the weapon has the chain's first name.
    UnknownFirstObject,
    /// No object of the weapon has the chain's second name.
    UnknownSecondObject,
}

/// An object of a weapon: the object it hangs from, or one of its colliders.
#[derive(Clone, Copy, Debug, PartialEq, Eq, Structural)]
pub enum PartRef {
    Root,
    Collider(usize),
}

/// An object of a level that a weapon can hang from.
#[derive(Clone, Copy, Debug, PartialEq, Eq, Structural)]
pub enum RootRef {
    Player,
    NamedChaser(usize),
}

/// Where a weapon goes: the index of its class and the object it hangs from.
#[derive(Clone, Copy, Debug, PartialEq, Eq, Structural)]
pub struct WeaponPlacement {
    pub class: usize,
    pub root: RootRef,
}

/// What to build of a weapon: for each collider, in order, whether it is built;
/// for each chain, the two objects it joins or why it is skipped.
pub struct WeaponPlan {
    pub colliders: Vec<Result<(), ConfigError>>,
    pub chains: Vec<Result<(PartRef, PartRef), ConfigError>>,
}

/// What to build of a level: for each weapon instance, in order, where it goes
/// or why it is skipped. Every chaser is always built.
pub struct LevelPlan {
    pub weapons: Vec<Result<WeaponPlacement, ConfigError>>,
}

/// Some property set has this name.
pub open spec fn props_known(props: Seq<String>, name: Seq<char>) -> bool {
    exists|i: int| 0 <= i < props.len() && (#[trigger] props[i])@ == name
}

/// Whether a collider is built, or why not.
pub open spec fn collider_outcome(props: Seq<String>, c: ColliderSpec) -> Result<(), ConfigError> {
    if props_known(props, c.props@) {
        Ok(())
    } else {
        Err(ConfigError::UnknownColliderProps)
    }
}

/// The object of a weapon that a name refers to: the last built collider of
/// that name, else the object the weapon hangs from if the name is "root".
pub open spec fn part_lookup(colliders: Seq<ColliderSpec>, props: Seq<String>, name: Seq<char>) -> Option<PartRef>
    decreases colliders.len(),
{
    if colliders.len() == 0 {
        if name == "root"@ {
            Some(PartRef::Root)
        } else {
            None
        }
    } else {
        let i = colliders.len() - 1;
        if props_known(props, colliders[i].props@) && colliders[i].name@ == name {
            Some(PartRef::Collider(i as usize))
        } else {
            part_lookup(colliders.drop_last(), props, name)
        }
    }
}

/// The two objects a chain joins, or the first of its names that resolves to nothing.
pub open spec fn chain_outcome(colliders: Seq<ColliderSpec>, props: Seq<String>, c: ChainSpec) -> Result<(PartRef, PartRef), ConfigError> {
    match part_lookup(colliders, props, c.object1@) {
        None => Err(ConfigError::UnknownFirstObject),
        Some(a) => match part_lookup(colliders, props, c.object2@) {
            None => Err(ConfigError::UnknownSecondObject),
            Some(b) => Ok((a, b)),
        },
    }
}

/// The object of a level that a name refers to: the last named chaser of that
/// name, else the player if the name is "player".
pub open spec fn root_lookup(named: Seq<String>, name: Seq<char>) -> Option<RootRef>
    decreases named.len(),
{
    if named.len() == 0 {
        if name == "player"@ {
            Some(RootRef::Player)
        } else {
            None
        }
    } else if named.last()@ == name {
        Some(RootRef::NamedChaser((named.len() - 1) as usize))
    } else {
        root_lookup(named.drop_last(), name)
    }
}

/// The index of the last weapon class with a name.
pub open spec fn class_lookup(classes: Seq<WeaponSpec>, name: Seq<char>) -> Option<usize>
    decreases classes.len(),
{
    if classes.len() == 0 {
        None
    } else if classes.last().name@ == name {
        Some((classes.len() - 1) as usize)
    } else {
        class_lookup(classes.drop_last(), name)
    }
}

/// Where a weapon instance goes, or the first of its names that resolves to nothing.
pub open spec fn placement_outcome(named: Seq<String>, classes: Seq<WeaponSpec>, w: WeaponInstance) -> Result<WeaponPlacement, ConfigError> {
    match class_lookup(classes, w.class@) {
        None => Err(ConfigError::UnknownWeaponClass),
        Some(c) => match root_lookup(named, w.root@) {
            None => Err(ConfigError::UnknownRoot),
            Some(r) => Ok(WeaponPlacement { class: c, root: r }),
        },
    }
}

/// Whether some property set has this name.
fn find_props(props: &Vec<String>, name: &String) -> (r: bool)
    ensures
        r == props_known(props@, name@),
{
    let mut i: usize = 0;
    while i < props.len()
        invariant
            0 <= i <= props.len(),
            forall|j: int| 0 <= j < i ==> (#[trigger] props@[j])@ != name@,
        decreases props.len() - i,
    {
        if props[i] == *name {
            return true;
        }
        i = i + 1;
    }
    false
}

/// The object of a weapon that a name refers to.
fn find_part(colliders: &Vec<ColliderSpec>, props: &Vec<String>, name: &String) -> (r: Option<PartRef>)
    ensures
        r == part_lookup(colliders@, props@, name@),
{
    let mut i: usize = colliders.len();
    proof {
        assert(colliders@.subrange(0, colliders@.len() as int) =~= colliders@);
    }
    while i > 0
        invariant
            0 <= i <= colliders.len(),
            part_lookup(colliders@, props@, name@) == part_lookup(colliders@.subrange(0, i as int), props@, name@),
        decreases i,
    {
        let j = i - 1;
        proof {
            assert(colliders@.subrange(0, i as int).drop_last() =~= colliders@.subrange(0, j as int));
        }
        if colliders[j].name == *name && find_props(props, &colliders[j].props) {
            return Some(PartRef::Collider(j));
        }
        i = j;
    }
    let root = "root".to_owned();
    if *name == root {
        Some(PartRef::Root)
    } else {
        None
    }
}

/// The object of a level that a name refers to.
fn find_root(named: &Vec<String>, name: &String) -> (r: Option<RootRef>)
    ensures
        r == root_lookup(named@, name@),
{
    let mut i: usize = named.len();
    proof {
        assert(named@.subrange(0, named@.len() as int) =~= named@);
    }
    while i > 0
        invariant
            0 <= i <= named.len(),
            root_lookup(named@, name@) == root_lookup(named@.subrange(0, i as int), name@),
        decreases i,
    {
        let j = i - 1;
        proof {
            assert(named@.subrange(0, i as int).drop_last() =~= named@.subrange(0, j as int));
        }
        if named[j] == *name {
            return Some(RootRef::NamedChaser(j));
        }
        i = j;
    }
    let player = "player".to_owned();
    if *name == player {
        Some(RootRef::Player)
    } else {
        None
    }
}

/// The index of the last weapon class with a name.
fn find_class(classes: &Vec<WeaponSpec>, name: &String) -> (r: Option<usize>)
    ensures
        r == class_lookup(classes@, name@),
{
    let mut i: usize = classes.len();
    proof {
        assert(classes@.subrange(0, classes@.len() as int) =~= classes@);
    }
    while i > 0
        invariant
            0 <= i <= classes.len(),
            class_lookup(classes@, name@) == class_lookup(classes@.subrange(0, i as int), name@),
        decreases i,
    {
        let j = i - 1;
        proof {
            assert(classes@.subrange(0, i as int).drop_last() =~= classes@.subrange(0, j as int));
        }
        if classes[j].name == *name {
            return Some(j);
        }
        i = j;
    }
    None
}

/// For each collider, in order, whether it is built.
pub open spec fn planned_colliders(props: Seq<String>, colliders: Seq<ColliderSpec>) -> Seq<Result<(), ConfigError>> {
    colliders.map_values(|c: ColliderSpec| collider_outcome(props, c))
}

/// For each chain, in order, the objects it joins or why it is skipped.
pub open spec fn planned_chains(colliders: Seq<ColliderSpec>, props: Seq<String>, chains: Seq<ChainSpec>) -> Seq<Result<(PartRef, PartRef), ConfigError>> {
    chains.map_values(|c: ChainSpec| chain_outcome(colliders, props, c))
}

/// For each weapon instance, in order, where it goes or why it is skipped.
pub open spec fn planned_weapons(named: Seq<String>, classes: Seq<WeaponSpec>, weapons: Seq<WeaponInstance>) -> Seq<Result<WeaponPlacement, ConfigError>> {
    weapons.map_values(|w: WeaponInstance| placement_outcome(named, classes, w))
}

/// Resolves the names of a weapon class against its own colliders and the
/// known property sets. A collider is built when its property set is known;
/// a chain joins the objects its two names refer to, and is skipped when
/// either name refers to nothing.
pub fn plan_weapon(def: &WeaponSpec, props: &Vec<String>) -> (plan: WeaponPlan)
    ensures
        plan.colliders@ == planned_colliders(props@, def.colliders@),
        plan.chains@ == planned_chains(def.colliders@, props@, def.chains@),
{
    let mut colliders: Vec<Result<(), ConfigError>> = Vec::new();
    let mut i: usize = 0;
    while i < def.colliders.len()
        invariant
            0 <= i <= def.colliders.len(),
            colliders@ == planned_colliders(props@, def.colliders@.subrange(0, i as int)),
        decreases def.colliders.len() - i,
    {
        let known = find_props(props, &def.colliders[i].props);
        colliders.push(if known { Ok(()) } else { Err(ConfigError::UnknownColliderProps) });
        proof {
            assert(planned_colliders(props@, def.colliders@.subrange(0, i + 1)) =~= planned_colliders(props@, def.colliders@.subrange(0, i as int)).push(collider_outcome(props@, def.colliders@[i as int])));
        }
        i = i + 1;
    }
    let mut chains: Vec<Result<(PartRef, PartRef), ConfigError>> = Vec::new();
    let mut k: usize = 0;
    while k < def.chains.len()
        invariant
            0 <= k <= def.chains.len(),
            chains@ == planned_chains(def.colliders@, props@, def.chains@.subrange(0, k as int)),
        decreases def.chains.len() - k,
    {
        let c = &def.chains[k];
        let outcome = match find_part(&def.colliders, props, &c.object1) {
            None => Err(ConfigError::UnknownFirstObject),
            Some(a) => match find_part(&def.colliders, props, &c.object2) {
                None => Err(ConfigError::UnknownSecondObject),
                Some(b) => Ok((a, b)),
            },
        };
        chains.push(outcome);
        proof {
            assert(planned_chains(def.colliders@, props@, def.chains@.subrange(0, k + 1)) =~= planned_chains(def.colliders@, props@, def.chains@.subrange(0, k as int)).push(chain_outcome(def.colliders@, props@, def.chains@[k as int])));
        }
        k = k + 1;
    }
    proof {
        assert(def.colliders@.subrange(0, def.colliders@.len() as int) =~= def.colliders@);
        assert(def.chains@.subrange(0, def.chains@.len() as int) =~= def.chains@);
    }
    WeaponPlan { colliders, chains }
}

/// Resolves the names of a level: each weapon instance goes to the last class
/// of its class name and hangs from the object its root name refers to; it is
/// skipped when either name refers to nothing.
pub fn plan_level(level: &LevelSpec, classes: &Vec<WeaponSpec>) -> (plan: LevelPlan)
    ensures
        plan.weapons@ == planned_weapons(level.named_chasers@, classes@, level.weapons@),
{
    let mut weapons: Vec<Result<WeaponPlacement, ConfigError>> = Vec::new();
    let mut i: usize = 0;
    while i < level.weapons.len()
        invariant
            0 <= i <= level.weapons.len(),
            weapons@ == planned_weapons(level.named_chasers@, classes@, level.weapons@.subrange(0, i as int)),
        decreases level.weapons.len() - i,
    {
        let w = &level.weapons[i];
        let outcome = match find_class(classes, &w.class) {
            None => Err(ConfigError::UnknownWeaponClass),
            Some(c) => match find_root(&level.named_chasers, &w.root) {
                None => Err(ConfigError::UnknownRoot),
                Some(r) => Ok(WeaponPlacement { class: c, root: r }),
            },
        };
        weapons.push(outcome);
        proof {
            assert(planned_weapons(level.named_chasers@, classes@, level.weapons@.subrange(0, i + 1)) =~= planned_weapons(level.named_chasers@, classes@, level.weapons@.subrange(0, i as int)).push(placement_outcome(level.named_chasers@, classes@, level.weapons@[i as int])));
        }
        i = i + 1;
    }
    proof {
        assert(level.weapons@.subrange(0, level.weapons@.len() as int) =~= level.weapons@);
    }
    LevelPlan { weapons }
}

/// A chain with an end that names no object is skipped, and it alone: the
/// other chains are planned exactly as they would be without it, and which
/// colliders are built does not depend on the chains at all.
pub proof fn lemma_unresolved_chain_skipped(colliders: Seq<ColliderSpec>, props: Seq<String>, chains: Seq<ChainSpec>, j: int)
    requires
        0 <= j < chains.len(),
        part_lookup(colliders, props, chains[j].object1@) is None
            || part_lookup(colliders, props, chains[j].object2@) is None,
    ensures
        planned_chains(colliders, props, chains)[j] is Err,
        planned_chains(colliders, props, chains.remove(j)) == planned_chains(colliders, props, chains).remove(j),
{
    assert(planned_chains(colliders, props, chains.remove(j)) =~= planned_chains(colliders, props, chains).remove(j));
}

/// A weapon instance whose class or root names nothing is skipped, and it
/// alone: the other instances are placed exactly as they would be without it.
pub proof fn lemma_unresolved_weapon_skipped(named: Seq<String>, classes: Seq<WeaponSpec>, weapons: Seq<WeaponInstance>, j: int)
    requires
        0 <= j < weapons.len(),
        class_lookup(classes, weapons[j].class@) is None || root_lookup(named, weapons[j].root@) is None,
    ensures
        planned_weapons(named, classes, weapons)[j] is Err,
        planned_weapons(named, classes, weapons.remove(j)) == planned_weapons(named, classes, weapons).remove(j),
{
    assert(planned_weapons(named, classes, weapons.remove(j)) =~= planned_weapons(named, classes, weapons).remove(j));
}

} // verus!
