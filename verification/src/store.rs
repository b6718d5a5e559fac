//! The combatant store: the record a combatant carries, and the trusted
//! bridge to the `hecs` entity store that holds those records.
//!
//! The whole store is modelled as a `Map<u64, Fighter>` from an entity's
//! id bits to its record; every trusted wrapper states its behaviour over
//! that model, and everything above this module is verified against it.

use vstd::prelude::*;

verus! {

/// A combatant's variant resource pool; exactly one variant is active at
/// a time.  Amounts are small unsigned counters.
#[derive(Clone, Copy, PartialEq, Eq, Structural, Debug)]
pub enum Job {
    NoJob,
    Gunslinger { ammo: u8 },
    Netrunner { ram: u8, heat: u8 },
    Technopriest { prayers: u8 },
    Clairvoyant { sun: u8, moon: u8 },
    Nanovampire { battery: u8 },
}

/// Combat-relevant numeric state.  Chances (`crit`, `evade`) are in
/// per-mille: 0 never, 1000 always.
#[derive(Clone, Copy, PartialEq, Eq, Structural, Debug)]
pub struct Stats {
    pub max_health: u32,
    pub attack: u32,
    pub speed: u32,
    pub crit: u32,
    pub evade: u32,
    pub defense: u32,
}

/// One combatant's full record.
///
/// `hostile` models the mutually exclusive `Party`/`Hostile` side pair:
/// `false` is the friendly side.  `initiative` is the accumulated
/// turn-fraction in fixed-point units of `1 / INITIATIVE_SCALE` of a
/// turn; a lower value acts sooner.  `burning` counts stacks, 0 meaning
/// not burning.
#[derive(Clone, Debug)]
pub struct Fighter {
    pub name: String,
    pub level: u8,
    pub xp: u32,
    pub health: u32,
    pub stats: Stats,
    pub job: Job,
    pub initiative: u64,
    pub hostile: bool,
    pub dead: bool,
    pub burning: u8,
    pub frozen: bool,
    pub confused: bool,
    pub blind: bool,
    pub stunned: bool,
}

impl Fighter {
    /// Well-formedness: health never exceeds the maximum, and speed is at
    /// least 1 so a turn always consumes a positive fraction.
    pub open spec fn wf(self) -> bool {
        self.health <= self.stats.max_health && 1 <= self.stats.speed
    }

    /// A combatant that can still act or be targeted.
    pub open spec fn alive(self) -> bool {
        self.health > 0 && !self.dead
    }
}

/// The mathematical contents of a `hecs::World` as used by this library:
/// each live entity's id bits mapped to its `Fighter` record.
pub uninterp spec fn world_fighters(w: hecs::World) -> Map<u64, Fighter>;

#[verifier::external_type_specification]
#[verifier::external_body]
pub struct ExWorld(hecs::World);

/// Relies on `hecs::World::new`: a fresh world holds no entities.
#[verifier::external_body]
pub fn new_world() -> (w: hecs::World)
    ensures
        forall|id: u64| !world_fighters(w).contains_key(id),
{
    hecs::World::new()
}

/// Relies on `hecs::World::spawn`: it allocates an entity handle distinct
/// from every live one and attaches the given components to it.
#[verifier::external_body]
pub fn spawn_fighter(w: &mut hecs::World, f: Fighter) -> (id: u64)
    ensures
        !world_fighters(*old(w)).contains_key(id),
        world_fighters(*final(w)) == world_fighters(*old(w)).insert(id, f),
{
    w.spawn((f,)).to_bits().get()
}

/// Relies on `hecs::World::get` (and `hecs::Entity::from_bits`): it
/// returns the component attached to the entity, or an error when the
/// entity is gone.
#[verifier::external_body]
pub fn get_fighter(w: &hecs::World, id: u64) -> (r: Option<Fighter>)
    ensures
        r == if world_fighters(*w).contains_key(id) {
            Some(world_fighters(*w)[id])
        } else {
            None::<Fighter>
        },
{
    hecs::Entity::from_bits(id).and_then(|e| w.get::<&Fighter>(e).ok().map(|f| (*f).clone()))
}

/// Relies on `hecs::World::satisfies` and `hecs::World::insert_one`:
/// the former tells whether the entity is live and carries the
/// component, the latter replaces that component.
#[verifier::external_body]
pub fn put_fighter(w: &mut hecs::World, id: u64, f: Fighter) -> (ok: bool)
    ensures
        ok == world_fighters(*old(w)).contains_key(id),
        ok ==> world_fighters(*final(w)) == world_fighters(*old(w)).insert(id, f),
        !ok ==> world_fighters(*final(w)) == world_fighters(*old(w)),
{
    match hecs::Entity::from_bits(id) {
        Some(e) => w.satisfies::<&Fighter>(e) && w.insert_one(e, f).is_ok(),
        None => false,
    }
}

/// Relies on `hecs::World::satisfies` and `hecs::World::despawn`: the
/// former tells whether the entity is live and carries the component,
/// the latter destroys the entity and all its components.
#[verifier::external_body]
pub fn despawn_fighter(w: &mut hecs::World, id: u64) -> (ok: bool)
    ensures
        ok == world_fighters(*old(w)).contains_key(id),
        ok ==> world_fighters(*final(w)) == world_fighters(*old(w)).remove(id),
        !ok ==> world_fighters(*final(w)) == world_fighters(*old(w)),
{
    match hecs::Entity::from_bits(id) {
        Some(e) => w.satisfies::<&Fighter>(e) && w.despawn(e).is_ok(),
        None => false,
    }
}

/// Relies on `hecs::World::query`: iterating a query over one component
/// type visits each entity carrying it exactly once.
#[verifier::external_body]
pub fn world_ids(w: &hecs::World) -> (ids: Vec<u64>)
    ensures
        ids@.no_duplicates(),
        forall|id: u64| #[trigger] ids@.contains(id) <==> world_fighters(*w).contains_key(id),
{
    let mut q = w.query::<(hecs::Entity, &Fighter)>();
    q.iter().map(|(e, _)| e.to_bits().get()).collect()
}

} // verus!
