//! The combat lifecycle controller: the game's screens and state
//! machine, start-of-combat setup, per-turn bookkeeping, the death
//! sweep, and the automatic enemy turn.

use vstd::prelude::*;
use crate::store::{Fighter, Stats, Job, world_fighters, world_ids, get_fighter, put_fighter,
    despawn_fighter, new_world, spawn_fighter};
use crate::sched::{NextUp, schedule_wf, entry_of, advanced_entry, spec_initiative_step,
    refresh_schedule, advance_turn};
use crate::skills::{Effect, Skill, basic_attack, potion, cleanse, revive, PrimaryTarget,
    spec_potion_effects, spec_cleanse_effects, spec_revive_effects};
use crate::level::{level_up, spec_leveled, spec_stats_at};
use crate::target::{candidates, clamp_selection, spec_candidate_list, spec_candidates,
    lemma_candidates_are};
use crate::interp::{spec_apply_run, spec_active_cost, spec_pay_cost};
use crate::dice::{lcg_next, seeded_pick};
use crate::log::Log;
use crate::dice::RandomSource;

verus! {

/// Where the game as a whole stands.
#[derive(Clone, Copy, PartialEq, Eq, Structural, Debug)]
pub enum GameState {
    Menu,
    Overworld,
    Combat,
}

/// Which screen of the combat interface is in front.
#[derive(Clone, Copy, PartialEq, Eq, Structural, Debug)]
pub enum CurrentScreen {
    Main,
    Skill,
    Target,
    Item,
    Enemy,
    Exiting,
}

/// Who opens combat on the back foot.
#[derive(Clone, Copy, PartialEq, Eq, Structural, Debug)]
pub enum Advantage {
    Friendly,
    Enemy,
    Neutral,
}

/// An intent, as mapped from a key press by the surrounding program.
#[derive(Clone, Copy, PartialEq, Eq, Structural, Debug)]
pub enum Message {
    Up,
    Down,
    Left,
    Right,
    Prev,
    Next,
    Select,
    Cancel,
    Quit,
    Think,
}

/// One row of the action menu.
pub struct ActionListItem {
    pub text: &'static str,
    pub action: CurrentScreen,
}

/// The closed set of skills a consumable can cast.
#[derive(Clone, Copy, PartialEq, Eq, Structural, Debug)]
pub enum ConsumableKind {
    Potion,
    Cleanse,
    Revive,
}

/// One usable item in the inventory, naming the skill it casts.
pub struct Consumable {
    pub name: &'static str,
    pub amount: u8,
    pub kind: ConsumableKind,
}

/// The skill a consumable casts, pinned in full.
pub fn consumable_skill(kind: ConsumableKind) -> (r: Skill)
    ensures
        r.on_hit@ == Seq::<Effect>::empty(),
        r.on_crit@ == Seq::<Effect>::empty(),
        r.cost == Job::NoJob,
        r.modifier is None,
        kind is Potion ==> r.name@ == "Potion"@ && r.target == PrimaryTarget::Any && r.effects@
            == spec_potion_effects(),
        kind is Cleanse ==> r.name@ == "Cleanse"@ && r.target == PrimaryTarget::Friendly
            && r.effects@ == spec_cleanse_effects(),
        kind is Revive ==> r.name@ == "Revive"@ && r.target == PrimaryTarget::Friendly
            && r.effects@ == spec_revive_effects(),
{
    match kind {
        ConsumableKind::Potion => potion(),
        ConsumableKind::Cleanse => cleanse(),
        ConsumableKind::Revive => revive(),
    }
}

/// Whether this side opens combat at a disadvantage.
pub open spec fn spec_disadvantaged(a: Advantage, hostile: bool) -> bool {
    match a {
        Advantage::Friendly => hostile,
        Advantage::Enemy => !hostile,
        Advantage::Neutral => false,
    }
}

/// The initiative a combatant is seeded with at combat start: one full
/// `1/speed` step, doubled for the disadvantaged side so its first
/// action is delayed by a whole speed-cycle.
pub open spec fn spec_seed_initiative(a: Advantage, f: Fighter) -> u64 {
    let speed = if f.stats.speed >= 1 {
        f.stats.speed
    } else {
        1u32
    };
    let step = spec_initiative_step(speed);
    if spec_disadvantaged(a, f.hostile) {
        (2 * step) as u64
    } else {
        step
    }
}

/// A freshly spawned, once-levelled recruit of the given side: level 1,
/// full health, the derived stats, no statuses — everything but the
/// accumulated initiative, which combat start seeds separately.
pub open spec fn spec_recruit_stats(f: Fighter, hostile: bool) -> bool {
    &&& f.hostile == hostile
    &&& !f.dead
    &&& f.level == 1
    &&& f.xp == 0
    &&& f.stats == spec_stats_at(
        1u8,
        Stats { max_health: 0u32, attack: 0u32, speed: 0u32, crit: 0u32, evade: 0u32, defense: 0u32 },
    )
    &&& f.health == f.stats.max_health
    &&& !f.frozen
    &&& !f.confused
    &&& !f.blind
    &&& !f.stunned
}

/// A recruit fresh from spawning: nothing accumulated yet.
pub open spec fn spec_recruit(f: Fighter, hostile: bool) -> bool {
    spec_recruit_stats(f, hostile) && f.initiative == 0
}

/// A particular recruit standing in the store under its name, job and
/// burning stacks.
pub open spec fn spec_recruit_named(
    m: Map<u64, Fighter>,
    id: u64,
    hostile: bool,
    name: Seq<char>,
    job: Job,
    burning: u8,
) -> bool {
    &&& m.contains_key(id)
    &&& spec_recruit_stats(m[id], hostile)
    &&& m[id].name@ == name
    &&& m[id].job == job
    &&& m[id].burning == burning
}

/// The store after one spawn wave: exactly three fresh combatants
/// beside the old ones.
pub open spec fn spec_wave_keys(
    m1: Map<u64, Fighter>,
    m2: Map<u64, Fighter>,
    a: u64,
    b: u64,
    c: u64,
) -> bool {
    &&& a != b && a != c && b != c
    &&& !m1.contains_key(a) && !m1.contains_key(b) && !m1.contains_key(c)
    &&& forall|id: u64| #[trigger]
        m2.contains_key(id) <==> (m1.contains_key(id) || id == a || id == b || id == c)
}

/// A blank record: what a new combatant starts from, before its first
/// levelling pass.
pub open spec fn spec_blank(f: Fighter, name: Seq<char>, job: Job, hostile: bool, burning: u8) -> bool {
    &&& f.name@ == name
    &&& f.level == 0
    &&& f.xp == 0
    &&& f.health == 0
    &&& f.stats == (Stats {
        max_health: 0u32,
        attack: 0u32,
        speed: 0u32,
        crit: 0u32,
        evade: 0u32,
        defense: 0u32,
    })
    &&& f.job == job
    &&& f.initiative == 0
    &&& f.hostile == hostile
    &&& !f.dead
    &&& f.burning == burning
    &&& !f.frozen
    &&& !f.confused
    &&& !f.blind
    &&& !f.stunned
}

/// See [`spec_blank`].
fn blank_fighter(name: &str, job: Job, hostile: bool, burning: u8) -> (f: Fighter)
    ensures
        spec_blank(f, name@, job, hostile, burning),
{
    Fighter {
        name: name.to_owned(),
        level: 0,
        xp: 0,
        health: 0,
        stats: Stats { max_health: 0, attack: 0, speed: 0, crit: 0, evade: 0, defense: 0 },
        job,
        initiative: 0,
        hostile,
        dead: false,
        burning,
        frozen: false,
        confused: false,
        blind: false,
        stunned: false,
    }
}

/// Spawn the player's party and run its first levelling pass.
fn spawn_party(w: &mut hecs::World)
    ensures
        forall|id: u64|
            world_fighters(*old(w)).contains_key(id) ==> world_fighters(*final(w)).contains_key(id)
                && world_fighters(*final(w))[id] == spec_leveled(
                #[trigger] world_fighters(*old(w))[id],
            ),
        forall|id: u64| #[trigger]
            world_fighters(*final(w)).contains_key(id) ==> world_fighters(*old(w)).contains_key(id)
                || spec_recruit(world_fighters(*final(w))[id], false),
        exists|a: u64, b: u64, c: u64|
            #![auto]
            {
                &&& spec_wave_keys(world_fighters(*old(w)), world_fighters(*final(w)), a, b, c)
                &&& spec_recruit_named(
                    world_fighters(*final(w)),
                    a,
                    false,
                    "Technopriest"@,
                    Job::Technopriest { prayers: 4u8 },
                    0u8,
                )
                &&& spec_recruit_named(
                    world_fighters(*final(w)),
                    b,
                    false,
                    "Clairvoyant"@,
                    Job::Clairvoyant { sun: 0u8, moon: 0u8 },
                    0u8,
                )
                &&& spec_recruit_named(
                    world_fighters(*final(w)),
                    c,
                    false,
                    "Nanovampire"@,
                    Job::Nanovampire { battery: 100u8 },
                    0u8,
                )
            },
{
    let ghost m0 = world_fighters(*w);
    let a = spawn_fighter(w, blank_fighter("Technopriest", Job::Technopriest { prayers: 4 }, false, 0));
    let b = spawn_fighter(w, blank_fighter("Clairvoyant", Job::Clairvoyant { sun: 0, moon: 0 }, false, 0));
    let c = spawn_fighter(w, blank_fighter("Nanovampire", Job::Nanovampire { battery: 100 }, false, 0));
    let ghost m3 = world_fighters(*w);
    level_up(w);
    proof {
        assert forall|id: u64| m0.contains_key(id) implies world_fighters(*w).contains_key(id)
            && world_fighters(*w)[id] == spec_leveled(#[trigger] m0[id]) by {
            assert(m3[id] == m0[id]);
            assert(world_fighters(*w)[id] == spec_leveled(m3[id]));
        }
        assert forall|id: u64| #[trigger]
            world_fighters(*w).contains_key(id) implies m0.contains_key(id) || spec_recruit(
            world_fighters(*w)[id],
            false,
        ) by {
            if !m0.contains_key(id) {
                assert(m3.contains_key(id));
                assert(id == a || id == b || id == c);
                assert(world_fighters(*w)[id] == spec_leveled(m3[id]));
            }
        }
        assert(world_fighters(*w)[a] == spec_leveled(m3[a]));
        assert(world_fighters(*w)[b] == spec_leveled(m3[b]));
        assert(world_fighters(*w)[c] == spec_leveled(m3[c]));
        assert(spec_wave_keys(m0, world_fighters(*w), a, b, c));
        assert(spec_recruit_named(
            world_fighters(*w),
            a,
            false,
            "Technopriest"@,
            Job::Technopriest { prayers: 4u8 },
            0u8,
        ));
        assert(spec_recruit_named(
            world_fighters(*w),
            b,
            false,
            "Clairvoyant"@,
            Job::Clairvoyant { sun: 0u8, moon: 0u8 },
            0u8,
        ));
        assert(spec_recruit_named(
            world_fighters(*w),
            c,
            false,
            "Nanovampire"@,
            Job::Nanovampire { battery: 100u8 },
            0u8,
        ));
    }
}

/// Spawn the opposing wave — two sewer rats, one of them already
/// burning, and a cybermutant — and run its first levelling pass.
fn spawn_enemies(w: &mut hecs::World)
    ensures
        forall|id: u64|
            world_fighters(*old(w)).contains_key(id) ==> world_fighters(*final(w)).contains_key(id)
                && world_fighters(*final(w))[id] == spec_leveled(
                #[trigger] world_fighters(*old(w))[id],
            ),
        forall|id: u64| #[trigger]
            world_fighters(*final(w)).contains_key(id) ==> world_fighters(*old(w)).contains_key(id)
                || spec_recruit(world_fighters(*final(w))[id], true),
        exists|a: u64, b: u64, c: u64|
            #![auto]
            {
                &&& spec_wave_keys(world_fighters(*old(w)), world_fighters(*final(w)), a, b, c)
                &&& spec_recruit_named(
                    world_fighters(*final(w)),
                    a,
                    true,
                    "Sewer Rat"@,
                    Job::NoJob,
                    0u8,
                )
                &&& spec_recruit_named(
                    world_fighters(*final(w)),
                    b,
                    true,
                    "Cybermutant"@,
                    Job::NoJob,
                    0u8,
                )
                &&& spec_recruit_named(
                    world_fighters(*final(w)),
                    c,
                    true,
                    "Sewer Rat"@,
                    Job::NoJob,
                    3u8,
                )
            },
{
    let ghost m0 = world_fighters(*w);
    let a = spawn_fighter(w, blank_fighter("Sewer Rat", Job::NoJob, true, 0));
    let b = spawn_fighter(w, blank_fighter("Cybermutant", Job::NoJob, true, 0));
    let c = spawn_fighter(w, blank_fighter("Sewer Rat", Job::NoJob, true, 3));
    let ghost m3 = world_fighters(*w);
    level_up(w);
    proof {
        assert forall|id: u64| m0.contains_key(id) implies world_fighters(*w).contains_key(id)
            && world_fighters(*w)[id] == spec_leveled(#[trigger] m0[id]) by {
            assert(m3[id] == m0[id]);
            assert(world_fighters(*w)[id] == spec_leveled(m3[id]));
        }
        assert forall|id: u64| #[trigger]
            world_fighters(*w).contains_key(id) implies m0.contains_key(id) || spec_recruit(
            world_fighters(*w)[id],
            true,
        ) by {
            if !m0.contains_key(id) {
                assert(m3.contains_key(id));
                assert(id == a || id == b || id == c);
                assert(world_fighters(*w)[id] == spec_leveled(m3[id]));
            }
        }
        assert(world_fighters(*w)[a] == spec_leveled(m3[a]));
        assert(world_fighters(*w)[b] == spec_leveled(m3[b]));
        assert(world_fighters(*w)[c] == spec_leveled(m3[c]));
        assert(spec_wave_keys(m0, world_fighters(*w), a, b, c));
        assert(spec_recruit_named(world_fighters(*w), a, true, "Sewer Rat"@, Job::NoJob, 0u8));
        assert(spec_recruit_named(world_fighters(*w), b, true, "Cybermutant"@, Job::NoJob, 0u8));
        assert(spec_recruit_named(world_fighters(*w), c, true, "Sewer Rat"@, Job::NoJob, 3u8));
    }
}

/// The whole running game: the store, the schedule, the interface
/// state, the log and the random source, threaded together.
pub struct App {
    pub game_state: GameState,
    pub current_screen: CurrentScreen,
    pub previous_screen: Vec<CurrentScreen>,
    pub world: hecs::World,
    pub consumables: Vec<Consumable>,
    pub turn: Option<u64>,
    pub next_up: NextUp,
    pub action_cursor: usize,
    pub consumable_cursor: usize,
    pub targets: Vec<u64>,
    pub selected_target: Option<usize>,
    pub skill: Option<Skill>,
    pub rng: RandomSource,
    pub log: Log,
}

impl App {
    /// The controller's running invariant: the schedule snapshot is
    /// well-formed and any selection points into the target list.
    pub open spec fn wf(self) -> bool {
        &&& schedule_wf(self.next_up@)
        &&& (self.selected_target is Some ==> self.selected_target->0 < self.targets@.len())
    }

    /// A fresh game: the party spawned and levelled once, ready for
    /// combat to start.
    pub fn new() -> (r: App)
        ensures
            r.wf(),
            r.game_state is Combat,
            r.current_screen is Main,
            r.turn is None,
            r.next_up@ == Seq::<crate::sched::InitiativeInfo>::empty(),
            r.skill is None,
            r.targets@ == Seq::<u64>::empty(),
            r.selected_target is None,
            r.previous_screen@ == Seq::<CurrentScreen>::empty(),
            r.log@ == Seq::<crate::log::LogEntry>::empty(),
            forall|id: u64| #[trigger]
                world_fighters(r.world).contains_key(id) ==> !world_fighters(r.world)[id].hostile
                    && world_fighters(r.world)[id].wf(),
            r.consumables@.len() == 3,
            r.consumables@[0].kind is Potion && r.consumables@[0].amount == 15
                && r.consumables@[0].name@ == "Potion"@,
            r.consumables@[1].kind is Cleanse && r.consumables@[1].amount == 3
                && r.consumables@[1].name@ == "Cleanse"@,
            r.consumables@[2].kind is Revive && r.consumables@[2].amount == 3
                && r.consumables@[2].name@ == "Revive"@,
            exists|a: u64, b: u64, c: u64|
                #![auto]
                {
                    &&& a != b && a != c && b != c
                    &&& (forall|id: u64| #[trigger]
                        world_fighters(r.world).contains_key(id) <==> (id == a || id == b || id
                            == c))
                    &&& spec_recruit_named(
                        world_fighters(r.world),
                        a,
                        false,
                        "Technopriest"@,
                        Job::Technopriest { prayers: 4u8 },
                        0u8,
                    )
                    &&& spec_recruit_named(
                        world_fighters(r.world),
                        b,
                        false,
                        "Clairvoyant"@,
                        Job::Clairvoyant { sun: 0u8, moon: 0u8 },
                        0u8,
                    )
                    &&& spec_recruit_named(
                        world_fighters(r.world),
                        c,
                        false,
                        "Nanovampire"@,
                        Job::Nanovampire { battery: 100u8 },
                        0u8,
                    )
                },
    {
        let mut world = new_world();
        let ghost m_empty = world_fighters(world);
        spawn_party(&mut world);
        proof {
            let (a, b, c) = choose|a: u64, b: u64, c: u64|
                #![auto]
                {
                    &&& spec_wave_keys(m_empty, world_fighters(world), a, b, c)
                    &&& spec_recruit_named(
                        world_fighters(world),
                        a,
                        false,
                        "Technopriest"@,
                        Job::Technopriest { prayers: 4u8 },
                        0u8,
                    )
                    &&& spec_recruit_named(
                        world_fighters(world),
                        b,
                        false,
                        "Clairvoyant"@,
                        Job::Clairvoyant { sun: 0u8, moon: 0u8 },
                        0u8,
                    )
                    &&& spec_recruit_named(
                        world_fighters(world),
                        c,
                        false,
                        "Nanovampire"@,
                        Job::Nanovampire { battery: 100u8 },
                        0u8,
                    )
                };
            assert(forall|id: u64| #[trigger]
                world_fighters(world).contains_key(id) <==> (id == a || id == b || id == c));
        }
        let mut consumables: Vec<Consumable> = Vec::new();
        consumables.push(Consumable { name: "Potion", amount: 15, kind: ConsumableKind::Potion });
        consumables.push(Consumable { name: "Cleanse", amount: 3, kind: ConsumableKind::Cleanse });
        consumables.push(Consumable { name: "Revive", amount: 3, kind: ConsumableKind::Revive });
        App {
            game_state: GameState::Combat,
            current_screen: CurrentScreen::Main,
            previous_screen: Vec::new(),
            world,
            consumables,
            turn: None,
            next_up: NextUp::empty(),
            action_cursor: 0,
            consumable_cursor: 0,
            targets: Vec::new(),
            selected_target: None,
            skill: None,
            rng: RandomSource::system(),
            log: Log::new(),
        }
    }

    /// Begin combat: spawn the opposing wave, seed every combatant's
    /// initiative (doubling the disadvantaged side's), rebuild the
    /// schedule, and put the schedule's head on turn.
    pub fn start_combat(&mut self, advantage: Advantage)
        ensures
            final(self).wf(),
            final(self).game_state is Combat,
            final(self).current_screen is Main,
            final(self).previous_screen@ == Seq::<CurrentScreen>::empty(),
            forall|id: u64| #[trigger]
                world_fighters(final(self).world).contains_key(id) ==> world_fighters(
                    final(self).world,
                )[id].initiative == spec_seed_initiative(
                    advantage,
                    world_fighters(final(self).world)[id],
                ),
            forall|k: int|
                0 <= k < final(self).next_up@.len() ==> {
                    let e = #[trigger] final(self).next_up@[k];
                    &&& world_fighters(final(self).world).contains_key(e.entity)
                    &&& world_fighters(final(self).world)[e.entity].alive()
                    &&& e == entry_of(e.entity, world_fighters(final(self).world)[e.entity])
                },
            forall|id: u64|
                world_fighters(final(self).world).contains_key(id) && world_fighters(
                    final(self).world,
                )[id].alive() ==> final(self).next_up@.contains(
                    entry_of(id, #[trigger] world_fighters(final(self).world)[id]),
                ),
            final(self).turn == (if final(self).next_up@.len() == 0 {
                None::<u64>
            } else {
                Some(final(self).next_up@[0].entity)
            }),
            forall|id: u64|
                world_fighters(old(self).world).contains_key(id) ==> world_fighters(
                    final(self).world,
                ).contains_key(id) && world_fighters(final(self).world)[id] == (Fighter {
                    initiative: world_fighters(final(self).world)[id].initiative,
                    ..spec_leveled(#[trigger] world_fighters(old(self).world)[id])
                }),
            exists|a: u64, b: u64, c: u64|
                #![auto]
                {
                    &&& spec_wave_keys(
                        world_fighters(old(self).world),
                        world_fighters(final(self).world),
                        a,
                        b,
                        c,
                    )
                    &&& spec_recruit_named(
                        world_fighters(final(self).world),
                        a,
                        true,
                        "Sewer Rat"@,
                        Job::NoJob,
                        0u8,
                    )
                    &&& spec_recruit_named(
                        world_fighters(final(self).world),
                        b,
                        true,
                        "Cybermutant"@,
                        Job::NoJob,
                        0u8,
                    )
                    &&& spec_recruit_named(
                        world_fighters(final(self).world),
                        c,
                        true,
                        "Sewer Rat"@,
                        Job::NoJob,
                        3u8,
                    )
                },
    {
        spawn_enemies(&mut self.world);
        let ids = world_ids(&self.world);
        let ghost m0 = world_fighters(self.world);
        let mut i: usize = 0;
        while i < ids.len()
            invariant
                i <= ids@.len(),
                ids@.no_duplicates(),
                forall|id: u64| #[trigger] ids@.contains(id) <==> m0.contains_key(id),
                forall|id: u64|
                    world_fighters(self.world).contains_key(id) == m0.contains_key(id),
                forall|j: int|
                    0 <= j < i ==> world_fighters(self.world)[#[trigger] ids@[j]] == (Fighter {
                        initiative: spec_seed_initiative(advantage, m0[ids@[j]]),
                        ..m0[ids@[j]]
                    }),
                forall|id: u64|
                    m0.contains_key(id) && !(exists|j: int| 0 <= j < i && ids@[j] == id)
                        ==> world_fighters(self.world)[id] == m0[id],
            decreases ids@.len() - i,
        {
            let id = ids[i];
            proof {
                assert(ids@.contains(ids@[i as int]));
            }
            match get_fighter(&self.world, id) {
                Some(f) => {
                    let speed = if f.stats.speed >= 1 {
                        f.stats.speed
                    } else {
                        1
                    };
                    let step = crate::sched::initiative_step(speed);
                    let seeded = match advantage {
                        Advantage::Friendly => f.hostile,
                        Advantage::Enemy => !f.hostile,
                        Advantage::Neutral => false,
                    };
                    let initiative = if seeded {
                        2 * step
                    } else {
                        step
                    };
                    let f2 = Fighter { initiative, ..f };
                    put_fighter(&mut self.world, id, f2);
                },
                None => {},
            }
            i = i + 1;
        }
        proof {
            assert forall|id: u64| #[trigger]
                world_fighters(self.world).contains_key(id) implies world_fighters(
                self.world,
            )[id].initiative == spec_seed_initiative(
                advantage,
                world_fighters(self.world)[id],
            ) by {
                assert(ids@.contains(id));
                let j = choose|j: int| 0 <= j < ids@.len() && ids@[j] == id;
            }
            assert forall|id: u64| m0.contains_key(id) implies world_fighters(self.world)[id]
                == (Fighter {
                initiative: world_fighters(self.world)[id].initiative,
                ..m0[id]
            }) by {
                assert(ids@.contains(id));
                let j = choose|j: int| 0 <= j < ids@.len() && ids@[j] == id;
            }
            let (a, b, c) = choose|a: u64, b: u64, c: u64|
                #![auto]
                {
                    &&& spec_wave_keys(world_fighters(old(self).world), m0, a, b, c)
                    &&& spec_recruit_named(m0, a, true, "Sewer Rat"@, Job::NoJob, 0u8)
                    &&& spec_recruit_named(m0, b, true, "Cybermutant"@, Job::NoJob, 0u8)
                    &&& spec_recruit_named(m0, c, true, "Sewer Rat"@, Job::NoJob, 3u8)
                };
            assert forall|id: u64| #[trigger]
                world_fighters(self.world).contains_key(id) <==> (world_fighters(
                old(self).world,
            ).contains_key(id) || id == a || id == b || id == c) by {
                assert(world_fighters(self.world).contains_key(id) == m0.contains_key(id));
                assert(m0.contains_key(id) <==> (world_fighters(old(self).world).contains_key(id)
                    || id == a || id == b || id == c));
            }
            assert(spec_wave_keys(
                world_fighters(old(self).world),
                world_fighters(self.world),
                a,
                b,
                c,
            ));
            assert(spec_recruit_named(
                world_fighters(self.world),
                a,
                true,
                "Sewer Rat"@,
                Job::NoJob,
                0u8,
            ));
            assert(spec_recruit_named(
                world_fighters(self.world),
                b,
                true,
                "Cybermutant"@,
                Job::NoJob,
                0u8,
            ));
            assert(spec_recruit_named(
                world_fighters(self.world),
                c,
                true,
                "Sewer Rat"@,
                Job::NoJob,
                3u8,
            ));
            assert forall|id: u64|
                world_fighters(old(self).world).contains_key(id) implies world_fighters(
                self.world,
            ).contains_key(id) && world_fighters(self.world)[id] == (Fighter {
                initiative: world_fighters(self.world)[id].initiative,
                ..spec_leveled(world_fighters(old(self).world)[id])
            }) by {
                assert(m0[id] == spec_leveled(world_fighters(old(self).world)[id]));
            }
        }
        self.game_state = GameState::Combat;
        self.current_screen = CurrentScreen::Main;
        self.previous_screen = Vec::new();
        self.next_up = refresh_schedule(&self.world);
        self.turn = match self.next_up.peek() {
            Some(e) => Some(e.entity),
            None => None,
        };
        self.action_cursor = 0;
        self.targets = Vec::new();
        self.selected_target = None;
        self.skill = None;
    }
}

/// Whether any hostile combatant is in the store at all; combat ends
/// when none is.
pub open spec fn spec_any_hostile(m: Map<u64, Fighter>) -> bool {
    exists|id: u64| #[trigger] m.contains_key(id) && m[id].hostile
}

/// See [`spec_any_hostile`].
fn any_hostile(w: &hecs::World) -> (r: bool)
    ensures
        r == spec_any_hostile(world_fighters(*w)),
{
    let ids = world_ids(w);
    let mut i: usize = 0;
    while i < ids.len()
        invariant
            i <= ids@.len(),
            forall|id: u64| #[trigger] ids@.contains(id) <==> world_fighters(*w).contains_key(id),
            forall|j: int|
                0 <= j < i ==> !world_fighters(*w)[#[trigger] ids@[j]].hostile,
        decreases ids@.len() - i,
    {
        let id = ids[i];
        proof {
            assert(ids@.contains(ids@[i as int]));
        }
        match get_fighter(w, id) {
            Some(f) => {
                if f.hostile {
                    return true;
                }
            },
            None => {},
        }
        i = i + 1;
    }
    proof {
        if spec_any_hostile(world_fighters(*w)) {
            let id = choose|id: u64| #[trigger] world_fighters(*w).contains_key(id)
                && world_fighters(*w)[id].hostile;
            assert(ids@.contains(id));
            let j = choose|j: int| 0 <= j < ids@.len() && ids@[j] == id;
        }
    }
    false
}

/// What the death sweep leaves of one combatant: one at zero health is
/// despawned when hostile and retained but marked dead when friendly;
/// everyone else is untouched.
pub open spec fn spec_swept(m1: Map<u64, Fighter>, m2: Map<u64, Fighter>, id: u64) -> bool {
    m1.contains_key(id) ==> {
        let f = m1[id];
        if f.health == 0 && f.hostile {
            !m2.contains_key(id)
        } else if f.health == 0 {
            m2.contains_key(id) && m2[id] == (Fighter { dead: true, ..f })
        } else {
            m2.contains_key(id) && m2[id] == f
        }
    }
}

/// The state a cast followed by the death sweep leaves behind: the
/// cast's seeded run from the pre-state, then every zero-health
/// combatant retired per [`spec_swept`].
pub open spec fn spec_cast_then_swept(
    m0: Map<u64, Fighter>,
    l0: Seq<crate::log::LogEntry>,
    st0: u64,
    caster: u64,
    skill: Skill,
    chosen: Seq<u64>,
    m2: Map<u64, Fighter>,
    l2: Seq<crate::log::LogEntry>,
    rng2: RandomSource,
) -> bool {
    let run = spec_apply_run(m0, l0, st0, caster, skill, chosen);
    &&& forall|id: u64| spec_swept(run.0, m2, id)
    &&& forall|id: u64| #[trigger] m2.contains_key(id) ==> run.0.contains_key(id)
    &&& l2 == run.1
    &&& rng2.seeded && rng2.state == run.2
}

impl App {
    /// The death sweep, run after every effect application: retire every
    /// combatant at zero health (see [`spec_swept`]), rebuild the
    /// schedule, and — when a skill was being aimed — re-resolve its
    /// target list and clamp the selection into it.
    pub fn check_dead(&mut self)
        requires
            old(self).wf(),
        ensures
            final(self).wf(),
            forall|id: u64|
                spec_swept(
                    world_fighters(old(self).world),
                    world_fighters(final(self).world),
                    id,
                ),
            forall|id: u64| #[trigger]
                world_fighters(final(self).world).contains_key(id) ==> world_fighters(
                    old(self).world,
                ).contains_key(id),
            forall|id: u64| #[trigger]
                world_fighters(final(self).world).contains_key(id) && world_fighters(
                    final(self).world,
                )[id].health == 0 ==> !world_fighters(final(self).world)[id].hostile
                    && world_fighters(final(self).world)[id].dead,
            forall|k: int|
                0 <= k < final(self).next_up@.len() ==> {
                    let e = #[trigger] final(self).next_up@[k];
                    &&& world_fighters(final(self).world).contains_key(e.entity)
                    &&& world_fighters(final(self).world)[e.entity].alive()
                    &&& e == entry_of(e.entity, world_fighters(final(self).world)[e.entity])
                },
            forall|id: u64|
                world_fighters(final(self).world).contains_key(id) && world_fighters(
                    final(self).world,
                )[id].alive() ==> final(self).next_up@.contains(
                    entry_of(id, #[trigger] world_fighters(final(self).world)[id]),
                ),
            old(self).skill is Some && old(self).selected_target is Some ==> {
                &&& spec_candidate_list(
                    world_fighters(final(self).world),
                    final(self).targets@,
                    (old(self).skill->0).target,
                )
                &&& final(self).selected_target == (if final(self).targets@.len() == 0 {
                    None::<usize>
                } else {
                    Some(
                        if old(self).selected_target->0 < final(self).targets@.len() {
                            old(self).selected_target->0
                        } else {
                            (final(self).targets@.len() - 1) as usize
                        },
                    )
                })
            },
            !(old(self).skill is Some && old(self).selected_target is Some) ==> final(self).targets
                == old(self).targets && final(self).selected_target == old(self).selected_target,
            final(self).skill == old(self).skill,
            final(self).game_state == old(self).game_state,
            final(self).current_screen == old(self).current_screen,
            final(self).turn == old(self).turn,
            final(self).log == old(self).log,
            final(self).rng == old(self).rng,
    {
        let ids = world_ids(&self.world);
        let ghost m0 = world_fighters(self.world);
        proof {
            assert forall|j: int| 0 <= j < ids@.len() implies m0.contains_key(
                #[trigger] ids@[j],
            ) by {
                assert(ids@.contains(ids@[j]));
            }
        }
        let mut i: usize = 0;
        while i < ids.len()
            invariant
                i <= ids@.len(),
                ids@.no_duplicates(),
                forall|id: u64| #[trigger] ids@.contains(id) <==> m0.contains_key(id),
                forall|id: u64| #[trigger]
                    world_fighters(self.world).contains_key(id) ==> m0.contains_key(id),
                forall|j: int|
                    0 <= j < i ==> spec_swept(m0, world_fighters(self.world), #[trigger] ids@[j]),
                forall|j: int|
                    i <= j < ids@.len() ==> world_fighters(self.world).contains_key(
                        #[trigger] ids@[j],
                    ) && world_fighters(self.world)[ids@[j]] == m0[ids@[j]],
                self.targets == old(self).targets,
                self.selected_target == old(self).selected_target,
                self.skill == old(self).skill,
                self.game_state == old(self).game_state,
                self.current_screen == old(self).current_screen,
                self.turn == old(self).turn,
                self.log == old(self).log,
                self.rng == old(self).rng,
            decreases ids@.len() - i,
        {
            let id = ids[i];
            proof {
                assert(ids@.contains(ids@[i as int]));
            }
            let ghost m_pre = world_fighters(self.world);
            match get_fighter(&self.world, id) {
                Some(f) => {
                    if f.health == 0 {
                        if f.hostile {
                            despawn_fighter(&mut self.world, id);
                        } else {
                            let f2 = Fighter { dead: true, ..f };
                            put_fighter(&mut self.world, id, f2);
                        }
                    }
                },
                None => {},
            }
            proof {
                assert forall|j: int| 0 <= j < i + 1 implies spec_swept(
                    m0,
                    world_fighters(self.world),
                    #[trigger] ids@[j],
                ) by {
                    if j < i {
                        assert(ids@[j] != ids@[i as int]);
                        assert(spec_swept(m0, m_pre, ids@[j]));
                    }
                }
                assert forall|j: int| i + 1 <= j < ids@.len() implies world_fighters(
                    self.world,
                ).contains_key(#[trigger] ids@[j]) && world_fighters(self.world)[ids@[j]]
                    == m0[ids@[j]] by {
                    assert(ids@[j] != ids@[i as int]);
                    assert(m_pre.contains_key(ids@[j]) && m_pre[ids@[j]] == m0[ids@[j]]);
                }
            }
            i = i + 1;
        }
        proof {
            assert forall|id: u64| spec_swept(m0, world_fighters(self.world), id) by {
                if m0.contains_key(id) {
                    assert(ids@.contains(id));
                    let j = choose|j: int| 0 <= j < ids@.len() && ids@[j] == id;
                }
            }
            assert forall|id: u64| #[trigger]
                world_fighters(self.world).contains_key(id) && world_fighters(
                self.world,
            )[id].health == 0 implies !world_fighters(self.world)[id].hostile && world_fighters(
                self.world,
            )[id].dead by {
                assert(spec_swept(m0, world_fighters(self.world), id));
            }
        }
        self.next_up = refresh_schedule(&self.world);
        match &self.skill {
            Some(skill) => {
                if self.selected_target.is_some() {
                    let (targets, _) = skill.get_targets(&self.world);
                    self.targets = targets;
                    self.selected_target = clamp_selection(
                        self.selected_target,
                        self.targets.len(),
                    );
                }
            },
            None => {},
        }
    }

    /// End combat: run the levelling pass and hand control back to the
    /// overworld.
    fn end_combat(&mut self)
        requires
            old(self).wf(),
        ensures
            final(self).wf(),
            final(self).game_state is Overworld,
            final(self).current_screen is Main,
            final(self).log == old(self).log,
            final(self).rng == old(self).rng,
            forall|id: u64|
                world_fighters(final(self).world).contains_key(id) == world_fighters(
                    old(self).world,
                ).contains_key(id),
            forall|id: u64|
                world_fighters(old(self).world).contains_key(id) ==> world_fighters(
                    final(self).world,
                )[id] == spec_leveled(#[trigger] world_fighters(old(self).world)[id]),
    {
        level_up(&mut self.world);
        self.game_state = GameState::Overworld;
        self.current_screen = CurrentScreen::Main;
    }

    /// End-of-turn bookkeeping: when no hostile remains, end combat;
    /// otherwise advance the acting combatant's initiative by its own
    /// `1/speed` — tolerating one that died mid-turn — rebuild the
    /// schedule, and put the new head on turn.
    pub fn finish_turn(&mut self)
        requires
            old(self).wf(),
        ensures
            final(self).wf(),
            final(self).log == old(self).log,
            final(self).rng == old(self).rng,
            !spec_any_hostile(world_fighters(old(self).world)) ==> {
                &&& final(self).game_state is Overworld
                &&& forall|id: u64|
                    world_fighters(final(self).world).contains_key(id) == world_fighters(
                        old(self).world,
                    ).contains_key(id)
                &&& forall|id: u64|
                    world_fighters(old(self).world).contains_key(id) ==> world_fighters(
                        final(self).world,
                    )[id] == spec_leveled(#[trigger] world_fighters(old(self).world)[id])
            },
            spec_any_hostile(world_fighters(old(self).world)) ==> {
                &&& final(self).game_state == old(self).game_state
                &&& final(self).current_screen is Main
                &&& (old(self).turn is Some ==> world_fighters(final(self).world) == (if
                world_fighters(old(self).world).contains_key(old(self).turn->0) {
                    world_fighters(old(self).world).insert(
                        old(self).turn->0,
                        Fighter {
                            initiative: advanced_entry(
                                entry_of(
                                    old(self).turn->0,
                                    world_fighters(old(self).world)[old(self).turn->0],
                                ),
                            ).initiative,
                            ..world_fighters(old(self).world)[old(self).turn->0]
                        },
                    )
                } else {
                    world_fighters(old(self).world)
                }))
                &&& (old(self).turn is None ==> world_fighters(final(self).world)
                    == world_fighters(old(self).world))
                &&& final(self).turn == (if final(self).next_up@.len() == 0 {
                    None::<u64>
                } else {
                    Some(final(self).next_up@[0].entity)
                })
                &&& forall|k: int|
                    0 <= k < final(self).next_up@.len() ==> {
                        let e = #[trigger] final(self).next_up@[k];
                        &&& world_fighters(final(self).world).contains_key(e.entity)
                        &&& world_fighters(final(self).world)[e.entity].alive()
                        &&& e == entry_of(e.entity, world_fighters(final(self).world)[e.entity])
                    }
                &&& forall|id: u64|
                    world_fighters(final(self).world).contains_key(id) && world_fighters(
                        final(self).world,
                    )[id].alive() ==> final(self).next_up@.contains(
                        entry_of(id, #[trigger] world_fighters(final(self).world)[id]),
                    )
            },
    {
        if !any_hostile(&self.world) {
            self.end_combat();
            return ;
        }
        match self.turn {
            Some(e) => {
                self.next_up = advance_turn(e, &mut self.world);
            },
            None => {
                self.next_up = refresh_schedule(&self.world);
            },
        }
        self.turn = match self.next_up.peek() {
            Some(e) => Some(e.entity),
            None => None,
        };
        self.current_screen = CurrentScreen::Main;
    }

    /// Open the targeting screen for a skill: resolve its candidates,
    /// and preselect the first one when one candidate must be chosen.
    pub fn start_targeting(&mut self, skill: Skill)
        requires
            old(self).wf(),
        ensures
            final(self).wf(),
            final(self).current_screen is Target,
            final(self).previous_screen@ == old(self).previous_screen@.push(
                old(self).current_screen,
            ),
            spec_candidate_list(
                world_fighters(final(self).world),
                final(self).targets@,
                skill.target,
            ),
            world_fighters(final(self).world) == world_fighters(old(self).world),
            final(self).skill == Some(skill),
            final(self).selected_target == (if !skill.spec_is_multi() && final(self).targets@.len()
                > 0 {
                Some(0usize)
            } else {
                None::<usize>
            }),
    {
        self.previous_screen.push(self.current_screen);
        self.current_screen = CurrentScreen::Target;
        let (targets, many) = skill.get_targets(&self.world);
        self.targets = targets;
        self.selected_target = if !many && self.targets.len() > 0 {
            Some(0)
        } else {
            None
        };
        self.skill = Some(skill);
    }

    /// Cast the aimed skill on the chosen target (or on every candidate
    /// when none is singled out), then run the death sweep.  With no
    /// skill aimed or nobody on turn, nothing happens.
    pub fn apply_skill(&mut self)
        requires
            old(self).wf(),
        ensures
            final(self).wf(),
            old(self).skill is None || old(self).turn is None ==> *final(self) == *old(self),
            old(self).skill is Some && old(self).turn is Some ==> {
                &&& final(self).skill == old(self).skill
                &&& final(self).turn == old(self).turn
                &&& forall|id: u64| #[trigger]
                    world_fighters(final(self).world).contains_key(id) && world_fighters(
                        final(self).world,
                    )[id].health == 0 ==> !world_fighters(final(self).world)[id].hostile
                        && world_fighters(final(self).world)[id].dead
                &&& forall|k: int|
                    0 <= k < final(self).next_up@.len() ==> {
                        let e = #[trigger] final(self).next_up@[k];
                        &&& world_fighters(final(self).world).contains_key(e.entity)
                        &&& world_fighters(final(self).world)[e.entity].alive()
                        &&& e == entry_of(e.entity, world_fighters(final(self).world)[e.entity])
                    }
            },
            old(self).skill is Some && old(self).turn is Some && old(self).selected_target
                is Some ==> spec_candidate_list(
                world_fighters(final(self).world),
                final(self).targets@,
                (old(self).skill->0).target,
            ),
            ({
                &&& old(self).skill is Some
                &&& old(self).turn is Some
                &&& old(self).rng.seeded
                &&& world_fighters(old(self).world).contains_key(old(self).turn->0)
                &&& spec_pay_cost(
                    world_fighters(old(self).world)[old(self).turn->0].job,
                    spec_active_cost(
                        old(self).skill->0,
                        world_fighters(old(self).world)[old(self).turn->0],
                    ),
                ) is Some
            }) ==> spec_cast_then_swept(
                world_fighters(old(self).world),
                old(self).log@,
                old(self).rng.state,
                old(self).turn->0,
                old(self).skill->0,
                if old(self).selected_target is Some {
                    seq![old(self).targets@[old(self).selected_target->0 as int]]
                } else {
                    old(self).targets@
                },
                world_fighters(final(self).world),
                final(self).log@,
                final(self).rng,
            ),
    {
        if self.skill.is_none() || self.turn.is_none() {
            return ;
        }
        let caster: u64 = match self.turn {
            Some(e) => e,
            None => 0,
        };
        let chosen: Option<u64> = match self.selected_target {
            Some(s) => Some(self.targets[s]),
            None => None,
        };
        match (&self.skill, chosen) {
            (Some(skill), Some(t)) => {
                let mut single: Vec<u64> = Vec::new();
                single.push(t);
                proof {
                    assert(single@ =~= seq![t]);
                }
                skill.apply(&mut self.world, caster, &single, &mut self.rng, &mut self.log);
            },
            (Some(skill), None) => {
                skill.apply(&mut self.world, caster, &self.targets, &mut self.rng, &mut self.log);
            },
            _ => {},
        }
        proof {
            if old(self).skill is Some && old(self).turn is Some && old(self).rng.seeded
                && world_fighters(old(self).world).contains_key(old(self).turn->0)
                && spec_pay_cost(
                world_fighters(old(self).world)[old(self).turn->0].job,
                spec_active_cost(
                    old(self).skill->0,
                    world_fighters(old(self).world)[old(self).turn->0],
                ),
            ) is Some {
                let chosen = if old(self).selected_target is Some {
                    seq![old(self).targets@[old(self).selected_target->0 as int]]
                } else {
                    old(self).targets@
                };
                assert((world_fighters(self.world), self.log@, self.rng.state) == spec_apply_run(
                    world_fighters(old(self).world),
                    old(self).log@,
                    old(self).rng.state,
                    old(self).turn->0,
                    old(self).skill->0,
                    chosen,
                ));
            }
        }
        self.check_dead();
    }

    /// The automatic enemy turn: aim the default attack at the friendly
    /// side, pick one target uniformly at random, and cast.
    #[verifier::rlimit(100)]
    #[verifier::spinoff_prover]
    pub fn think(&mut self)
        requires
            old(self).wf(),
        ensures
            final(self).wf(),
            final(self).skill is Some,
            !(exists|id: u64| #[trigger]
                world_fighters(old(self).world).contains_key(id) && world_fighters(
                old(self).world,
            )[id].alive() && !world_fighters(old(self).world)[id].hostile) ==> world_fighters(
                final(self).world,
            ) == world_fighters(old(self).world) && final(self).selected_target is None,
            (exists|id: u64| #[trigger]
                world_fighters(old(self).world).contains_key(id) && world_fighters(
                old(self).world,
            )[id].alive() && !world_fighters(old(self).world)[id].hostile) && old(self).turn
                is Some ==> {
                &&& forall|id: u64| #[trigger]
                    world_fighters(final(self).world).contains_key(id) && world_fighters(
                        final(self).world,
                    )[id].health == 0 ==> !world_fighters(final(self).world)[id].hostile
                        && world_fighters(final(self).world)[id].dead
                &&& forall|k: int|
                    0 <= k < final(self).next_up@.len() ==> {
                        let e = #[trigger] final(self).next_up@[k];
                        &&& world_fighters(final(self).world).contains_key(e.entity)
                        &&& world_fighters(final(self).world)[e.entity].alive()
                        &&& e == entry_of(e.entity, world_fighters(final(self).world)[e.entity])
                    }
            },
            ({
                &&& old(self).rng.seeded
                &&& old(self).turn is Some
                &&& world_fighters(old(self).world).contains_key(old(self).turn->0)
                &&& spec_candidates(
                    world_fighters(old(self).world),
                    PrimaryTarget::Friendly,
                ).len() > 0
            }) ==> (exists|i: int|
                #![trigger spec_candidates(world_fighters(old(self).world), PrimaryTarget::Friendly)[i]]
                {
                    &&& 0 <= i < spec_candidates(
                        world_fighters(old(self).world),
                        PrimaryTarget::Friendly,
                    ).len()
                    &&& spec_cast_then_swept(
                        world_fighters(old(self).world),
                        old(self).log@,
                        lcg_next(old(self).rng.state),
                        old(self).turn->0,
                        final(self).skill->0,
                        seq![
                            spec_candidates(
                                world_fighters(old(self).world),
                                PrimaryTarget::Friendly,
                            )[i],
                        ],
                        world_fighters(final(self).world),
                        final(self).log@,
                        final(self).rng,
                    )
                }),
    {
        self.skill = Some(basic_attack());
        self.targets = candidates(&self.world, PrimaryTarget::Friendly);
        proof {
            lemma_candidates_are(
                world_fighters(self.world),
                self.targets@,
                PrimaryTarget::Friendly,
            );
        }
        let ghost fl0 = self.targets@;
        if self.targets.len() > 0 {
            proof {
                assert(self.targets@.contains(self.targets@[0]));
            }
            let idx = self.rng.next_below(self.targets.len() as u64) as usize;
            self.selected_target = Some(idx);
            proof {
                if self.skill is Some && self.turn is Some {
                    let ghost s = self.skill->0;
                    assert(spec_active_cost(s, world_fighters(self.world)[self.turn->0])
                        == Job::NoJob) by {
                        assert(s.modifier is None);
                    }
                }
            }
            self.apply_skill();
            proof {
                if old(self).rng.seeded && old(self).turn is Some && world_fighters(
                    old(self).world,
                ).contains_key(old(self).turn->0) && spec_candidates(
                    world_fighters(old(self).world),
                    PrimaryTarget::Friendly,
                ).len() > 0 {
                    let fl = spec_candidates(
                        world_fighters(old(self).world),
                        PrimaryTarget::Friendly,
                    );
                    assert(fl0 == fl);
                    let st1 = lcg_next(old(self).rng.state);
                    let i = seeded_pick(st1, fl.len() as u64) as int;
                    assert(idx as int == i);
                    assert(seq![fl0[idx as int]] =~= seq![fl[i]]);
                }
            }
        } else {
            proof {
                if exists|id: u64| #[trigger]
                    world_fighters(self.world).contains_key(id) && world_fighters(
                    self.world,
                )[id].alive() && !world_fighters(self.world)[id].hostile {
                    let id = choose|id: u64| #[trigger]
                        world_fighters(self.world).contains_key(id) && world_fighters(
                        self.world,
                    )[id].alive() && !world_fighters(self.world)[id].hostile;
                    assert(self.targets@.contains(id));
                }
            }
            self.selected_target = None;
        }
    }

    /// The rows of the action menu a combatant chooses from on its
    /// turn.
    pub fn action_items(&self) -> (r: Vec<ActionListItem>)
        ensures
            r@.len() == 3,
            r@[0].action is Skill && r@[0].text@ == "Skill"@,
            r@[1].action is Target && r@[1].text@ == "Melee"@,
            r@[2].action is Item && r@[2].text@ == "Item"@,
    {
        let mut v: Vec<ActionListItem> = Vec::new();
        v.push(ActionListItem { text: "Skill", action: CurrentScreen::Skill });
        v.push(ActionListItem { text: "Melee", action: CurrentScreen::Target });
        v.push(ActionListItem { text: "Item", action: CurrentScreen::Item });
        v
    }

    /// Whether the combatant on turn is hostile, so the controller keeps
    /// running automatic turns without returning control to the player.
    fn turn_is_hostile(&self) -> (r: bool)
        ensures
            r == (self.turn is Some && world_fighters(self.world).contains_key(self.turn->0)
                && world_fighters(self.world)[self.turn->0].hostile),
    {
        match self.turn {
            Some(e) => match get_fighter(&self.world, e) {
                Some(f) => f.hostile,
                None => false,
            },
            None => false,
        }
    }

    /// Drive the interface state machine by one message.  `Quit` is
    /// handed back exactly when the exit screen confirms it; `Think` is
    /// handed back whenever an enemy holds the next turn, so the caller
    /// loops the automatic turns.
    pub fn update(&mut self, message: Message) -> (r: Option<Message>)
        requires
            old(self).wf(),
        ensures
            final(self).wf(),
            r == Some(Message::Quit) <==> (message is Quit && old(self).current_screen
                is Exiting),
            r is Some ==> (r->0 is Quit || r->0 is Think),
            r == Some(Message::Think) ==> final(self).current_screen is Enemy && final(self).turn
                is Some && world_fighters(final(self).world).contains_key(final(self).turn->0)
                && world_fighters(final(self).world)[final(self).turn->0].hostile,
            message is Quit && !(old(self).current_screen is Exiting) ==> {
                &&& final(self).current_screen is Exiting
                &&& final(self).previous_screen@ == old(self).previous_screen@.push(
                    old(self).current_screen,
                )
                &&& *final(self) == (App {
                    current_screen: final(self).current_screen,
                    previous_screen: final(self).previous_screen,
                    ..*old(self)
                })
            },
            message is Cancel ==> {
                &&& final(self).current_screen == (if old(self).previous_screen@.len() == 0 {
                    CurrentScreen::Main
                } else {
                    old(self).previous_screen@.last()
                })
                &&& final(self).previous_screen@ == (if old(self).previous_screen@.len() == 0 {
                    old(self).previous_screen@
                } else {
                    old(self).previous_screen@.drop_last()
                })
                &&& *final(self) == (App {
                    current_screen: final(self).current_screen,
                    previous_screen: final(self).previous_screen,
                    ..*old(self)
                })
            },
            (message is Select && old(self).game_state is Combat && old(self).current_screen
                is Target && final(self).turn is Some && world_fighters(
                final(self).world,
            ).contains_key(final(self).turn->0) && world_fighters(final(self).world)[final(self).turn->0].hostile)
                ==> r == Some(Message::Think),
            (message is Think && old(self).game_state is Combat && old(self).current_screen
                is Enemy && final(self).turn is Some && world_fighters(
                final(self).world,
            ).contains_key(final(self).turn->0) && world_fighters(final(self).world)[final(self).turn->0].hostile)
                ==> r == Some(Message::Think),
            (message is Select && old(self).game_state is Combat && old(self).current_screen
                is Target && old(self).skill is Some && old(self).turn is Some) ==> forall|
                id: u64,
            | #[trigger]
                world_fighters(final(self).world).contains_key(id) && world_fighters(
                    final(self).world,
                )[id].health == 0 ==> !world_fighters(final(self).world)[id].hostile
                    && world_fighters(final(self).world)[id].dead,
            ({
                &&& message is Select
                &&& old(self).game_state is Combat
                &&& old(self).current_screen is Target
                &&& old(self).skill is Some
                &&& old(self).turn is Some
                &&& old(self).rng.seeded
                &&& world_fighters(old(self).world).contains_key(old(self).turn->0)
                &&& spec_pay_cost(
                    world_fighters(old(self).world)[old(self).turn->0].job,
                    spec_active_cost(
                        old(self).skill->0,
                        world_fighters(old(self).world)[old(self).turn->0],
                    ),
                ) is Some
            }) ==> (exists|m2: Map<u64, Fighter>|
                #![trigger spec_any_hostile(m2)]
                {
                    &&& spec_cast_then_swept(
                        world_fighters(old(self).world),
                        old(self).log@,
                        old(self).rng.state,
                        old(self).turn->0,
                        old(self).skill->0,
                        if old(self).selected_target is Some {
                            seq![old(self).targets@[old(self).selected_target->0 as int]]
                        } else {
                            old(self).targets@
                        },
                        m2,
                        final(self).log@,
                        final(self).rng,
                    )
                    &&& (spec_any_hostile(m2) ==> world_fighters(final(self).world) == (if
                    m2.contains_key(old(self).turn->0) {
                        m2.insert(
                            old(self).turn->0,
                            Fighter {
                                initiative: advanced_entry(
                                    entry_of(old(self).turn->0, m2[old(self).turn->0]),
                                ).initiative,
                                ..m2[old(self).turn->0]
                            },
                        )
                    } else {
                        m2
                    }))
                    &&& (!spec_any_hostile(m2) ==> (forall|id: u64|
                        world_fighters(final(self).world).contains_key(id) == m2.contains_key(
                            id,
                        )) && (forall|id: u64|
                        m2.contains_key(id) ==> world_fighters(final(self).world)[id]
                            == spec_leveled(#[trigger] m2[id])))
                }),
    {
        match message {
            Message::Quit => {
                if matches!(self.current_screen, CurrentScreen::Exiting) {
                    return Some(Message::Quit);
                } else {
                    self.previous_screen.push(self.current_screen);
                    self.current_screen = CurrentScreen::Exiting;
                    return None;
                }
            },
            Message::Cancel => {
                self.current_screen = match self.previous_screen.pop() {
                    Some(s) => s,
                    None => CurrentScreen::Main,
                };
            },
            _ => {},
        }
        match self.game_state {
            GameState::Combat => match self.current_screen {
                CurrentScreen::Main => match message {
                    Message::Up => {
                        self.action_cursor = if self.action_cursor == 0 {
                            2
                        } else {
                            self.action_cursor - 1
                        };
                    },
                    Message::Down => {
                        self.action_cursor = if self.action_cursor >= 2 {
                            0
                        } else {
                            self.action_cursor + 1
                        };
                    },
                    Message::Select => {
                        let items = self.action_items();
                        if self.action_cursor < items.len() {
                            match items[self.action_cursor].action {
                                CurrentScreen::Target => {
                                    let attack = basic_attack();
                                    self.start_targeting(attack);
                                },
                                next => {
                                    self.previous_screen.push(self.current_screen);
                                    self.current_screen = next;
                                },
                            }
                        }
                    },
                    _ => {},
                },
                CurrentScreen::Item => match message {
                    Message::Up => {
                        self.consumable_cursor = if self.consumable_cursor == 0 {
                            if self.consumables.len() == 0 {
                                0
                            } else {
                                self.consumables.len() - 1
                            }
                        } else {
                            self.consumable_cursor - 1
                        };
                    },
                    Message::Down => {
                        self.consumable_cursor = if self.consumables.len() == 0
                            || self.consumable_cursor >= self.consumables.len() - 1 {
                            0
                        } else {
                            self.consumable_cursor + 1
                        };
                    },
                    Message::Select => {
                        if self.consumable_cursor < self.consumables.len() {
                            let kind = self.consumables[self.consumable_cursor].kind;
                            let skill = consumable_skill(kind);
                            self.start_targeting(skill);
                        }
                    },
                    _ => {},
                },
                CurrentScreen::Target => match message {
                    Message::Up | Message::Left => {
                        match self.selected_target {
                            Some(s) => {
                                self.selected_target = Some(
                                    if s == 0 {
                                        self.targets.len() - 1
                                    } else {
                                        s - 1
                                    },
                                );
                            },
                            None => {},
                        }
                    },
                    Message::Down | Message::Right => {
                        match self.selected_target {
                            Some(s) => {
                                let n = self.targets.len();
                                proof {
                                    assert(s < n);
                                }
                                self.selected_target = Some(
                                    if s + 1 >= n {
                                        0
                                    } else {
                                        s + 1
                                    },
                                );
                            },
                            None => {},
                        }
                    },
                    Message::Select => {
                        self.apply_skill();
                        let ghost m1 = world_fighters(self.world);
                        self.finish_turn();
                        proof {
                            if old(self).skill is Some && old(self).turn is Some
                                && old(self).rng.seeded && world_fighters(
                                old(self).world,
                            ).contains_key(old(self).turn->0) && spec_pay_cost(
                                world_fighters(old(self).world)[old(self).turn->0].job,
                                spec_active_cost(
                                    old(self).skill->0,
                                    world_fighters(old(self).world)[old(self).turn->0],
                                ),
                            ) is Some {
                                assert(spec_cast_then_swept(
                                    world_fighters(old(self).world),
                                    old(self).log@,
                                    old(self).rng.state,
                                    old(self).turn->0,
                                    old(self).skill->0,
                                    if old(self).selected_target is Some {
                                        seq![old(self).targets@[old(self).selected_target->0 as int]]
                                    } else {
                                        old(self).targets@
                                    },
                                    m1,
                                    self.log@,
                                    self.rng,
                                ));
                                if spec_any_hostile(m1) {
                                    assert(world_fighters(self.world) == (if m1.contains_key(
                                        old(self).turn->0,
                                    ) {
                                        m1.insert(
                                            old(self).turn->0,
                                            Fighter {
                                                initiative: advanced_entry(
                                                    entry_of(
                                                        old(self).turn->0,
                                                        m1[old(self).turn->0],
                                                    ),
                                                ).initiative,
                                                ..m1[old(self).turn->0]
                                            },
                                        )
                                    } else {
                                        m1
                                    }));
                                } else {
                                    assert(forall|id: u64|
                                        world_fighters(self.world).contains_key(id)
                                            == m1.contains_key(id));
                                    assert(forall|id: u64|
                                        m1.contains_key(id) ==> world_fighters(self.world)[id]
                                            == spec_leveled(#[trigger] m1[id]));
                                }
                            }
                            if old(self).skill is Some && old(self).turn is Some {
                                assert forall|id: u64| #[trigger]
                                    world_fighters(self.world).contains_key(id) && world_fighters(
                                    self.world,
                                )[id].health == 0 implies !world_fighters(self.world)[id].hostile
                                    && world_fighters(self.world)[id].dead by {
                                    if spec_any_hostile(m1) {
                                        assert(m1.contains_key(id));
                                    } else {
                                        assert(world_fighters(self.world)[id] == spec_leveled(
                                            m1[id],
                                        ));
                                    }
                                }
                            }
                        }
                        if self.turn_is_hostile() {
                            self.current_screen = CurrentScreen::Enemy;
                            return Some(Message::Think);
                        }
                    },
                    _ => {},
                },
                CurrentScreen::Enemy => match message {
                    Message::Think => {
                        self.think();
                        self.finish_turn();
                        if self.turn_is_hostile() {
                            self.current_screen = CurrentScreen::Enemy;
                            return Some(Message::Think);
                        }
                    },
                    _ => {},
                },
                _ => {},
            },
            _ => {},
        }
        None
    }
}

} // verus!
