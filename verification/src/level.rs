//! The stat/leveling subsystem: experience thresholds and the derived
//! stats a combatant gains on levelling, run at combat start and after
//! combat ends.

use vstd::prelude::*;
use crate::store::{Fighter, Stats, world_fighters, world_ids, get_fighter, put_fighter};

verus! {

/// The experience needed to rise past each level; levelling stops at
/// the top of the chart.
pub open spec fn spec_level_threshold(level: u8) -> u32 {
    if level == 0 {
        0
    } else if level == 1 {
        100
    } else if level == 2 {
        300
    } else if level == 3 {
        600
    } else if level == 4 {
        1000
    } else if level == 5 {
        1500
    } else if level == 6 {
        2100
    } else if level == 7 {
        2800
    } else if level == 8 {
        3600
    } else if level == 9 {
        4500
    } else {
        u32::MAX
    }
}

/// See [`spec_level_threshold`].
pub fn level_threshold(level: u8) -> (r: u32)
    ensures
        r == spec_level_threshold(level),
{
    match level {
        0 => 0,
        1 => 100,
        2 => 300,
        3 => 600,
        4 => 1000,
        5 => 1500,
        6 => 2100,
        7 => 2800,
        8 => 3600,
        9 => 4500,
        _ => u32::MAX,
    }
}

/// The derived stats at a level: health, attack and speed grow linearly,
/// crit chance by 50 per-mille a level; evade and defense are not
/// derived from the level.
pub open spec fn spec_stats_at(level: u8, s: Stats) -> Stats {
    Stats {
        max_health: (80 + 20 * level as u32) as u32,
        attack: (16 + 4 * level as u32) as u32,
        speed: (100 + 20 * level as u32) as u32,
        crit: (100 + 50 * level as u32) as u32,
        ..s
    }
}

/// What levelling does to one combatant: one level gained whenever its
/// experience reaches the threshold of its current level and the level
/// is still on the chart, with stats recomputed and health restored to
/// the new maximum.
pub open spec fn spec_leveled(f: Fighter) -> Fighter {
    if f.xp >= spec_level_threshold(f.level) && f.level < 10 {
        let stats = spec_stats_at((f.level + 1) as u8, f.stats);
        Fighter { level: (f.level + 1) as u8, stats, health: stats.max_health, ..f }
    } else {
        f
    }
}

/// Run one levelling pass over every combatant in the store.
pub fn level_up(w: &mut hecs::World)
    ensures
        forall|id: u64|
            world_fighters(*final(w)).contains_key(id) == world_fighters(*old(w)).contains_key(id),
        forall|id: u64|
            world_fighters(*old(w)).contains_key(id) ==> world_fighters(*final(w))[id]
                == spec_leveled(#[trigger] world_fighters(*old(w))[id]),
{
    let ids = world_ids(w);
    let mut i: usize = 0;
    while i < ids.len()
        invariant
            i <= ids@.len(),
            ids@.no_duplicates(),
            forall|id: u64| #[trigger]
                ids@.contains(id) <==> world_fighters(*old(w)).contains_key(id),
            forall|id: u64|
                world_fighters(*w).contains_key(id) == world_fighters(*old(w)).contains_key(id),
            forall|j: int|
                0 <= j < i ==> world_fighters(*w)[#[trigger] ids@[j]] == spec_leveled(
                    world_fighters(*old(w))[ids@[j]],
                ),
            forall|id: u64|
                world_fighters(*old(w)).contains_key(id) && !(exists|j: int|
                    0 <= j < i && ids@[j] == id) ==> world_fighters(*w)[id] == world_fighters(
                    *old(w),
                )[id],
        decreases ids@.len() - i,
    {
        let id = ids[i];
        proof {
            assert(ids@.contains(ids@[i as int]));
        }
        match get_fighter(w, id) {
            Some(f) => {
                let threshold = level_threshold(f.level);
                if f.xp >= threshold && f.level < 10 {
                    let level = f.level + 1;
                    let stats = Stats {
                        max_health: 80 + 20 * level as u32,
                        attack: 16 + 4 * level as u32,
                        speed: 100 + 20 * level as u32,
                        crit: 100 + 50 * level as u32,
                        ..f.stats
                    };
                    let leveled = Fighter { level, stats, health: stats.max_health, ..f };
                    put_fighter(w, id, leveled);
                }
            },
            None => {},
        }
        i = i + 1;
    }
    proof {
        assert forall|id: u64|
            world_fighters(*old(w)).contains_key(id) implies world_fighters(*w)[id]
            == spec_leveled(world_fighters(*old(w))[id]) by {
            assert(ids@.contains(id));
            let j = choose|j: int| 0 <= j < ids@.len() && ids@[j] == id;
        }
    }
}

} // verus!
