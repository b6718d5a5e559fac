use turnfight::store::{Fighter, Stats, Job, new_world, spawn_fighter, get_fighter};
use turnfight::sched::{refresh_schedule, advance_turn, InitiativeInfo, INITIATIVE_SCALE};

fn fighter(name: &str, hostile: bool, speed: u32, initiative: u64) -> Fighter {
    Fighter {
        name: name.to_owned(),
        level: 1,
        xp: 0,
        health: 100,
        stats: Stats { max_health: 100, attack: 20, speed, crit: 0, evade: 0, defense: 0 },
        job: Job::NoJob,
        initiative,
        hostile,
        dead: false,
        burning: 0,
        frozen: false,
        confused: false,
        blind: false,
        stunned: false,
    }
}

fn assert_in_order(a: &InitiativeInfo, b: &InitiativeInfo) {
    // Non-decreasing initiative; hostile before friendly on an exact
    // tie; ascending entity id among same-side ties.
    assert!(a.initiative <= b.initiative);
    if a.initiative == b.initiative {
        if a.hostile != b.hostile {
            assert!(a.hostile && !b.hostile);
        } else {
            assert!(a.entity < b.entity);
        }
    }
}

#[test]
fn consumption_yields_non_decreasing_initiative() {
    let mut w = new_world();
    spawn_fighter(&mut w, fighter("a", false, 100, 10_000));
    spawn_fighter(&mut w, fighter("b", true, 150, 6_666));
    spawn_fighter(&mut w, fighter("c", true, 120, 8_333));
    spawn_fighter(&mut w, fighter("d", false, 200, 5_000));
    let mut schedule = refresh_schedule(&w);
    let mut previous: Option<InitiativeInfo> = None;
    for _ in 0..20 {
        let entry = schedule.take_next().expect("schedule never runs dry");
        if let Some(p) = previous {
            assert_in_order(&p, &entry);
        }
        previous = Some(entry);
    }
}

#[test]
fn exact_tie_puts_hostile_first_then_lower_id() {
    let mut w = new_world();
    let friendly = spawn_fighter(&mut w, fighter("a", false, 100, 500));
    let hostile_late = spawn_fighter(&mut w, fighter("b", true, 100, 500));
    let hostile_early = spawn_fighter(&mut w, fighter("c", true, 100, 500));
    let mut schedule = refresh_schedule(&w);
    let first = schedule.take_next().unwrap();
    let second = schedule.take_next().unwrap();
    let third = schedule.take_next().unwrap();
    assert!(first.hostile && second.hostile && !third.hostile);
    assert_eq!(first.entity, hostile_late.min(hostile_early));
    assert_eq!(second.entity, hostile_late.max(hostile_early));
    assert_eq!(third.entity, friendly);
}

#[test]
fn peek_does_not_consume() {
    let mut w = new_world();
    spawn_fighter(&mut w, fighter("a", false, 100, 100));
    let mut schedule = refresh_schedule(&w);
    let peeked = schedule.peek().unwrap();
    let taken = schedule.take_next().unwrap();
    assert_eq!(peeked, taken);
}

#[test]
fn advance_turn_moves_only_the_actor_by_its_own_step() {
    let mut w = new_world();
    let a = spawn_fighter(&mut w, fighter("a", false, 100, 1_000));
    let b = spawn_fighter(&mut w, fighter("b", true, 125, 2_000));
    let c = spawn_fighter(&mut w, fighter("c", true, 200, 3_000));
    let before_b = get_fighter(&w, b).unwrap();
    let before_c = get_fighter(&w, c).unwrap();
    advance_turn(a, &mut w);
    let after_a = get_fighter(&w, a).unwrap();
    let after_b = get_fighter(&w, b).unwrap();
    let after_c = get_fighter(&w, c).unwrap();
    assert_eq!(after_a.initiative, 1_000 + INITIATIVE_SCALE / 100);
    assert_eq!(after_b.initiative, before_b.initiative);
    assert_eq!(after_c.initiative, before_c.initiative);
    assert_eq!(after_b.health, before_b.health);
    assert_eq!(after_c.health, before_c.health);
}

#[test]
fn advance_turn_tolerates_a_vanished_actor() {
    let mut w = new_world();
    let a = spawn_fighter(&mut w, fighter("a", false, 100, 1_000));
    let schedule = advance_turn(a.wrapping_add(12345), &mut w);
    assert_eq!(get_fighter(&w, a).unwrap().initiative, 1_000);
    assert_eq!(schedule.peek().unwrap().entity, a);
}

#[test]
fn dead_and_zero_health_combatants_are_not_scheduled() {
    let mut w = new_world();
    let alive = spawn_fighter(&mut w, fighter("a", false, 100, 1_000));
    let mut downed = fighter("b", true, 100, 1);
    downed.health = 0;
    spawn_fighter(&mut w, downed);
    let mut marked = fighter("c", false, 100, 2);
    marked.dead = true;
    spawn_fighter(&mut w, marked);
    let mut schedule = refresh_schedule(&w);
    let only = schedule.take_next().unwrap();
    assert_eq!(only.entity, alive);
    assert_eq!(schedule.take_next().unwrap().entity, alive);
}

#[test]
fn zero_speed_is_clamped_on_entry() {
    let mut w = new_world();
    let slow = spawn_fighter(&mut w, fighter("a", false, 0, 7));
    let mut schedule = refresh_schedule(&w);
    let entry = schedule.take_next().unwrap();
    assert_eq!(entry.entity, slow);
    assert_eq!(entry.speed, 1);
    // The reinserted entry advanced by a whole turn, not by a division
    // by zero.
    let again = schedule.take_next().unwrap();
    assert_eq!(again.initiative, 7 + INITIATIVE_SCALE);
}

#[test]
fn the_preview_matches_what_consumption_hands_out() {
    let mut w = new_world();
    spawn_fighter(&mut w, fighter("a", false, 100, 3_000));
    spawn_fighter(&mut w, fighter("b", true, 150, 1_000));
    let mut schedule = refresh_schedule(&w);
    let first_previewed = schedule.upcoming()[0];
    assert_eq!(schedule.take_next().unwrap(), first_previewed);
}
