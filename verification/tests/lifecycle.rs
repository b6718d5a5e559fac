use turnfight::combat::{App, Advantage, CurrentScreen, GameState, Message};
use turnfight::store::{Fighter, Stats, Job, get_fighter, put_fighter, spawn_fighter, world_ids};
use turnfight::sched::INITIATIVE_SCALE;
use turnfight::log::{Log, LogEntry};
use turnfight::level::level_up;
use turnfight::dice::RandomSource;

fn npc(name: &str, hostile: bool, health: u32) -> Fighter {
    Fighter {
        name: name.to_owned(),
        level: 1,
        xp: 0,
        health,
        stats: Stats { max_health: 100, attack: 20, speed: 120, crit: 0, evade: 0, defense: 0 },
        job: Job::NoJob,
        initiative: 0,
        hostile,
        dead: false,
        burning: 0,
        frozen: false,
        confused: false,
        blind: false,
        stunned: false,
    }
}

#[test]
fn new_game_spawns_a_levelled_party() {
    let app = App::new();
    let ids = world_ids(&app.world);
    assert_eq!(ids.len(), 3);
    for id in ids {
        let f = get_fighter(&app.world, id).unwrap();
        assert!(!f.hostile);
        assert_eq!(f.level, 1);
        assert_eq!(f.stats.max_health, 100);
        assert_eq!(f.stats.attack, 20);
        assert_eq!(f.stats.speed, 120);
        assert_eq!(f.stats.crit, 150);
        assert_eq!(f.health, 100);
    }
}

#[test]
fn start_combat_seeds_initiative_and_doubles_the_disadvantaged_side() {
    let mut app = App::new();
    app.start_combat(Advantage::Enemy);
    let step = INITIATIVE_SCALE / 120;
    for id in world_ids(&app.world) {
        let f = get_fighter(&app.world, id).unwrap();
        if f.hostile {
            assert_eq!(f.initiative, step);
        } else {
            assert_eq!(f.initiative, 2 * step);
        }
    }
    // With the party delayed, a hostile is first on turn.
    let turn = app.turn.expect("someone is on turn");
    assert!(get_fighter(&app.world, turn).unwrap().hostile);
}

#[test]
fn neutral_start_seeds_everyone_alike() {
    let mut app = App::new();
    app.start_combat(Advantage::Neutral);
    let step = INITIATIVE_SCALE / 120;
    for id in world_ids(&app.world) {
        assert_eq!(get_fighter(&app.world, id).unwrap().initiative, step);
    }
    // Everyone ties, so a hostile acts first.
    let turn = app.turn.expect("someone is on turn");
    assert!(get_fighter(&app.world, turn).unwrap().hostile);
}

#[test]
fn death_sweep_despawns_hostiles_and_marks_party() {
    let mut app = App::new();
    let downed_hostile = spawn_fighter(&mut app.world, npc("rat", true, 0));
    let live_hostile = spawn_fighter(&mut app.world, npc("mutant", true, 50));
    let party_ids = world_ids(&app.world);
    let downed_party = party_ids[0];
    let mut f = get_fighter(&app.world, downed_party).unwrap();
    f.health = 0;
    put_fighter(&mut app.world, downed_party, f);
    app.check_dead();
    assert!(get_fighter(&app.world, downed_hostile).is_none());
    assert!(get_fighter(&app.world, live_hostile).is_some());
    let marked = get_fighter(&app.world, downed_party).unwrap();
    assert!(marked.dead);
    assert_eq!(marked.health, 0);
    // The fallen no longer appear among any skill's candidates.
    let (candidates, _) = turnfight::skills::potion().get_targets(&app.world);
    assert!(!candidates.contains(&downed_hostile));
    assert!(!candidates.contains(&downed_party));
    assert!(candidates.contains(&live_hostile));
}

#[test]
fn mid_resolution_death_clamps_the_selection() {
    // Selected index 2 of 3; the combatant at index 1 dies; the list
    // shrinks to 2 and the selection moves to the last valid slot.
    let mut app = App::new();
    app.skill = Some(turnfight::skills::potion());
    let (targets, _) = turnfight::skills::potion().get_targets(&app.world);
    assert_eq!(targets.len(), 3);
    let casualty = targets[1];
    app.targets = targets;
    app.selected_target = Some(2);
    let mut f = get_fighter(&app.world, casualty).unwrap();
    f.health = 0;
    put_fighter(&mut app.world, casualty, f);
    app.check_dead();
    assert_eq!(app.targets.len(), 2);
    assert_eq!(app.selected_target, Some(1));
    assert!(!app.targets.contains(&casualty));
}

#[test]
fn sweep_clears_the_selection_when_nobody_is_left() {
    let mut app = App::new();
    let rat = spawn_fighter(&mut app.world, npc("rat", true, 0));
    app.skill = Some(turnfight::skills::basic_attack());
    app.targets = vec![rat];
    app.selected_target = Some(0);
    app.check_dead();
    assert_eq!(app.targets.len(), 0);
    assert_eq!(app.selected_target, None);
}

#[test]
fn finish_turn_without_hostiles_ends_combat() {
    let mut app = App::new();
    app.game_state = GameState::Combat;
    app.finish_turn();
    assert!(matches!(app.game_state, GameState::Overworld));
}

#[test]
fn finish_turn_advances_the_actor_and_hands_over_the_turn() {
    let mut app = App::new();
    app.start_combat(Advantage::Friendly);
    let actor = app.turn.expect("someone is on turn");
    let before = get_fighter(&app.world, actor).unwrap().initiative;
    app.finish_turn();
    let after = get_fighter(&app.world, actor).unwrap().initiative;
    assert_eq!(after, before + INITIATIVE_SCALE / 120);
    assert!(app.turn.is_some());
    assert!(matches!(app.current_screen, CurrentScreen::Main));
}

#[test]
fn quit_asks_for_confirmation_first() {
    let mut app = App::new();
    app.start_combat(Advantage::Friendly);
    assert_eq!(app.update(Message::Quit), None);
    assert!(matches!(app.current_screen, CurrentScreen::Exiting));
    assert_eq!(app.update(Message::Quit), Some(Message::Quit));
}

#[test]
fn cancel_returns_to_the_previous_screen() {
    let mut app = App::new();
    app.start_combat(Advantage::Friendly);
    app.update(Message::Quit);
    assert!(matches!(app.current_screen, CurrentScreen::Exiting));
    app.update(Message::Cancel);
    assert!(matches!(app.current_screen, CurrentScreen::Main));
}

#[test]
fn selecting_melee_opens_targeting_at_the_hostiles() {
    let mut app = App::new();
    app.start_combat(Advantage::Friendly);
    app.action_cursor = 1;
    app.update(Message::Select);
    assert!(matches!(app.current_screen, CurrentScreen::Target));
    assert_eq!(app.targets.len(), 3);
    assert_eq!(app.selected_target, Some(0));
}

#[test]
fn log_drops_the_oldest_beyond_capacity() {
    let mut log = Log::new();
    for i in 0..150u32 {
        log.write(LogEntry::Healed { target: 1, amount: i });
    }
    let lines = log.get_lines();
    assert_eq!(lines.len(), 100);
    assert_eq!(lines[0], LogEntry::Healed { target: 1, amount: 50 });
    assert_eq!(lines[99], LogEntry::Healed { target: 1, amount: 149 });
}

#[test]
fn seeded_random_sources_replay_identically() {
    let mut a = RandomSource::from_seed(42);
    let mut b = RandomSource::from_seed(42);
    for _ in 0..32 {
        assert_eq!(a.next_below(1000), b.next_below(1000));
    }
    let mut c = RandomSource::from_seed(43);
    let drew_differently = (0..32).any(|_| a.next_below(1000) != c.next_below(1000));
    assert!(drew_differently);
}

#[test]
fn levelling_applies_the_derived_stat_formulas() {
    let mut app = App::new();
    let ids = world_ids(&app.world);
    let hero = ids[0];
    let mut f = get_fighter(&app.world, hero).unwrap();
    f.xp = 100;
    put_fighter(&mut app.world, hero, f);
    level_up(&mut app.world);
    let after = get_fighter(&app.world, hero).unwrap();
    assert_eq!(after.level, 2);
    assert_eq!(after.stats.max_health, 120);
    assert_eq!(after.stats.attack, 24);
    assert_eq!(after.stats.speed, 140);
    assert_eq!(after.stats.crit, 200);
    assert_eq!(after.health, 120);
}

#[test]
fn a_whole_automated_enemy_turn_runs_to_completion() {
    let mut app = App::new();
    app.rng = RandomSource::from_seed(7);
    app.start_combat(Advantage::Enemy);
    // The delayed party means a hostile opens; drive its automatic turn.
    assert!(matches!(app.game_state, GameState::Combat));
    app.current_screen = CurrentScreen::Enemy;
    let mut guard = 0;
    let mut message = Message::Think;
    while let Some(next) = app.update(message) {
        assert!(matches!(next, Message::Think));
        message = next;
        guard += 1;
        assert!(guard < 10, "the enemy side hands the turn back eventually");
    }
    // Somebody was attacked and it ended up in the log.
    let damage_seen = app
        .log
        .get_lines()
        .iter()
        .any(|e| matches!(e, LogEntry::DamageDone { .. }));
    assert!(damage_seen);
}

#[test]
fn the_action_menu_has_its_three_rows() {
    let app = App::new();
    let items = app.action_items();
    assert_eq!(items.len(), 3);
    assert_eq!(items[0].text, "Skill");
    assert_eq!(items[1].text, "Melee");
    assert_eq!(items[2].text, "Item");
}

#[test]
fn the_system_random_source_stays_below_its_bound() {
    let mut rng = RandomSource::system();
    for _ in 0..200 {
        assert!(rng.next_below(7) < 7);
    }
}

#[test]
fn combat_end_runs_the_levelling_pass() {
    let mut app = App::new();
    let ids = world_ids(&app.world);
    let hero = ids[0];
    let mut f = get_fighter(&app.world, hero).unwrap();
    f.xp = 100;
    put_fighter(&mut app.world, hero, f);
    // No hostiles in the store: the turn ends combat and levels up.
    app.finish_turn();
    assert!(matches!(app.game_state, GameState::Overworld));
    assert_eq!(get_fighter(&app.world, hero).unwrap().level, 2);
}
