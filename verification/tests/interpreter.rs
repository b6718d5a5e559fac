use turnfight::store::{Fighter, Stats, Job, new_world, spawn_fighter, get_fighter, world_ids};
use turnfight::skills::{
    Skill, Effect, Damage, DamageType, DamageModifier, Condition, EffectTarget, PrimaryTarget,
    Buff, Debuff, basic_attack, potion, static_discharge,
};
use turnfight::interp::ApplyOutcome;
use turnfight::log::{Log, LogEntry};
use turnfight::dice::RandomSource;

fn fighter(name: &str, hostile: bool, health: u32, attack: u32, crit: u32, defense: u32) -> Fighter {
    Fighter {
        name: name.to_owned(),
        level: 1,
        xp: 0,
        health,
        stats: Stats { max_health: 100, attack, speed: 100, crit, evade: 0, defense },
        job: Job::NoJob,
        initiative: 0,
        hostile,
        dead: false,
        burning: 0,
        frozen: false,
        confused: false,
        blind: false,
        stunned: false,
    }
}

fn strike(multiplier: u32, hits: u8, randomized: bool) -> Skill {
    Skill {
        name: "Strike".to_owned(),
        target: PrimaryTarget::Hostile,
        effects: vec![Effect::Damage(
            Damage {
                damage_type: DamageType::Physical,
                multiplier,
                crit_multiplier: 150,
                hits,
                randomized,
                modifier: None,
            },
            EffectTarget::Target,
        )],
        on_hit: vec![],
        on_crit: vec![],
        cost: Job::NoJob,
        modifier: None,
    }
}

#[test]
fn plain_strike_scenario() {
    // attack 20, crit 0 against defense 20, health 100, multiplier 1.0:
    // ratio 1.0, no crit, 20 damage.
    let mut w = new_world();
    let caster = spawn_fighter(&mut w, fighter("a", false, 100, 20, 0, 0));
    let target = spawn_fighter(&mut w, fighter("b", true, 100, 10, 0, 20));
    let mut rng = RandomSource::from_seed(1);
    let mut log = Log::new();
    let out = strike(100, 1, false).apply(&mut w, caster, &vec![target], &mut rng, &mut log);
    assert!(matches!(out, ApplyOutcome::Done));
    assert_eq!(get_fighter(&w, target).unwrap().health, 80);
}

#[test]
fn damage_never_lowers_health_below_zero() {
    let mut w = new_world();
    let caster = spawn_fighter(&mut w, fighter("a", false, 100, 2000, 0, 0));
    let target = spawn_fighter(&mut w, fighter("b", true, 30, 10, 0, 0));
    let mut rng = RandomSource::from_seed(1);
    let mut log = Log::new();
    strike(100, 1, false).apply(&mut w, caster, &vec![target], &mut rng, &mut log);
    assert_eq!(get_fighter(&w, target).unwrap().health, 0);
}

#[test]
fn healing_never_raises_health_above_max() {
    let mut w = new_world();
    let caster = spawn_fighter(&mut w, fighter("a", false, 100, 20, 0, 0));
    let mut hurt = fighter("b", false, 90, 10, 0, 0);
    hurt.health = 90;
    let target = spawn_fighter(&mut w, hurt);
    let mut rng = RandomSource::from_seed(1);
    let mut log = Log::new();
    // The potion heals half the maximum: 90 + 50 clamps to 100.
    let out = potion().apply(&mut w, caster, &vec![target], &mut rng, &mut log);
    assert!(matches!(out, ApplyOutcome::Done));
    assert_eq!(get_fighter(&w, target).unwrap().health, 100);
}

#[test]
fn healing_from_low_health_is_exact() {
    let mut w = new_world();
    let caster = spawn_fighter(&mut w, fighter("a", false, 100, 20, 0, 0));
    let mut hurt = fighter("b", false, 10, 10, 0, 0);
    hurt.health = 10;
    let target = spawn_fighter(&mut w, hurt);
    let mut rng = RandomSource::from_seed(1);
    let mut log = Log::new();
    potion().apply(&mut w, caster, &vec![target], &mut rng, &mut log);
    assert_eq!(get_fighter(&w, target).unwrap().health, 60);
}

#[test]
fn per_target_damage_modifier_doubles_against_burning() {
    let mut w = new_world();
    let caster = spawn_fighter(&mut w, fighter("a", false, 100, 20, 0, 0));
    let mut burning = fighter("b", true, 100, 10, 0, 20);
    burning.burning = 3;
    let hot = spawn_fighter(&mut w, burning);
    let cold = spawn_fighter(&mut w, fighter("c", true, 100, 10, 0, 20));
    let mut rng = RandomSource::from_seed(1);
    let mut log = Log::new();
    let attack = basic_attack();
    attack.apply(&mut w, caster, &vec![hot], &mut rng, &mut log);
    attack.apply(&mut w, caster, &vec![cold], &mut rng, &mut log);
    assert_eq!(get_fighter(&w, hot).unwrap().health, 60);
    assert_eq!(get_fighter(&w, cold).unwrap().health, 80);
}

#[test]
fn skill_modifier_override_replaces_the_base_effects_exactly() {
    // The caster is burning, so the skill-level modifier (tested
    // caster-vs-caster) is in force: its single x3.0 strike must be used
    // instead of the base x1.0 strike, not on top of it.
    let mut w = new_world();
    let mut arsonist = fighter("a", false, 100, 20, 0, 0);
    arsonist.burning = 1;
    let caster = spawn_fighter(&mut w, arsonist);
    let target = spawn_fighter(&mut w, fighter("b", true, 100, 10, 0, 20));
    let mut skill = strike(100, 1, false);
    skill.modifier = Some(turnfight::skills::SkillModifier {
        test: Condition::TargetBurning,
        effects: Some(vec![Effect::Damage(
            Damage {
                damage_type: DamageType::Physical,
                multiplier: 300,
                crit_multiplier: 150,
                hits: 1,
                randomized: false,
                modifier: None,
            },
            EffectTarget::Target,
        )]),
        on_hit: None,
        on_crit: None,
        cost: None,
    });
    let mut rng = RandomSource::from_seed(1);
    let mut log = Log::new();
    skill.apply(&mut w, caster, &vec![target], &mut rng, &mut log);
    // Exactly the override: 60 damage, not 20 (base) and not 80 (union).
    assert_eq!(get_fighter(&w, target).unwrap().health, 40);
}

#[test]
fn randomized_hits_spend_the_whole_budget() {
    // Six randomized hits across three hostiles: exactly six damage
    // events, and nobody leaves the store (the death sweep, not the hit
    // count, governs that).
    let mut w = new_world();
    let caster = spawn_fighter(&mut w, fighter("a", false, 100, 5, 0, 0));
    spawn_fighter(&mut w, fighter("b", true, 100, 10, 0, 20));
    spawn_fighter(&mut w, fighter("c", true, 100, 10, 0, 20));
    spawn_fighter(&mut w, fighter("d", true, 100, 10, 0, 20));
    let skill = static_discharge();
    let (targets, many) = skill.get_targets(&w);
    assert!(many);
    assert_eq!(targets.len(), 3);
    let mut rng = RandomSource::from_seed(9);
    let mut log = Log::new();
    skill.apply(&mut w, caster, &targets, &mut rng, &mut log);
    let hits = log
        .get_lines()
        .iter()
        .filter(|e| matches!(e, LogEntry::DamageDone { .. }))
        .count();
    assert_eq!(hits, 6);
    assert_eq!(world_ids(&w).len(), 4);
}

#[test]
fn per_target_hits_cycle_the_whole_list() {
    let mut w = new_world();
    let caster = spawn_fighter(&mut w, fighter("a", false, 100, 10, 0, 0));
    let t1 = spawn_fighter(&mut w, fighter("b", true, 100, 10, 0, 10));
    let t2 = spawn_fighter(&mut w, fighter("c", true, 100, 10, 0, 10));
    let mut rng = RandomSource::from_seed(1);
    let mut log = Log::new();
    // Two hits per target over two targets: each loses 2 x 10.
    strike(100, 2, false).apply(&mut w, caster, &vec![t1, t2], &mut rng, &mut log);
    assert_eq!(get_fighter(&w, t1).unwrap().health, 80);
    assert_eq!(get_fighter(&w, t2).unwrap().health, 80);
}

#[test]
fn on_hit_chain_strikes_the_same_target_once_per_hit() {
    let mut w = new_world();
    let caster = spawn_fighter(&mut w, fighter("a", false, 100, 10, 0, 0));
    let target = spawn_fighter(&mut w, fighter("b", true, 100, 10, 0, 10));
    let mut skill = strike(100, 1, false);
    skill.on_hit = vec![Effect::Debuff(
        Debuff::Burning { stacks: 2, duration: 1 },
        EffectTarget::Target,
    )];
    let mut rng = RandomSource::from_seed(1);
    let mut log = Log::new();
    skill.apply(&mut w, caster, &vec![target], &mut rng, &mut log);
    let after = get_fighter(&w, target).unwrap();
    assert_eq!(after.health, 90);
    assert_eq!(after.burning, 2);
}

#[test]
fn conditional_effect_applies_only_where_the_predicate_holds() {
    let mut w = new_world();
    let caster = spawn_fighter(&mut w, fighter("a", false, 100, 10, 0, 0));
    let mut burning = fighter("b", true, 100, 10, 0, 10);
    burning.burning = 1;
    let hot = spawn_fighter(&mut w, burning);
    let cold = spawn_fighter(&mut w, fighter("c", true, 100, 10, 0, 10));
    let skill = Skill {
        name: "Fan Flames".to_owned(),
        target: PrimaryTarget::AllHostile,
        effects: vec![Effect::Conditional(
            Condition::TargetBurning,
            vec![Effect::Damage(
                Damage {
                    damage_type: DamageType::Fire,
                    multiplier: 100,
                    crit_multiplier: 150,
                    hits: 1,
                    randomized: false,
                    modifier: None,
                },
                EffectTarget::Target,
            )],
        )],
        on_hit: vec![],
        on_crit: vec![],
        cost: Job::NoJob,
        modifier: None,
    };
    let mut rng = RandomSource::from_seed(1);
    let mut log = Log::new();
    skill.apply(&mut w, caster, &vec![hot, cold], &mut rng, &mut log);
    assert_eq!(get_fighter(&w, hot).unwrap().health, 90);
    assert_eq!(get_fighter(&w, cold).unwrap().health, 100);
}

#[test]
fn unpayable_cost_rejects_the_cast_untouched() {
    let mut w = new_world();
    let mut gunner = fighter("a", false, 100, 20, 0, 0);
    gunner.job = Job::Gunslinger { ammo: 1 };
    let caster = spawn_fighter(&mut w, gunner);
    let target = spawn_fighter(&mut w, fighter("b", true, 100, 10, 0, 20));
    let mut skill = strike(100, 1, false);
    skill.cost = Job::Gunslinger { ammo: 2 };
    let mut rng = RandomSource::from_seed(1);
    let mut log = Log::new();
    let out = skill.apply(&mut w, caster, &vec![target], &mut rng, &mut log);
    assert!(matches!(out, ApplyOutcome::CantAfford));
    assert_eq!(get_fighter(&w, target).unwrap().health, 100);
    assert_eq!(get_fighter(&w, caster).unwrap().job, Job::Gunslinger { ammo: 1 });
    assert_eq!(log.get_lines().len(), 0);
}

#[test]
fn payable_cost_is_deducted_before_effects() {
    let mut w = new_world();
    let mut gunner = fighter("a", false, 100, 20, 0, 0);
    gunner.job = Job::Gunslinger { ammo: 2 };
    let caster = spawn_fighter(&mut w, gunner);
    let target = spawn_fighter(&mut w, fighter("b", true, 100, 10, 0, 20));
    let mut skill = strike(100, 1, false);
    skill.cost = Job::Gunslinger { ammo: 2 };
    let mut rng = RandomSource::from_seed(1);
    let mut log = Log::new();
    let out = skill.apply(&mut w, caster, &vec![target], &mut rng, &mut log);
    assert!(matches!(out, ApplyOutcome::Done));
    assert_eq!(get_fighter(&w, caster).unwrap().job, Job::Gunslinger { ammo: 0 });
    assert_eq!(get_fighter(&w, target).unwrap().health, 80);
}

#[test]
fn missing_caster_is_an_ordinary_outcome() {
    let mut w = new_world();
    let target = spawn_fighter(&mut w, fighter("b", true, 100, 10, 0, 20));
    let mut rng = RandomSource::from_seed(1);
    let mut log = Log::new();
    let out = strike(100, 1, false).apply(&mut w, 999_999, &vec![target], &mut rng, &mut log);
    assert!(matches!(out, ApplyOutcome::NoCaster));
    assert_eq!(get_fighter(&w, target).unwrap().health, 100);
}

#[test]
fn cleanse_strips_statuses_and_revive_restores_the_fallen() {
    let mut w = new_world();
    let caster = spawn_fighter(&mut w, fighter("a", false, 100, 20, 0, 0));
    let mut afflicted = fighter("b", false, 100, 10, 0, 0);
    afflicted.burning = 4;
    afflicted.frozen = true;
    afflicted.stunned = true;
    let sick = spawn_fighter(&mut w, afflicted);
    let mut fallen = fighter("c", false, 100, 10, 0, 0);
    fallen.health = 0;
    fallen.dead = true;
    let down = spawn_fighter(&mut w, fallen);
    let mut rng = RandomSource::from_seed(1);
    let mut log = Log::new();
    turnfight::skills::cleanse().apply(&mut w, caster, &vec![sick], &mut rng, &mut log);
    let cleaned = get_fighter(&w, sick).unwrap();
    assert_eq!(cleaned.burning, 0);
    assert!(!cleaned.frozen && !cleaned.stunned);
    turnfight::skills::revive().apply(&mut w, caster, &vec![down], &mut rng, &mut log);
    let revived = get_fighter(&w, down).unwrap();
    assert!(!revived.dead);
    assert_eq!(revived.health, 1);
}

#[test]
fn empty_target_list_is_skipped() {
    let mut w = new_world();
    let caster = spawn_fighter(&mut w, fighter("a", false, 100, 20, 0, 0));
    let mut rng = RandomSource::from_seed(1);
    let mut log = Log::new();
    let out = strike(100, 3, false).apply(&mut w, caster, &vec![], &mut rng, &mut log);
    assert!(matches!(out, ApplyOutcome::Done));
    assert_eq!(get_fighter(&w, caster).unwrap().health, 100);
}

#[test]
fn caster_sub_target_hits_the_caster() {
    let mut w = new_world();
    let caster = spawn_fighter(&mut w, fighter("a", false, 100, 20, 0, 0));
    let other = spawn_fighter(&mut w, fighter("b", true, 100, 10, 0, 20));
    let skill = Skill {
        name: "Recoil".to_owned(),
        target: PrimaryTarget::Hostile,
        effects: vec![Effect::Damage(
            Damage {
                damage_type: DamageType::Physical,
                multiplier: 100,
                crit_multiplier: 150,
                hits: 1,
                randomized: false,
                modifier: None,
            },
            EffectTarget::Caster,
        )],
        on_hit: vec![],
        on_crit: vec![],
        cost: Job::NoJob,
        modifier: None,
    };
    let mut rng = RandomSource::from_seed(1);
    let mut log = Log::new();
    skill.apply(&mut w, caster, &vec![other], &mut rng, &mut log);
    assert_eq!(get_fighter(&w, caster).unwrap().health, 80);
    assert_eq!(get_fighter(&w, other).unwrap().health, 100);
}

#[test]
fn a_certain_crit_fires_the_on_crit_chain() {
    // A caster with a full crit chance always crits: the hit is
    // multiplied by the crit multiplier and the on-crit chain burns the
    // target.
    let mut w = new_world();
    let caster = spawn_fighter(&mut w, fighter("a", false, 100, 20, 1000, 0));
    let target = spawn_fighter(&mut w, fighter("b", true, 100, 10, 0, 20));
    let mut skill = strike(100, 1, false);
    skill.on_crit = vec![Effect::Debuff(
        Debuff::Burning { stacks: 1, duration: 1 },
        EffectTarget::Target,
    )];
    let mut rng = RandomSource::from_seed(3);
    let mut log = Log::new();
    skill.apply(&mut w, caster, &vec![target], &mut rng, &mut log);
    let after = get_fighter(&w, target).unwrap();
    assert_eq!(after.health, 70);
    assert_eq!(after.burning, 1);
    let crit_logged = log
        .get_lines()
        .iter()
        .any(|e| matches!(e, LogEntry::DamageDone { crit: true, .. }));
    assert!(crit_logged);
}

#[test]
fn chains_do_not_chain_again() {
    // An on-hit strike is itself a hit, but it must not re-trigger the
    // chain: one base hit plus one chained hit, nothing more.
    let mut w = new_world();
    let caster = spawn_fighter(&mut w, fighter("a", false, 100, 10, 0, 0));
    let target = spawn_fighter(&mut w, fighter("b", true, 100, 10, 0, 10));
    let mut skill = strike(100, 1, false);
    skill.on_hit = vec![Effect::Damage(
        Damage {
            damage_type: DamageType::Physical,
            multiplier: 100,
            crit_multiplier: 150,
            hits: 1,
            randomized: false,
            modifier: None,
        },
        EffectTarget::Target,
    )];
    let mut rng = RandomSource::from_seed(3);
    let mut log = Log::new();
    skill.apply(&mut w, caster, &vec![target], &mut rng, &mut log);
    assert_eq!(get_fighter(&w, target).unwrap().health, 80);
    let hits = log
        .get_lines()
        .iter()
        .filter(|e| matches!(e, LogEntry::DamageDone { .. }))
        .count();
    assert_eq!(hits, 2);
}

#[test]
fn seeded_casts_replay_identically() {
    let mut healths = Vec::new();
    let mut logs = Vec::new();
    for _ in 0..2 {
        let mut w = new_world();
        let caster = spawn_fighter(&mut w, fighter("a", false, 100, 20, 500, 0));
        let mut hostiles = Vec::new();
        for name in ["b", "c", "d"] {
            hostiles.push(spawn_fighter(&mut w, fighter(name, true, 100, 10, 0, 20)));
        }
        let mut rng = RandomSource::from_seed(1234);
        let mut log = Log::new();
        static_discharge().apply(&mut w, caster, &hostiles, &mut rng, &mut log);
        healths.push(
            hostiles
                .iter()
                .map(|h| get_fighter(&w, *h).unwrap().health)
                .collect::<Vec<_>>(),
        );
        logs.push(log.get_lines().clone());
    }
    assert_eq!(healths[0], healths[1]);
    assert_eq!(logs[0], logs[1]);
}

#[test]
fn crit_endpoints_hold_under_the_system_source() {
    // Zero crit chance deals exactly the non-crit amount and a full
    // chance exactly the crit amount, whatever the process generator
    // draws.
    let mut w = new_world();
    let timid = spawn_fighter(&mut w, fighter("a", false, 100, 20, 0, 0));
    let fierce = spawn_fighter(&mut w, fighter("b", false, 100, 20, 1000, 0));
    let t1 = spawn_fighter(&mut w, fighter("c", true, 100, 10, 0, 20));
    let t2 = spawn_fighter(&mut w, fighter("d", true, 100, 10, 0, 20));
    let mut rng = RandomSource::system();
    let mut log = Log::new();
    strike(100, 1, false).apply(&mut w, timid, &vec![t1], &mut rng, &mut log);
    assert_eq!(get_fighter(&w, t1).unwrap().health, 80);
    strike(100, 1, false).apply(&mut w, fierce, &vec![t2], &mut rng, &mut log);
    assert_eq!(get_fighter(&w, t2).unwrap().health, 70);
}
