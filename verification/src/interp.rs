//! The effect interpreter: the formulas one hit obeys, the resource
//! economy of skill costs, and the machinery that executes a skill's
//! effect list against the store.
//!
//! All multipliers are fixed-point percentages, so every amount below is
//! exact integer arithmetic.  For a seeded random source the run specs
//! (`spec_apply_run` and the functions under it) pin a whole cast
//! exactly: the store, the event log and the generator state after it
//! are functions of those before it.

use vstd::prelude::*;
use vstd::arithmetic::div_mod::{lemma_div_by_multiple, lemma_div_denominator, lemma_div_is_ordered};
use crate::store::{Fighter, Job, world_fighters, get_fighter, put_fighter};
use crate::skills::{
    Buff, Damage, DamageType, Debuff, Effect, EffectTarget, PrimaryTarget, Skill, condition_holds,
    spec_condition_holds, spec_modified_damage,
};
use crate::log::{Log, LogEntry, after_write, spec_log_extends, lemma_log_extends_refl,
    lemma_log_extends_write, lemma_log_extends_some_write, lemma_log_extends_trans};
use crate::dice::{RandomSource, lcg_next, seeded_pick};
use crate::target::{candidates, spec_candidate_list, spec_candidates, lemma_candidates_are};

verus! {

/// The damage one non-healing hit deals: the attacker's attack scaled
/// by the offense/defense ratio clamped into `[0.5, 1.0]`, the effect
/// multiplier, and — on a critical hit — the crit multiplier, as one
/// product with a single final floor.  A defenseless target (defense 0)
/// takes the full ratio.
pub open spec fn spec_damage_amount(
    attack: u32,
    defense: u32,
    multiplier: u32,
    crit_multiplier: u32,
    crit: bool,
) -> int {
    let c: int = if crit {
        crit_multiplier as int
    } else {
        100
    };
    if defense == 0 || attack >= defense {
        attack * multiplier * c / 10000
    } else if 2 * attack <= defense {
        attack * multiplier * c / 20000
    } else {
        attack * attack * multiplier * c / (defense * 10000)
    }
}

/// Law (damage-formula boundary): equal attack and defense give a ratio
/// multiplier of exactly 1.0 — a non-crit hit deals
/// floor(attack·multiplier%); attack at most half the defense clamps the
/// ratio to exactly 0.5 — a non-crit hit deals half that, floored once.
pub proof fn lemma_ratio_boundary(attack: u32, defense: u32, multiplier: u32, crit_multiplier: u32)
    ensures
        attack == defense && defense > 0 ==> spec_damage_amount(
            attack,
            defense,
            multiplier,
            crit_multiplier,
            false,
        ) == attack * multiplier / 100,
        defense > 0 && 2 * attack <= defense ==> spec_damage_amount(
            attack,
            defense,
            multiplier,
            crit_multiplier,
            false,
        ) == attack * multiplier / 200,
{
    let x = attack * multiplier;
    vstd::arithmetic::mul::lemma_mul_nonnegative(attack as int, multiplier as int);
    lemma_div_by_multiple(x, 100);
    if attack == defense && defense > 0 {
        lemma_div_denominator(x * 100, 100, 100);
        assert((x * 100 / 100) / 100 == x * 100 / 10000);
        assert(x * 100 / 100 == x);
    }
    if defense > 0 && 2 * attack <= defense {
        lemma_div_denominator(x * 100, 100, 200);
        assert((x * 100 / 100) / 200 == x * 100 / 20000);
        assert(x * 100 / 100 == x);
    }
}

/// A target's health after taking `dmg`: subtraction never goes below
/// zero.
pub open spec fn spec_hit_health(health: u32, dmg: int) -> u32 {
    if dmg >= health {
        0u32
    } else {
        (health - dmg) as u32
    }
}

/// The amount one healing hit restores: a fraction of the target's own
/// maximum health.
pub open spec fn spec_heal_amount(max_health: u32, multiplier: u32) -> int {
    max_health * multiplier / 100
}

/// A target's health after healing: clamped to its maximum.
pub open spec fn spec_healed_health(health: u32, max_health: u32, multiplier: u32) -> u32 {
    let h = health + spec_heal_amount(max_health, multiplier);
    if h >= max_health {
        max_health
    } else {
        h as u32
    }
}

/// Law: healing never raises health above the maximum and never lowers
/// it; damage never lowers health below zero and never raises it.
pub proof fn lemma_health_bounds(health: u32, max_health: u32, multiplier: u32, dmg: int)
    requires
        health <= max_health,
        0 <= dmg,
    ensures
        0 <= spec_hit_health(health, dmg) <= health,
        health <= spec_healed_health(health, max_health, multiplier) <= max_health,
{
    lemma_div_is_ordered(0, max_health * multiplier, 100);
}

/// See [`spec_damage_amount`].
pub fn damage_amount(
    attack: u32,
    defense: u32,
    multiplier: u32,
    crit_multiplier: u32,
    crit: bool,
) -> (r: u128)
    ensures
        r == spec_damage_amount(attack, defense, multiplier, crit_multiplier, crit),
{
    let a = attack as u128;
    let m = multiplier as u128;
    let c: u128 = if crit {
        crit_multiplier as u128
    } else {
        100
    };
    proof {
        assert(a * m <= 0xffff_ffff * 0xffff_ffff) by (nonlinear_arith)
            requires
                a <= 0xffff_ffffu128,
                m <= 0xffff_ffffu128,
        ;
        assert((a * m) * c <= 0xffff_ffff * 0xffff_ffff * 0xffff_ffff) by (nonlinear_arith)
            requires
                a * m <= 0xffff_ffff * 0xffff_ffff,
                c <= 0xffff_ffffu128,
        ;
        assert(a * a <= 0xffff_ffff * 0xffff_ffff) by (nonlinear_arith)
            requires
                a <= 0xffff_ffffu128,
        ;
        assert((a * a) * m <= 0xffff_ffff * 0xffff_ffff * 0xffff_ffff) by (nonlinear_arith)
            requires
                a * a <= 0xffff_ffff * 0xffff_ffff,
                m <= 0xffff_ffffu128,
        ;
        assert((a * a * m) * c <= 0xffff_ffff * 0xffff_ffff * 0xffff_ffff * 0xffff_ffff)
            by (nonlinear_arith)
            requires
                a * a * m <= 0xffff_ffff * 0xffff_ffff * 0xffff_ffff,
                c <= 0xffff_ffffu128,
        ;
    }
    if defense == 0 || attack >= defense {
        a * m * c / 10000
    } else if 2 * (attack as u64) <= defense as u64 {
        a * m * c / 20000
    } else {
        a * a * m * c / (defense as u128 * 10000)
    }
}

/// Saturating add of two resource counters.
pub open spec fn spec_sat_add_u8(a: u8, b: u8) -> u8 {
    if a + b > 255 {
        255u8
    } else {
        (a + b) as u8
    }
}

/// Saturating subtract of two resource counters.
pub open spec fn spec_sat_sub_u8(a: u8, b: u8) -> u8 {
    if a >= b {
        (a - b) as u8
    } else {
        0u8
    }
}

/// What gaining a resource does to a pool: amounts add (saturating)
/// when the variants match; a mismatched gain changes nothing.
pub open spec fn spec_job_gain(j: Job, g: Job) -> Job {
    match (j, g) {
        (Job::Gunslinger { ammo: a }, Job::Gunslinger { ammo: b }) => Job::Gunslinger {
            ammo: spec_sat_add_u8(a, b),
        },
        (Job::Netrunner { ram: r1, heat: h1 }, Job::Netrunner { ram: r2, heat: h2 }) => Job::Netrunner {
            ram: spec_sat_add_u8(r1, r2),
            heat: spec_sat_add_u8(h1, h2),
        },
        (Job::Technopriest { prayers: a }, Job::Technopriest { prayers: b }) => Job::Technopriest {
            prayers: spec_sat_add_u8(a, b),
        },
        (Job::Clairvoyant { sun: s1, moon: m1 }, Job::Clairvoyant { sun: s2, moon: m2 }) => Job::Clairvoyant {
            sun: spec_sat_add_u8(s1, s2),
            moon: spec_sat_add_u8(m1, m2),
        },
        (Job::Nanovampire { battery: a }, Job::Nanovampire { battery: b }) => Job::Nanovampire {
            battery: spec_sat_add_u8(a, b),
        },
        _ => j,
    }
}

/// What draining a resource does to a pool: amounts subtract
/// (saturating at zero) when the variants match; a mismatched drain
/// changes nothing.
pub open spec fn spec_job_drain(j: Job, d: Job) -> Job {
    match (j, d) {
        (Job::Gunslinger { ammo: a }, Job::Gunslinger { ammo: b }) => Job::Gunslinger {
            ammo: spec_sat_sub_u8(a, b),
        },
        (Job::Netrunner { ram: r1, heat: h1 }, Job::Netrunner { ram: r2, heat: h2 }) => Job::Netrunner {
            ram: spec_sat_sub_u8(r1, r2),
            heat: spec_sat_sub_u8(h1, h2),
        },
        (Job::Technopriest { prayers: a }, Job::Technopriest { prayers: b }) => Job::Technopriest {
            prayers: spec_sat_sub_u8(a, b),
        },
        (Job::Clairvoyant { sun: s1, moon: m1 }, Job::Clairvoyant { sun: s2, moon: m2 }) => Job::Clairvoyant {
            sun: spec_sat_sub_u8(s1, s2),
            moon: spec_sat_sub_u8(m1, m2),
        },
        (Job::Nanovampire { battery: a }, Job::Nanovampire { battery: b }) => Job::Nanovampire {
            battery: spec_sat_sub_u8(a, b),
        },
        _ => j,
    }
}

/// Whether a pool can pay a cost, and what remains when it can: a
/// costless skill is always payable; otherwise the pool's variant must
/// match and every amount must cover the cost's, which is deducted.
pub open spec fn spec_pay_cost(j: Job, cost: Job) -> Option<Job> {
    match cost {
        Job::NoJob => Some(j),
        Job::Gunslinger { ammo: c } => match j {
            Job::Gunslinger { ammo: a } => if a >= c {
                Some(Job::Gunslinger { ammo: (a - c) as u8 })
            } else {
                None
            },
            _ => None,
        },
        Job::Netrunner { ram: cr, heat: ch } => match j {
            Job::Netrunner { ram: a, heat: h } => if a >= cr && h >= ch {
                Some(Job::Netrunner { ram: (a - cr) as u8, heat: (h - ch) as u8 })
            } else {
                None
            },
            _ => None,
        },
        Job::Technopriest { prayers: c } => match j {
            Job::Technopriest { prayers: a } => if a >= c {
                Some(Job::Technopriest { prayers: (a - c) as u8 })
            } else {
                None
            },
            _ => None,
        },
        Job::Clairvoyant { sun: cs, moon: cm } => match j {
            Job::Clairvoyant { sun: s, moon: m } => if s >= cs && m >= cm {
                Some(Job::Clairvoyant { sun: (s - cs) as u8, moon: (m - cm) as u8 })
            } else {
                None
            },
            _ => None,
        },
        Job::Nanovampire { battery: c } => match j {
            Job::Nanovampire { battery: a } => if a >= c {
                Some(Job::Nanovampire { battery: (a - c) as u8 })
            } else {
                None
            },
            _ => None,
        },
    }
}

/// See [`spec_job_gain`].
pub fn job_gain(j: Job, g: Job) -> (r: Job)
    ensures
        r == spec_job_gain(j, g),
{
    match (j, g) {
        (Job::Gunslinger { ammo: a }, Job::Gunslinger { ammo: b }) => Job::Gunslinger {
            ammo: a.saturating_add(b),
        },
        (Job::Netrunner { ram: r1, heat: h1 }, Job::Netrunner { ram: r2, heat: h2 }) => Job::Netrunner {
            ram: r1.saturating_add(r2),
            heat: h1.saturating_add(h2),
        },
        (Job::Technopriest { prayers: a }, Job::Technopriest { prayers: b }) => Job::Technopriest {
            prayers: a.saturating_add(b),
        },
        (Job::Clairvoyant { sun: s1, moon: m1 }, Job::Clairvoyant { sun: s2, moon: m2 }) => Job::Clairvoyant {
            sun: s1.saturating_add(s2),
            moon: m1.saturating_add(m2),
        },
        (Job::Nanovampire { battery: a }, Job::Nanovampire { battery: b }) => Job::Nanovampire {
            battery: a.saturating_add(b),
        },
        _ => j,
    }
}

/// See [`spec_job_drain`].
pub fn job_drain(j: Job, d: Job) -> (r: Job)
    ensures
        r == spec_job_drain(j, d),
{
    match (j, d) {
        (Job::Gunslinger { ammo: a }, Job::Gunslinger { ammo: b }) => Job::Gunslinger {
            ammo: a.saturating_sub(b),
        },
        (Job::Netrunner { ram: r1, heat: h1 }, Job::Netrunner { ram: r2, heat: h2 }) => Job::Netrunner {
            ram: r1.saturating_sub(r2),
            heat: h1.saturating_sub(h2),
        },
        (Job::Technopriest { prayers: a }, Job::Technopriest { prayers: b }) => Job::Technopriest {
            prayers: a.saturating_sub(b),
        },
        (Job::Clairvoyant { sun: s1, moon: m1 }, Job::Clairvoyant { sun: s2, moon: m2 }) => Job::Clairvoyant {
            sun: s1.saturating_sub(s2),
            moon: m1.saturating_sub(m2),
        },
        (Job::Nanovampire { battery: a }, Job::Nanovampire { battery: b }) => Job::Nanovampire {
            battery: a.saturating_sub(b),
        },
        _ => j,
    }
}

/// See [`spec_pay_cost`].
pub fn pay_cost(j: Job, cost: Job) -> (r: Option<Job>)
    ensures
        r == spec_pay_cost(j, cost),
{
    match cost {
        Job::NoJob => Some(j),
        Job::Gunslinger { ammo: c } => match j {
            Job::Gunslinger { ammo: a } => if a >= c {
                Some(Job::Gunslinger { ammo: a - c })
            } else {
                None
            },
            _ => None,
        },
        Job::Netrunner { ram: cr, heat: ch } => match j {
            Job::Netrunner { ram: a, heat: h } => if a >= cr && h >= ch {
                Some(Job::Netrunner { ram: a - cr, heat: h - ch })
            } else {
                None
            },
            _ => None,
        },
        Job::Technopriest { prayers: c } => match j {
            Job::Technopriest { prayers: a } => if a >= c {
                Some(Job::Technopriest { prayers: a - c })
            } else {
                None
            },
            _ => None,
        },
        Job::Clairvoyant { sun: cs, moon: cm } => match j {
            Job::Clairvoyant { sun: s, moon: m } => if s >= cs && m >= cm {
                Some(Job::Clairvoyant { sun: s - cs, moon: m - cm })
            } else {
                None
            },
            _ => None,
        },
        Job::Nanovampire { battery: c } => match j {
            Job::Nanovampire { battery: a } => if a >= c {
                Some(Job::Nanovampire { battery: a - c })
            } else {
                None
            },
            _ => None,
        },
    }
}

/// The concrete list one effect's sub-target resolves to, as a function
/// of the store.
pub open spec fn spec_effect_targets(
    m: Map<u64, Fighter>,
    et: EffectTarget,
    caster: u64,
    targets: Seq<u64>,
) -> Seq<u64> {
    match et {
        EffectTarget::Target => targets,
        EffectTarget::Caster => seq![caster],
        EffectTarget::Hostile => spec_candidates(m, PrimaryTarget::Hostile),
        EffectTarget::Friendly => spec_candidates(m, PrimaryTarget::Friendly),
        EffectTarget::All => spec_candidates(m, PrimaryTarget::Any),
    }
}

/// The store after a buff lands on the first `n` of a target list.
pub open spec fn spec_buffs_run(m: Map<u64, Fighter>, tl: Seq<u64>, n: int, b: Buff) -> Map<
    u64,
    Fighter,
>
    decreases n,
{
    if n <= 0 {
        m
    } else {
        let m1 = spec_buffs_run(m, tl, n - 1, b);
        if m1.contains_key(tl[n - 1]) {
            m1.insert(tl[n - 1], spec_after_buff(m1[tl[n - 1]], b))
        } else {
            m1
        }
    }
}

/// The store after a debuff lands on the first `n` of a target list.
pub open spec fn spec_debuffs_run(m: Map<u64, Fighter>, tl: Seq<u64>, n: int, d: Debuff) -> Map<
    u64,
    Fighter,
>
    decreases n,
{
    if n <= 0 {
        m
    } else {
        let m1 = spec_debuffs_run(m, tl, n - 1, d);
        if m1.contains_key(tl[n - 1]) {
            m1.insert(tl[n - 1], spec_after_debuff(m1[tl[n - 1]], d))
        } else {
            m1
        }
    }
}

/// The store after a resource change lands on the first `n` of a
/// target list.
pub open spec fn spec_jobs_run(
    m: Map<u64, Fighter>,
    tl: Seq<u64>,
    n: int,
    j: Job,
    gain: bool,
) -> Map<u64, Fighter>
    decreases n,
{
    if n <= 0 {
        m
    } else {
        let m1 = spec_jobs_run(m, tl, n - 1, j, gain);
        if m1.contains_key(tl[n - 1]) {
            m1.insert(
                tl[n - 1],
                Fighter {
                    job: if gain {
                        spec_job_gain(m1[tl[n - 1]].job, j)
                    } else {
                        spec_job_drain(m1[tl[n - 1]].job, j)
                    },
                    ..m1[tl[n - 1]]
                },
            )
        } else {
            m1
        }
    }
}

/// One hit of a damage effect landing on one combatant, chains
/// included: the run state — store, log and seeded generator state —
/// after it.  A vanished caster or target is skipped.  `parent` is the
/// effect this hit descends from; it only carries the termination
/// measure.
pub open spec fn spec_one_hit_run(
    m: Map<u64, Fighter>,
    l: Seq<LogEntry>,
    st: u64,
    caster: u64,
    target: u64,
    d: Damage,
    on_hit: Seq<Effect>,
    on_crit: Seq<Effect>,
    primary: bool,
    parent: Effect,
) -> (Map<u64, Fighter>, Seq<LogEntry>, u64)
    decreases (if primary {
        1int
    } else {
        0int
    }), parent, 0int, 0int,
{
    if !(m.contains_key(caster) && m.contains_key(target)) {
        (m, l, st)
    } else {
        let cf = m[caster];
        let tf = m[target];
        let dm = spec_modified_damage(d, cf, tf);
        if dm.damage_type is Healing {
            let f2 = spec_after_heal(tf, dm.multiplier);
            let m1 = m.insert(target, f2);
            let l1 = after_write(
                l,
                LogEntry::Healed {
                    target,
                    amount: if f2.health >= tf.health {
                        (f2.health - tf.health) as u32
                    } else {
                        0u32
                    },
                },
            );
            if primary {
                spec_effects_run(
                    m1,
                    l1,
                    st,
                    caster,
                    seq![target],
                    on_hit,
                    on_hit.len() as int,
                    on_hit,
                    on_crit,
                    false,
                )
            } else {
                (m1, l1, st)
            }
        } else {
            let st1 = lcg_next(st);
            let crit = seeded_pick(st1, 1000) < cf.stats.crit;
            let f2 = spec_after_damage_hit(tf, cf.stats.attack, dm.multiplier, dm.crit_multiplier, crit);
            let m1 = m.insert(target, f2);
            let l1 = after_write(
                l,
                LogEntry::DamageDone {
                    target,
                    hostile: tf.hostile,
                    amount: (tf.health - f2.health) as u32,
                    crit,
                },
            );
            if primary {
                let mid = spec_effects_run(
                    m1,
                    l1,
                    st1,
                    caster,
                    seq![target],
                    on_hit,
                    on_hit.len() as int,
                    on_hit,
                    on_crit,
                    false,
                );
                if crit {
                    spec_effects_run(
                        mid.0,
                        mid.1,
                        mid.2,
                        caster,
                        seq![target],
                        on_crit,
                        on_crit.len() as int,
                        on_hit,
                        on_crit,
                        false,
                    )
                } else {
                    mid
                }
            } else {
                (m1, l1, st1)
            }
        }
    }
}

/// The run state after the first `k` randomized hits: each draws a
/// uniform target index, then lands as one hit.
pub open spec fn spec_hits_rand_run(
    m: Map<u64, Fighter>,
    l: Seq<LogEntry>,
    st: u64,
    caster: u64,
    tl: Seq<u64>,
    d: Damage,
    on_hit: Seq<Effect>,
    on_crit: Seq<Effect>,
    primary: bool,
    k: int,
    parent: Effect,
) -> (Map<u64, Fighter>, Seq<LogEntry>, u64)
    decreases (if primary {
        1int
    } else {
        0int
    }), parent, 1int, k,
{
    if k <= 0 || tl.len() == 0 {
        (m, l, st)
    } else {
        let prev = spec_hits_rand_run(
            m,
            l,
            st,
            caster,
            tl,
            d,
            on_hit,
            on_crit,
            primary,
            k - 1,
            parent,
        );
        let st1 = lcg_next(prev.2);
        let idx = seeded_pick(st1, tl.len() as u64) as int;
        spec_one_hit_run(prev.0, prev.1, st1, caster, tl[idx], d, on_hit, on_crit, primary, parent)
    }
}

/// The run state after the first `h` hits of a deterministic cycle
/// through the target list.
pub open spec fn spec_hits_cycle_run(
    m: Map<u64, Fighter>,
    l: Seq<LogEntry>,
    st: u64,
    caster: u64,
    tl: Seq<u64>,
    d: Damage,
    on_hit: Seq<Effect>,
    on_crit: Seq<Effect>,
    primary: bool,
    h: int,
    parent: Effect,
) -> (Map<u64, Fighter>, Seq<LogEntry>, u64)
    decreases (if primary {
        1int
    } else {
        0int
    }), parent, 1int, h,
{
    if h <= 0 || tl.len() == 0 {
        (m, l, st)
    } else {
        let prev = spec_hits_cycle_run(
            m,
            l,
            st,
            caster,
            tl,
            d,
            on_hit,
            on_crit,
            primary,
            h - 1,
            parent,
        );
        spec_one_hit_run(
            prev.0,
            prev.1,
            prev.2,
            caster,
            tl[(h - 1) % (tl.len() as int)],
            d,
            on_hit,
            on_crit,
            primary,
            parent,
        )
    }
}

/// The run state after one effect is cast.
pub open spec fn spec_effect_run(
    m: Map<u64, Fighter>,
    l: Seq<LogEntry>,
    st: u64,
    caster: u64,
    effect: Effect,
    targets: Seq<u64>,
    on_hit: Seq<Effect>,
    on_crit: Seq<Effect>,
    primary: bool,
) -> (Map<u64, Fighter>, Seq<LogEntry>, u64)
    decreases (if primary {
        1int
    } else {
        0int
    }), effect, 2int, 0int,
{
    match effect {
        Effect::Damage(d, et) => {
            let tl = spec_effect_targets(m, et, caster, targets);
            if d.randomized {
                spec_hits_rand_run(
                    m,
                    l,
                    st,
                    caster,
                    tl,
                    d,
                    on_hit,
                    on_crit,
                    primary,
                    d.hits as int,
                    effect,
                )
            } else {
                spec_hits_cycle_run(
                    m,
                    l,
                    st,
                    caster,
                    tl,
                    d,
                    on_hit,
                    on_crit,
                    primary,
                    d.hits as int * tl.len() as int,
                    effect,
                )
            }
        },
        Effect::Buff(b, et) => {
            let tl = spec_effect_targets(m, et, caster, targets);
            (spec_buffs_run(m, tl, tl.len() as int, b), l, st)
        },
        Effect::Debuff(dd, et) => {
            let tl = spec_effect_targets(m, et, caster, targets);
            (spec_debuffs_run(m, tl, tl.len() as int, dd), l, st)
        },
        Effect::Gain(g) => (spec_jobs_run(m, targets, targets.len() as int, g, true), l, st),
        Effect::Drain(g) => (spec_jobs_run(m, targets, targets.len() as int, g, false), l, st),
        Effect::Conditional(_, _) => spec_cond_run(
            m,
            l,
            st,
            caster,
            effect,
            targets,
            targets.len() as int,
            on_hit,
            on_crit,
            primary,
        ),
    }
}

/// The run state after a conditional block has visited the first `ti`
/// chosen targets: for each, the predicate is evaluated against the
/// current records once, and when it holds the nested effects are cast
/// restricted to that single target.
pub open spec fn spec_cond_run(
    m: Map<u64, Fighter>,
    l: Seq<LogEntry>,
    st: u64,
    caster: u64,
    effect: Effect,
    targets: Seq<u64>,
    ti: int,
    on_hit: Seq<Effect>,
    on_crit: Seq<Effect>,
    primary: bool,
) -> (Map<u64, Fighter>, Seq<LogEntry>, u64)
    decreases (if primary {
        1int
    } else {
        0int
    }), effect, 1int, ti,
        via spec_cond_run_decreases
{
    match effect {
        Effect::Conditional(cond, nested) => {
            if ti <= 0 {
                (m, l, st)
            } else {
                let prev = spec_cond_run(
                    m,
                    l,
                    st,
                    caster,
                    effect,
                    targets,
                    ti - 1,
                    on_hit,
                    on_crit,
                    primary,
                );
                let t = targets[ti - 1];
                if prev.0.contains_key(caster) && prev.0.contains_key(t) && spec_condition_holds(
                    cond,
                    prev.0[caster],
                    prev.0[t],
                ) {
                    spec_effects_run(
                        prev.0,
                        prev.1,
                        prev.2,
                        caster,
                        seq![t],
                        nested@,
                        nested@.len() as int,
                        on_hit,
                        on_crit,
                        primary,
                    )
                } else {
                    prev
                }
            }
        },
        _ => (m, l, st),
    }
}

#[via_fn]
proof fn spec_cond_run_decreases(
    m: Map<u64, Fighter>,
    l: Seq<LogEntry>,
    st: u64,
    caster: u64,
    effect: Effect,
    targets: Seq<u64>,
    ti: int,
    on_hit: Seq<Effect>,
    on_crit: Seq<Effect>,
    primary: bool,
) {
    match effect {
        Effect::Conditional(cond, nested) => {
            vstd::std_specs::vec::axiom_vec_decreases_to_view(nested);
            assert(decreases_to!(effect => nested));
            assert(decreases_to!(effect => nested@));
        },
        _ => {},
    }
}

/// The run state after the first `n` effects of a list are cast in
/// declaration order.
pub open spec fn spec_effects_run(
    m: Map<u64, Fighter>,
    l: Seq<LogEntry>,
    st: u64,
    caster: u64,
    targets: Seq<u64>,
    list: Seq<Effect>,
    n: int,
    on_hit: Seq<Effect>,
    on_crit: Seq<Effect>,
    primary: bool,
) -> (Map<u64, Fighter>, Seq<LogEntry>, u64)
    decreases (if primary {
        1int
    } else {
        0int
    }), list, 3int, n,
        via spec_effects_run_decreases
{
    if n <= 0 || list.len() < n {
        (m, l, st)
    } else {
        let prev = spec_effects_run(m, l, st, caster, targets, list, n - 1, on_hit, on_crit, primary);
        spec_effect_run(prev.0, prev.1, prev.2, caster, list[n - 1], targets, on_hit, on_crit, primary)
    }
}

#[via_fn]
proof fn spec_effects_run_decreases(
    m: Map<u64, Fighter>,
    l: Seq<LogEntry>,
    st: u64,
    caster: u64,
    targets: Seq<u64>,
    list: Seq<Effect>,
    n: int,
    on_hit: Seq<Effect>,
    on_crit: Seq<Effect>,
    primary: bool,
) {
    if 0 < n <= list.len() {
        broadcast use vstd::seq::axiom_seq_index_decreases;

        assert(decreases_to!(list => list[n - 1]));
    }
}

/// The seeded run of one whole cast: the modifier-resolved cost paid,
/// the skill-use entry logged, then every active effect in declaration
/// order with the active chain lists.
pub open spec fn spec_apply_run(
    m: Map<u64, Fighter>,
    l: Seq<LogEntry>,
    st: u64,
    caster: u64,
    skill: Skill,
    targets: Seq<u64>,
) -> (Map<u64, Fighter>, Seq<LogEntry>, u64) {
    let cf = m[caster];
    let effects = spec_active_effects(skill, cf);
    let on_hit = spec_active_on_hit(skill, cf);
    let on_crit = spec_active_on_crit(skill, cf);
    let paid = spec_pay_cost(cf.job, spec_active_cost(skill, cf))->0;
    let m1 = m.insert(caster, Fighter { job: paid, ..cf });
    let l1 = after_write(
        l,
        LogEntry::SkillUse { caster, hostile: cf.hostile, skill_name: skill.name },
    );
    spec_effects_run(m1, l1, st, caster, targets, effects, effects.len() as int, on_hit, on_crit, true)
}

/// An effect that plainly never touches a resource pool.  A
/// conditional block is counted as possibly touching one, since its
/// nested effects may.
pub open spec fn spec_job_free(e: Effect) -> bool {
    !(e is Gain) && !(e is Drain) && !(e is Conditional)
}

/// An effect list of which every member plainly never touches a
/// resource pool.
pub open spec fn spec_job_free_list(s: Seq<Effect>) -> bool {
    forall|i: int| 0 <= i < s.len() ==> spec_job_free(#[trigger] s[i])
}

/// What any effect application may do to the store: no combatant
/// appears or disappears, only the combat-volatile fields of a record
/// (health, resource pool, statuses, the dead mark) change, and a
/// well-formed record stays well-formed.
pub open spec fn combat_frame(m1: Map<u64, Fighter>, m2: Map<u64, Fighter>) -> bool {
    &&& forall|id: u64| m2.contains_key(id) == m1.contains_key(id)
    &&& forall|id: u64|
        m1.contains_key(id) ==> {
            let f1 = m1[id];
            let f2 = #[trigger] m2[id];
            &&& f2.name == f1.name
            &&& f2.level == f1.level
            &&& f2.xp == f1.xp
            &&& f2.stats == f1.stats
            &&& f2.initiative == f1.initiative
            &&& f2.hostile == f1.hostile
            &&& (f1.wf() ==> f2.wf())
        }
}

pub proof fn lemma_frame_refl(m: Map<u64, Fighter>)
    ensures
        combat_frame(m, m),
{
}

pub proof fn lemma_frame_trans(m1: Map<u64, Fighter>, m2: Map<u64, Fighter>, m3: Map<u64, Fighter>)
    requires
        combat_frame(m1, m2),
        combat_frame(m2, m3),
    ensures
        combat_frame(m1, m3),
{
}

/// The record after one non-healing hit lands on it.
pub open spec fn spec_after_damage_hit(
    f: Fighter,
    attack: u32,
    multiplier: u32,
    crit_multiplier: u32,
    crit: bool,
) -> Fighter {
    Fighter {
        health: spec_hit_health(
            f.health,
            spec_damage_amount(attack, f.stats.defense, multiplier, crit_multiplier, crit),
        ),
        ..f
    }
}

/// The record after one healing hit lands on it.
pub open spec fn spec_after_heal(f: Fighter, multiplier: u32) -> Fighter {
    Fighter { health: spec_healed_health(f.health, f.stats.max_health, multiplier), ..f }
}

/// What a buff does to a record: `Cleansed` removes every status,
/// `Revived` clears the dead mark and restores at least one health
/// point; `Haste` has no attached component and changes nothing.
pub open spec fn spec_after_buff(f: Fighter, b: Buff) -> Fighter {
    match b {
        Buff::Haste { duration: _ } => f,
        Buff::Revived => Fighter {
            dead: false,
            health: if f.health >= 1 {
                f.health
            } else if f.stats.max_health >= 1 {
                1u32
            } else {
                0u32
            },
            ..f
        },
        Buff::Cleansed => Fighter {
            burning: 0u8,
            frozen: false,
            confused: false,
            blind: false,
            stunned: false,
            ..f
        },
    }
}

/// What a debuff does to a record: burning stacks add, `Frozen`,
/// `Stunned` and `Confused` set their marks; the remaining variants
/// have no attached component and change nothing.
pub open spec fn spec_after_debuff(f: Fighter, d: Debuff) -> Fighter {
    match d {
        Debuff::Burning { stacks, duration: _ } => Fighter {
            burning: spec_sat_add_u8(f.burning, stacks),
            ..f
        },
        Debuff::Frozen { amount: _ } => Fighter { frozen: true, ..f },
        Debuff::Stunned { duration: _ } => Fighter { stunned: true, ..f },
        Debuff::Confused { duration: _ } => Fighter { confused: true, ..f },
        _ => f,
    }
}

/// One non-healing hit on one combatant: the damage formula applied to
/// its health, and the event logged.  A target no longer in the store is
/// skipped.
fn hit_target(
    w: &mut hecs::World,
    attack: u32,
    target: u64,
    multiplier: u32,
    crit_multiplier: u32,
    crit: bool,
    log: &mut Log,
)
    ensures
        world_fighters(*old(w)).contains_key(target) ==> {
            let f1 = world_fighters(*old(w))[target];
            let f2 = spec_after_damage_hit(f1, attack, multiplier, crit_multiplier, crit);
            &&& world_fighters(*final(w)) == world_fighters(*old(w)).insert(target, f2)
            &&& final(log)@ == after_write(
                old(log)@,
                LogEntry::DamageDone {
                    target,
                    hostile: f1.hostile,
                    amount: (f1.health - f2.health) as u32,
                    crit,
                },
            )
        },
        !world_fighters(*old(w)).contains_key(target) ==> world_fighters(*final(w))
            == world_fighters(*old(w)) && final(log)@ == old(log)@,
        combat_frame(world_fighters(*old(w)), world_fighters(*final(w))),
{
    match get_fighter(w, target) {
        Some(f) => {
            let dmg = damage_amount(attack, f.stats.defense, multiplier, crit_multiplier, crit);
            let new_health: u32 = if dmg >= f.health as u128 {
                0
            } else {
                f.health - dmg as u32
            };
            let lost = f.health - new_health;
            let hostile = f.hostile;
            let f2 = Fighter { health: new_health, ..f };
            put_fighter(w, target, f2);
            log.write(LogEntry::DamageDone { target, hostile, amount: lost, crit });
        },
        None => {},
    }
}

/// One healing hit on one combatant: health restored by a fraction of
/// its own maximum, clamped to that maximum, and the event logged.
fn heal_target(w: &mut hecs::World, target: u64, multiplier: u32, log: &mut Log)
    ensures
        world_fighters(*old(w)).contains_key(target) ==> {
            let f1 = world_fighters(*old(w))[target];
            let f2 = spec_after_heal(f1, multiplier);
            &&& world_fighters(*final(w)) == world_fighters(*old(w)).insert(target, f2)
            &&& final(log)@ == after_write(
                old(log)@,
                LogEntry::Healed {
                    target,
                    amount: if f2.health >= f1.health {
                        (f2.health - f1.health) as u32
                    } else {
                        0u32
                    },
                },
            )
        },
        !world_fighters(*old(w)).contains_key(target) ==> world_fighters(*final(w))
            == world_fighters(*old(w)) && final(log)@ == old(log)@,
        combat_frame(world_fighters(*old(w)), world_fighters(*final(w))),
{
    match get_fighter(w, target) {
        Some(f) => {
            proof {
                assert((f.stats.max_health as u64) * (multiplier as u64) <= 0xffff_ffff
                    * 0xffff_ffff) by (nonlinear_arith)
                    requires
                        f.stats.max_health <= 0xffff_ffffu32,
                        multiplier <= 0xffff_ffffu32,
                ;
            }
            let amount = f.stats.max_health as u64 * multiplier as u64 / 100;
            let h = f.health as u64 + amount;
            let new_health: u32 = if h >= f.stats.max_health as u64 {
                f.stats.max_health
            } else {
                h as u32
            };
            let gained: u32 = if new_health >= f.health {
                new_health - f.health
            } else {
                0
            };
            let f2 = Fighter { health: new_health, ..f };
            put_fighter(w, target, f2);
            log.write(LogEntry::Healed { target, amount: gained });
        },
        None => {},
    }
}

/// Attach a buff to one combatant, skipping one no longer in the store.
fn buff_target(w: &mut hecs::World, target: u64, b: Buff)
    ensures
        world_fighters(*old(w)).contains_key(target) ==> world_fighters(*final(w))
            == world_fighters(*old(w)).insert(
            target,
            spec_after_buff(world_fighters(*old(w))[target], b),
        ),
        !world_fighters(*old(w)).contains_key(target) ==> world_fighters(*final(w))
            == world_fighters(*old(w)),
        combat_frame(world_fighters(*old(w)), world_fighters(*final(w))),
{
    match get_fighter(w, target) {
        Some(f) => {
            let f2 = match b {
                Buff::Haste { duration: _ } => f,
                Buff::Revived => {
                    let health = if f.health >= 1 {
                        f.health
                    } else if f.stats.max_health >= 1 {
                        1
                    } else {
                        0
                    };
                    Fighter { dead: false, health, ..f }
                },
                Buff::Cleansed => Fighter {
                    burning: 0,
                    frozen: false,
                    confused: false,
                    blind: false,
                    stunned: false,
                    ..f
                },
            };
            put_fighter(w, target, f2);
        },
        None => {},
    }
}

/// Attach a debuff to one combatant, skipping one no longer in the
/// store.
fn debuff_target(w: &mut hecs::World, target: u64, d: Debuff)
    ensures
        world_fighters(*old(w)).contains_key(target) ==> world_fighters(*final(w))
            == world_fighters(*old(w)).insert(
            target,
            spec_after_debuff(world_fighters(*old(w))[target], d),
        ),
        !world_fighters(*old(w)).contains_key(target) ==> world_fighters(*final(w))
            == world_fighters(*old(w)),
        combat_frame(world_fighters(*old(w)), world_fighters(*final(w))),
{
    match get_fighter(w, target) {
        Some(f) => {
            let f2 = match d {
                Debuff::Burning { stacks, duration: _ } => Fighter {
                    burning: f.burning.saturating_add(stacks),
                    ..f
                },
                Debuff::Frozen { amount: _ } => Fighter { frozen: true, ..f },
                Debuff::Stunned { duration: _ } => Fighter { stunned: true, ..f },
                Debuff::Confused { duration: _ } => Fighter { confused: true, ..f },
                _ => f,
            };
            put_fighter(w, target, f2);
        },
        None => {},
    }
}

/// Adjust one combatant's resource pool, skipping one no longer in the
/// store.  `gain` picks between gaining and draining.
fn job_adjust_target(w: &mut hecs::World, target: u64, j: Job, gain: bool)
    ensures
        world_fighters(*old(w)).contains_key(target) ==> world_fighters(*final(w))
            == world_fighters(*old(w)).insert(
            target,
            Fighter {
                job: if gain {
                    spec_job_gain(world_fighters(*old(w))[target].job, j)
                } else {
                    spec_job_drain(world_fighters(*old(w))[target].job, j)
                },
                ..world_fighters(*old(w))[target]
            },
        ),
        !world_fighters(*old(w)).contains_key(target) ==> world_fighters(*final(w))
            == world_fighters(*old(w)),
        combat_frame(world_fighters(*old(w)), world_fighters(*final(w))),
{
    match get_fighter(w, target) {
        Some(f) => {
            let job = if gain {
                job_gain(f.job, j)
            } else {
                job_drain(f.job, j)
            };
            let f2 = Fighter { job, ..f };
            put_fighter(w, target, f2);
        },
        None => {},
    }
}

/// The concrete list of combatants one effect applies to, resolved from
/// its own sub-target: the caller's chosen targets, the caster alone, or
/// a freshly resolved side of the field.
fn effect_targets(w: &hecs::World, et: EffectTarget, caster: u64, targets: &Vec<u64>) -> (r: Vec<
    u64,
>)
    ensures
        r@ == spec_effect_targets(world_fighters(*w), et, caster, targets@),
        et is Hostile ==> spec_candidate_list(world_fighters(*w), r@, PrimaryTarget::Hostile),
        et is Friendly ==> spec_candidate_list(world_fighters(*w), r@, PrimaryTarget::Friendly),
        et is All ==> spec_candidate_list(world_fighters(*w), r@, PrimaryTarget::Any),
{
    match et {
        EffectTarget::Target => {
            let mut v: Vec<u64> = Vec::new();
            let mut i: usize = 0;
            while i < targets.len()
                invariant
                    i <= targets@.len(),
                    v@ == targets@.take(i as int),
                decreases targets@.len() - i,
            {
                v.push(targets[i]);
                proof {
                    assert(v@ =~= targets@.take(i + 1));
                }
                i = i + 1;
            }
            proof {
                assert(v@ =~= targets@);
            }
            v
        },
        EffectTarget::Caster => {
            let mut v: Vec<u64> = Vec::new();
            v.push(caster);
            proof {
                assert(v@ =~= seq![caster]);
            }
            v
        },
        EffectTarget::Hostile => {
            let v = candidates(w, PrimaryTarget::Hostile);
            proof {
                lemma_candidates_are(world_fighters(*w), v@, PrimaryTarget::Hostile);
            }
            v
        },
        EffectTarget::Friendly => {
            let v = candidates(w, PrimaryTarget::Friendly);
            proof {
                lemma_candidates_are(world_fighters(*w), v@, PrimaryTarget::Friendly);
            }
            v
        },
        EffectTarget::All => {
            let v = candidates(w, PrimaryTarget::Any);
            proof {
                lemma_candidates_are(world_fighters(*w), v@, PrimaryTarget::Any);
            }
            v
        },
    }
}

/// Execute one effect against the store.
///
/// `targets` is the caller's chosen target list; `on_hit` and `on_crit`
/// are the cast's chain lists, applied once per primary hit (and
/// additionally per primary critical hit) to that hit's single target,
/// with `primary` false so a chain never chains again.  Any effect
/// application keeps the store inside [`combat_frame`] of where it
/// started; under a seeded source it is pinned exactly by
/// [`spec_effect_run`].
#[verifier::rlimit(80)]
fn apply_effect(
    w: &mut hecs::World,
    caster: u64,
    effect: &Effect,
    targets: &Vec<u64>,
    on_hit: &Vec<Effect>,
    on_crit: &Vec<Effect>,
    primary: bool,
    rng: &mut RandomSource,
    log: &mut Log,
)
    ensures
        combat_frame(world_fighters(*old(w)), world_fighters(*final(w))),
        final(rng).seeded == old(rng).seeded,
        spec_log_extends(old(log)@, final(log)@),
        spec_job_free(*effect) && spec_job_free_list(on_hit@) && spec_job_free_list(on_crit@)
            ==> forall|id: u64| #[trigger]
            world_fighters(*final(w)).contains_key(id) ==> world_fighters(*final(w))[id].job
                == world_fighters(*old(w))[id].job,
        old(rng).seeded ==> (
            world_fighters(*final(w)),
            final(log)@,
            final(rng).state,
        ) == spec_effect_run(
            world_fighters(*old(w)),
            old(log)@,
            old(rng).state,
            caster,
            *effect,
            targets@,
            on_hit@,
            on_crit@,
            primary,
        ),
    decreases (if primary {
        1int
    } else {
        0int
    }), effect, 1int,
{
    proof {
        lemma_frame_refl(world_fighters(*w));
        lemma_log_extends_refl(old(log)@);
    }
    match effect {
        Effect::Damage(d, et) => {
            let tlist = effect_targets(w, *et, caster, targets);
            let ghost tl = tlist@;
            let n = tlist.len();
            if n == 0 {
                return ;
            }
            if d.randomized {
                let mut k: usize = 0;
                while k < d.hits as usize
                    invariant
                        combat_frame(world_fighters(*old(w)), world_fighters(*w)),
                        n == tlist@.len(),
                        n >= 1,
                        k <= d.hits as usize,
                        tlist@ == tl,
                        rng.seeded == old(rng).seeded,
                        spec_log_extends(old(log)@, log@),
                        spec_job_free_list(on_hit@) && spec_job_free_list(on_crit@)
                            ==> forall|id: u64| #[trigger]
                            world_fighters(*w).contains_key(id) ==> world_fighters(*w)[id].job
                                == world_fighters(*old(w))[id].job,
                        old(rng).seeded ==> (world_fighters(*w), log@, rng.state) == spec_hits_rand_run(
                            world_fighters(*old(w)),
                            old(log)@,
                            old(rng).state,
                            caster,
                            tl,
                            *d,
                            on_hit@,
                            on_crit@,
                            primary,
                            k as int,
                            *effect,
                        ),
                    decreases d.hits as int - k,
                {
                    let ghost pre = (world_fighters(*w), log@, rng.state);
                    let idx = rng.next_below(n as u64) as usize;
                    one_hit(w, caster, tlist[idx], d, on_hit, on_crit, primary, rng, log, Ghost(*effect));
                    proof {
                        lemma_log_extends_trans(old(log)@, pre.1, log@);
                        if old(rng).seeded {
                            assert((world_fighters(*w), log@, rng.state) == spec_hits_rand_run(
                                world_fighters(*old(w)),
                                old(log)@,
                                old(rng).state,
                                caster,
                                tl,
                                *d,
                                on_hit@,
                                on_crit@,
                                primary,
                                k + 1,
                                *effect,
                            ));
                        }
                    }
                    k = k + 1;
                }
            } else {
                let mut rep: usize = 0;
                while rep < d.hits as usize
                    invariant
                        combat_frame(world_fighters(*old(w)), world_fighters(*w)),
                        n == tlist@.len(),
                        n >= 1,
                        rep <= d.hits as usize,
                        tlist@ == tl,
                        rng.seeded == old(rng).seeded,
                        spec_log_extends(old(log)@, log@),
                        spec_job_free_list(on_hit@) && spec_job_free_list(on_crit@)
                            ==> forall|id: u64| #[trigger]
                            world_fighters(*w).contains_key(id) ==> world_fighters(*w)[id].job
                                == world_fighters(*old(w))[id].job,
                        old(rng).seeded ==> (world_fighters(*w), log@, rng.state) == spec_hits_cycle_run(
                            world_fighters(*old(w)),
                            old(log)@,
                            old(rng).state,
                            caster,
                            tl,
                            *d,
                            on_hit@,
                            on_crit@,
                            primary,
                            rep as int * n as int,
                            *effect,
                        ),
                    decreases d.hits as int - rep,
                {
                    let mut ti: usize = 0;
                    while ti < n
                        invariant
                            combat_frame(world_fighters(*old(w)), world_fighters(*w)),
                            n == tlist@.len(),
                            n >= 1,
                            ti <= n,
                            tlist@ == tl,
                            rng.seeded == old(rng).seeded,
                            spec_log_extends(old(log)@, log@),
                            spec_job_free_list(on_hit@) && spec_job_free_list(on_crit@)
                                ==> forall|id: u64| #[trigger]
                                world_fighters(*w).contains_key(id) ==> world_fighters(
                                    *w,
                                )[id].job == world_fighters(*old(w))[id].job,
                            old(rng).seeded ==> (world_fighters(*w), log@, rng.state) == spec_hits_cycle_run(
                                world_fighters(*old(w)),
                                old(log)@,
                                old(rng).state,
                                caster,
                                tl,
                                *d,
                                on_hit@,
                                on_crit@,
                                primary,
                                rep as int * n as int + ti as int,
                                *effect,
                            ),
                        decreases n - ti,
                    {
                        proof {
                            vstd::arithmetic::div_mod::lemma_mod_multiples_vanish(
                                rep as int,
                                ti as int,
                                n as int,
                            );
                            vstd::arithmetic::div_mod::lemma_small_mod(ti as nat, n as nat);
                        }
                        let ghost pre = (world_fighters(*w), log@, rng.state);
                        one_hit(w, caster, tlist[ti], d, on_hit, on_crit, primary, rng, log, Ghost(*effect));
                        proof {
                            lemma_log_extends_trans(old(log)@, pre.1, log@);
                            if old(rng).seeded {
                                assert((world_fighters(*w), log@, rng.state)
                                    == spec_hits_cycle_run(
                                    world_fighters(*old(w)),
                                    old(log)@,
                                    old(rng).state,
                                    caster,
                                    tl,
                                    *d,
                                    on_hit@,
                                    on_crit@,
                                    primary,
                                    rep as int * n as int + ti as int + 1,
                                    *effect,
                                ));
                            }
                        }
                        ti = ti + 1;
                    }
                    proof {
                        assert((rep + 1) as int * n as int == rep as int * n as int + n as int)
                            by (nonlinear_arith);
                    }
                    rep = rep + 1;
                }
            }
        },
        Effect::Buff(b, et) => {
            let tlist = effect_targets(w, *et, caster, targets);
            let ghost tl = tlist@;
            let mut i: usize = 0;
            while i < tlist.len()
                invariant
                    combat_frame(world_fighters(*old(w)), world_fighters(*w)),
                    tlist@ == tl,
                    i <= tl.len(),
                    forall|id: u64| #[trigger]
                        world_fighters(*w).contains_key(id) ==> world_fighters(*w)[id].job
                            == world_fighters(*old(w))[id].job,
                    world_fighters(*w) == spec_buffs_run(
                        world_fighters(*old(w)),
                        tl,
                        i as int,
                        *b,
                    ),
                decreases tlist@.len() - i,
            {
                let ghost pre = world_fighters(*w);
                buff_target(w, tlist[i], *b);
                proof {
                    lemma_frame_trans(world_fighters(*old(w)), pre, world_fighters(*w));
                }
                i = i + 1;
            }
        },
        Effect::Debuff(d, et) => {
            let tlist = effect_targets(w, *et, caster, targets);
            let ghost tl = tlist@;
            let mut i: usize = 0;
            while i < tlist.len()
                invariant
                    combat_frame(world_fighters(*old(w)), world_fighters(*w)),
                    tlist@ == tl,
                    i <= tl.len(),
                    forall|id: u64| #[trigger]
                        world_fighters(*w).contains_key(id) ==> world_fighters(*w)[id].job
                            == world_fighters(*old(w))[id].job,
                    world_fighters(*w) == spec_debuffs_run(
                        world_fighters(*old(w)),
                        tl,
                        i as int,
                        *d,
                    ),
                decreases tlist@.len() - i,
            {
                let ghost pre = world_fighters(*w);
                debuff_target(w, tlist[i], *d);
                proof {
                    lemma_frame_trans(world_fighters(*old(w)), pre, world_fighters(*w));
                }
                i = i + 1;
            }
        },
        Effect::Gain(g) => {
            let mut i: usize = 0;
            while i < targets.len()
                invariant
                    combat_frame(world_fighters(*old(w)), world_fighters(*w)),
                    i <= targets@.len(),
                    world_fighters(*w) == spec_jobs_run(
                        world_fighters(*old(w)),
                        targets@,
                        i as int,
                        *g,
                        true,
                    ),
                decreases targets@.len() - i,
            {
                let ghost pre = world_fighters(*w);
                job_adjust_target(w, targets[i], *g, true);
                proof {
                    lemma_frame_trans(world_fighters(*old(w)), pre, world_fighters(*w));
                }
                i = i + 1;
            }
        },
        Effect::Drain(dr) => {
            let mut i: usize = 0;
            while i < targets.len()
                invariant
                    combat_frame(world_fighters(*old(w)), world_fighters(*w)),
                    i <= targets@.len(),
                    world_fighters(*w) == spec_jobs_run(
                        world_fighters(*old(w)),
                        targets@,
                        i as int,
                        *dr,
                        false,
                    ),
                decreases targets@.len() - i,
            {
                let ghost pre = world_fighters(*w);
                job_adjust_target(w, targets[i], *dr, false);
                proof {
                    lemma_frame_trans(world_fighters(*old(w)), pre, world_fighters(*w));
                }
                i = i + 1;
            }
        },
        Effect::Conditional(cond, effects) => {
            proof {
                assert forall|j: int| 0 <= j < effects@.len() implies #[trigger] (decreases_to!(
                    *effect => effects@[j])) by {
                    vstd::std_specs::vec::axiom_vec_index_decreases(*effects, j);
                    assert(decreases_to!(*effect => *effects));
                }
            }
            let mut ti: usize = 0;
            while ti < targets.len()
                invariant
                    combat_frame(world_fighters(*old(w)), world_fighters(*w)),
                    rng.seeded == old(rng).seeded,
                    ti <= targets@.len(),
                    *effect == Effect::Conditional(*cond, *effects),
                    spec_log_extends(old(log)@, log@),
                    forall|j: int|
                        0 <= j < effects@.len() ==> #[trigger] (decreases_to!(
                        *effect => effects@[j])),
                    old(rng).seeded ==> (world_fighters(*w), log@, rng.state) == spec_cond_run(
                        world_fighters(*old(w)),
                        old(log)@,
                        old(rng).state,
                        caster,
                        *effect,
                        targets@,
                        ti as int,
                        on_hit@,
                        on_crit@,
                        primary,
                    ),
                decreases targets@.len() - ti,
            {
                let t = targets[ti];
                let cf = get_fighter(w, caster);
                let tf = get_fighter(w, t);
                let ghost base = (world_fighters(*w), log@, rng.state);
                match (cf, tf) {
                    (Some(cf), Some(tf)) => {
                        if condition_holds(cond, &cf, &tf) {
                            let mut single: Vec<u64> = Vec::new();
                            single.push(t);
                            proof {
                                assert(single@ =~= seq![t]);
                            }
                            let mut ei: usize = 0;
                            while ei < effects.len()
                                invariant
                                    combat_frame(world_fighters(*old(w)), world_fighters(*w)),
                                    rng.seeded == old(rng).seeded,
                                    ei <= effects@.len(),
                                    single@ == seq![t],
                                    *effect == Effect::Conditional(*cond, *effects),
                                    spec_log_extends(old(log)@, log@),
                                    forall|j: int|
                                        0 <= j < effects@.len() ==> #[trigger] (decreases_to!(
                                        *effect => effects@[j])),
                                    old(rng).seeded ==> (world_fighters(*w), log@, rng.state)
                                        == spec_effects_run(
                                        base.0,
                                        base.1,
                                        base.2,
                                        caster,
                                        seq![t],
                                        effects@,
                                        ei as int,
                                        on_hit@,
                                        on_crit@,
                                        primary,
                                    ),
                                decreases effects@.len() - ei,
                            {
                                let ghost pre = world_fighters(*w);
                                let ghost prelog = log@;
                                apply_effect(
                                    w,
                                    caster,
                                    &effects[ei],
                                    &single,
                                    on_hit,
                                    on_crit,
                                    primary,
                                    rng,
                                    log,
                                );
                                proof {
                                    lemma_frame_trans(
                                        world_fighters(*old(w)),
                                        pre,
                                        world_fighters(*w),
                                    );
                                    lemma_log_extends_trans(old(log)@, prelog, log@);
                                    if old(rng).seeded {
                                        assert((world_fighters(*w), log@, rng.state)
                                            == spec_effects_run(
                                            base.0,
                                            base.1,
                                            base.2,
                                            caster,
                                            seq![t],
                                            effects@,
                                            ei + 1,
                                            on_hit@,
                                            on_crit@,
                                            primary,
                                        ));
                                    }
                                }
                                ei = ei + 1;
                            }
                        }
                    },
                    _ => {},
                }
                proof {
                    if old(rng).seeded {
                        assert(targets@[ti as int] == t);
                        assert(base == spec_cond_run(
                            world_fighters(*old(w)),
                            old(log)@,
                            old(rng).state,
                            caster,
                            *effect,
                            targets@,
                            ti as int,
                            on_hit@,
                            on_crit@,
                            primary,
                        ));
                        assert((world_fighters(*w), log@, rng.state) == spec_cond_run(
                            world_fighters(*old(w)),
                            old(log)@,
                            old(rng).state,
                            caster,
                            *effect,
                            targets@,
                            ti + 1,
                            on_hit@,
                            on_crit@,
                            primary,
                        ));
                    }
                }
                ti = ti + 1;
            }
        },
    }
}

/// Whether a skill's own modifier is in force for this cast: the
/// predicate is evaluated once, with the caster standing in for both
/// sides.
pub open spec fn spec_skill_modified(s: Skill, caster: Fighter) -> bool {
    s.modifier is Some && spec_condition_holds((s.modifier->0).test, caster, caster)
}

/// The effect list in force for one cast: the modifier's override
/// exactly when the modifier is in force and overrides it, else the base
/// skill's — never a union of the two.
pub open spec fn spec_active_effects(s: Skill, caster: Fighter) -> Seq<Effect> {
    if spec_skill_modified(s, caster) && (s.modifier->0).effects is Some {
        ((s.modifier->0).effects->0)@
    } else {
        s.effects@
    }
}

/// The on-hit chain in force for one cast; see [`spec_active_effects`].
pub open spec fn spec_active_on_hit(s: Skill, caster: Fighter) -> Seq<Effect> {
    if spec_skill_modified(s, caster) && (s.modifier->0).on_hit is Some {
        ((s.modifier->0).on_hit->0)@
    } else {
        s.on_hit@
    }
}

/// The on-crit chain in force for one cast; see [`spec_active_effects`].
pub open spec fn spec_active_on_crit(s: Skill, caster: Fighter) -> Seq<Effect> {
    if spec_skill_modified(s, caster) && (s.modifier->0).on_crit is Some {
        ((s.modifier->0).on_crit->0)@
    } else {
        s.on_crit@
    }
}

/// The resource cost in force for one cast; see [`spec_active_effects`].
pub open spec fn spec_active_cost(s: Skill, caster: Fighter) -> Job {
    if spec_skill_modified(s, caster) && (s.modifier->0).cost is Some {
        (s.modifier->0).cost->0
    } else {
        s.cost
    }
}

/// Law (modifier exactness): the lists and cost one cast runs with are
/// the overrides exactly where the skill modifier is in force and sets
/// them, and the base skill's everywhere else — each field substituted
/// independently.
pub fn active_parts<'a>(skill: &'a Skill, caster: &Fighter) -> (r: (
    &'a Vec<Effect>,
    &'a Vec<Effect>,
    &'a Vec<Effect>,
    Job,
))
    ensures
        r.0@ == spec_active_effects(*skill, *caster),
        r.1@ == spec_active_on_hit(*skill, *caster),
        r.2@ == spec_active_on_crit(*skill, *caster),
        r.3 == spec_active_cost(*skill, *caster),
{
    match &skill.modifier {
        Some(m) => {
            if condition_holds(&m.test, caster, caster) {
                let effects = match &m.effects {
                    Some(e) => e,
                    None => &skill.effects,
                };
                let on_hit = match &m.on_hit {
                    Some(e) => e,
                    None => &skill.on_hit,
                };
                let on_crit = match &m.on_crit {
                    Some(e) => e,
                    None => &skill.on_crit,
                };
                let cost = match m.cost {
                    Some(c) => c,
                    None => skill.cost,
                };
                (effects, on_hit, on_crit, cost)
            } else {
                (&skill.effects, &skill.on_hit, &skill.on_crit, skill.cost)
            }
        },
        None => (&skill.effects, &skill.on_hit, &skill.on_crit, skill.cost),
    }
}

/// How one cast ended.
#[derive(Clone, Copy, PartialEq, Eq, Structural, Debug)]
pub enum ApplyOutcome {
    /// The cost was paid and every effect ran.
    Done,
    /// The caster is no longer in the store; nothing happened.
    NoCaster,
    /// The caster's resource pool cannot pay the cost; nothing happened.
    CantAfford,
}

impl Skill {
    /// Cast this skill: resolve the skill-level modifier, pay the
    /// resource cost (rejecting the cast outright when the pool cannot
    /// cover it), announce the cast in the log, then run every active
    /// effect in declaration order against the chosen targets.  Under a
    /// seeded source the whole cast is pinned exactly by
    /// [`spec_apply_run`] — the run is a function of the store, the log
    /// and the seed.
    pub fn apply(
        &self,
        w: &mut hecs::World,
        caster: u64,
        targets: &Vec<u64>,
        rng: &mut RandomSource,
        log: &mut Log,
    ) -> (r: ApplyOutcome)
        ensures
            r is NoCaster <==> !world_fighters(*old(w)).contains_key(caster),
            r is CantAfford <==> (world_fighters(*old(w)).contains_key(caster) && spec_pay_cost(
                world_fighters(*old(w))[caster].job,
                spec_active_cost(*self, world_fighters(*old(w))[caster]),
            ) is None),
            !(r is Done) ==> world_fighters(*final(w)) == world_fighters(*old(w)) && final(log)@
                == old(log)@ && *final(rng) == *old(rng),
            combat_frame(world_fighters(*old(w)), world_fighters(*final(w))),
            final(rng).seeded == old(rng).seeded,
            spec_log_extends(old(log)@, final(log)@),
            r is Done ==> spec_log_extends(
                after_write(
                    old(log)@,
                    LogEntry::SkillUse {
                        caster,
                        hostile: world_fighters(*old(w))[caster].hostile,
                        skill_name: self.name,
                    },
                ),
                final(log)@,
            ),
            r is Done && spec_job_free_list(
                spec_active_effects(*self, world_fighters(*old(w))[caster]),
            ) && spec_job_free_list(spec_active_on_hit(*self, world_fighters(*old(w))[caster]))
                && spec_job_free_list(spec_active_on_crit(*self, world_fighters(*old(w))[caster]))
                ==> world_fighters(*final(w)).contains_key(caster) && world_fighters(
                *final(w),
            )[caster].job == spec_pay_cost(
                world_fighters(*old(w))[caster].job,
                spec_active_cost(*self, world_fighters(*old(w))[caster]),
            )->0,
            r is Done && old(rng).seeded
                ==> (world_fighters(*final(w)), final(log)@, final(rng).state) == spec_apply_run(
                world_fighters(*old(w)),
                old(log)@,
                old(rng).state,
                caster,
                *self,
                targets@,
            ),
    {
        proof {
            lemma_frame_refl(world_fighters(*w));
            lemma_log_extends_refl(old(log)@);
        }
        let cf = match get_fighter(w, caster) {
            Some(f) => f,
            None => {
                return ApplyOutcome::NoCaster;
            },
        };
        let (effects, on_hit, on_crit, cost) = active_parts(self, &cf);
        let paid = match pay_cost(cf.job, cost) {
            Some(j) => j,
            None => {
                return ApplyOutcome::CantAfford;
            },
        };
        let hostile = cf.hostile;
        let cf2 = Fighter { job: paid, ..cf };
        put_fighter(w, caster, cf2);
        log.write(
            LogEntry::SkillUse { caster, hostile, skill_name: self.name.clone() },
        );
        let ghost mid = (world_fighters(*w), log@, rng.state);
        proof {
            lemma_log_extends_refl(mid.1);
            lemma_log_extends_some_write(old(log)@, mid.1);
        }
        let mut i: usize = 0;
        while i < effects.len()
            invariant
                combat_frame(world_fighters(*old(w)), world_fighters(*w)),
                i <= effects@.len(),
                rng.seeded == old(rng).seeded,
                spec_log_extends(old(log)@, log@),
                spec_log_extends(mid.1, log@),
                spec_job_free_list(effects@) && spec_job_free_list(on_hit@) && spec_job_free_list(
                    on_crit@,
                ) ==> forall|id: u64| #[trigger]
                    world_fighters(*w).contains_key(id) ==> world_fighters(*w)[id].job
                        == mid.0[id].job,
                old(rng).seeded ==> (
                    world_fighters(*w),
                    log@,
                    rng.state,
                ) == spec_effects_run(
                    mid.0,
                    mid.1,
                    mid.2,
                    caster,
                    targets@,
                    effects@,
                    i as int,
                    on_hit@,
                    on_crit@,
                    true,
                ),
            decreases effects@.len() - i,
        {
            let ghost pre = world_fighters(*w);
            let ghost prelog = log@;
            apply_effect(w, caster, &effects[i], targets, on_hit, on_crit, true, rng, log);
            proof {
                lemma_frame_trans(world_fighters(*old(w)), pre, world_fighters(*w));
                lemma_log_extends_trans(old(log)@, prelog, log@);
                lemma_log_extends_trans(mid.1, prelog, log@);
                if old(rng).seeded {
                    assert((world_fighters(*w), log@, rng.state) == spec_effects_run(
                        mid.0,
                        mid.1,
                        mid.2,
                        caster,
                        targets@,
                        effects@,
                        i + 1,
                        on_hit@,
                        on_crit@,
                        true,
                    ));
                }
            }
            i = i + 1;
        }
        ApplyOutcome::Done
    }
}

/// One hit of a damage effect on one combatant: the per-target damage
/// modifier is resolved, the hit lands (healing or harming), and on a
/// primary hit the chain lists run against that one combatant.
fn one_hit(
    w: &mut hecs::World,
    caster: u64,
    target: u64,
    d: &Damage,
    on_hit: &Vec<Effect>,
    on_crit: &Vec<Effect>,
    primary: bool,
    rng: &mut RandomSource,
    log: &mut Log,
    parent: Ghost<Effect>,
)
    ensures
        combat_frame(world_fighters(*old(w)), world_fighters(*final(w))),
        final(rng).seeded == old(rng).seeded,
        spec_log_extends(old(log)@, final(log)@),
        spec_job_free_list(on_hit@) && spec_job_free_list(on_crit@) ==> forall|id: u64| #[trigger]
            world_fighters(*final(w)).contains_key(id) ==> world_fighters(*final(w))[id].job
                == world_fighters(*old(w))[id].job,
        ({
            let m0 = world_fighters(*old(w));
            m0.contains_key(caster) && m0.contains_key(target) && !(spec_modified_damage(
                *d,
                m0[caster],
                m0[target],
            ).damage_type is Healing) && m0[caster].stats.crit == 0
        }) ==> ({
            let m0 = world_fighters(*old(w));
            let dm = spec_modified_damage(*d, m0[caster], m0[target]);
            let f2 = spec_after_damage_hit(
                m0[target],
                m0[caster].stats.attack,
                dm.multiplier,
                dm.crit_multiplier,
                false,
            );
            combat_frame(m0.insert(target, f2), world_fighters(*final(w))) && spec_log_extends(
                after_write(
                    old(log)@,
                    LogEntry::DamageDone {
                        target,
                        hostile: m0[target].hostile,
                        amount: (m0[target].health - f2.health) as u32,
                        crit: false,
                    },
                ),
                final(log)@,
            )
        }),
        ({
            let m0 = world_fighters(*old(w));
            m0.contains_key(caster) && m0.contains_key(target) && !(spec_modified_damage(
                *d,
                m0[caster],
                m0[target],
            ).damage_type is Healing) && m0[caster].stats.crit >= 1000
        }) ==> ({
            let m0 = world_fighters(*old(w));
            let dm = spec_modified_damage(*d, m0[caster], m0[target]);
            let f2 = spec_after_damage_hit(
                m0[target],
                m0[caster].stats.attack,
                dm.multiplier,
                dm.crit_multiplier,
                true,
            );
            combat_frame(m0.insert(target, f2), world_fighters(*final(w))) && spec_log_extends(
                after_write(
                    old(log)@,
                    LogEntry::DamageDone {
                        target,
                        hostile: m0[target].hostile,
                        amount: (m0[target].health - f2.health) as u32,
                        crit: true,
                    },
                ),
                final(log)@,
            )
        }),
        old(rng).seeded ==> (
            world_fighters(*final(w)),
            final(log)@,
            final(rng).state,
        ) == spec_one_hit_run(
            world_fighters(*old(w)),
            old(log)@,
            old(rng).state,
            caster,
            target,
            *d,
            on_hit@,
            on_crit@,
            primary,
            parent@,
        ),
    decreases (if primary {
        1int
    } else {
        0int
    }), parent@, 0int,
{
    proof {
        lemma_frame_refl(world_fighters(*w));
        lemma_log_extends_refl(old(log)@);
    }
    let cf = match get_fighter(w, caster) {
        Some(f) => f,
        None => {
            return ;
        },
    };
    let tf = match get_fighter(w, target) {
        Some(f) => f,
        None => {
            return ;
        },
    };
    let dm = d.get_modified(&cf, &tf);
    let mut crit = false;
    match dm.damage_type {
        DamageType::Healing => {
            heal_target(w, target, dm.multiplier, log);
        },
        _ => {
            let roll = rng.next_below(1000);
            crit = roll < cf.stats.crit as u64;
            hit_target(w, cf.stats.attack, target, dm.multiplier, dm.crit_multiplier, crit, log);
        },
    }
    let ghost mid = (world_fighters(*w), log@, rng.state);
    proof {
        lemma_log_extends_refl(mid.1);
        lemma_frame_refl(mid.0);
        lemma_log_extends_some_write(old(log)@, mid.1);
    }
    if primary {
        let mut single: Vec<u64> = Vec::new();
        single.push(target);
        proof {
            assert(single@ =~= seq![target]);
        }
        let mut ei: usize = 0;
        while ei < on_hit.len()
            invariant
                combat_frame(world_fighters(*old(w)), world_fighters(*w)),
                combat_frame(mid.0, world_fighters(*w)),
                spec_log_extends(old(log)@, log@),
                spec_log_extends(mid.1, log@),
                spec_job_free_list(on_hit@) && spec_job_free_list(on_crit@) ==> forall|id: u64|
                    #[trigger] world_fighters(*w).contains_key(id) ==> world_fighters(
                        *w,
                    )[id].job == mid.0[id].job,
                primary,
                ei <= on_hit@.len(),
                single@ == seq![target],
                rng.seeded == old(rng).seeded,
                old(rng).seeded
                    ==> (world_fighters(*w), log@, rng.state) == spec_effects_run(
                    mid.0,
                    mid.1,
                    mid.2,
                    caster,
                    seq![target],
                    on_hit@,
                    ei as int,
                    on_hit@,
                    on_crit@,
                    false,
                ),
            decreases on_hit@.len() - ei,
        {
            let ghost pre = world_fighters(*w);
            let ghost prelog = log@;
            apply_effect(w, caster, &on_hit[ei], &single, on_hit, on_crit, false, rng, log);
            proof {
                lemma_frame_trans(world_fighters(*old(w)), pre, world_fighters(*w));
                lemma_frame_trans(mid.0, pre, world_fighters(*w));
                lemma_log_extends_trans(old(log)@, prelog, log@);
                lemma_log_extends_trans(mid.1, prelog, log@);
                if old(rng).seeded {
                    assert((world_fighters(*w), log@, rng.state) == spec_effects_run(
                        mid.0,
                        mid.1,
                        mid.2,
                        caster,
                        seq![target],
                        on_hit@,
                        ei + 1,
                        on_hit@,
                        on_crit@,
                        false,
                    ));
                }
            }
            ei = ei + 1;
        }
        if crit {
            let ghost mid2 = (world_fighters(*w), log@, rng.state);
            let mut ei: usize = 0;
            while ei < on_crit.len()
                invariant
                    combat_frame(world_fighters(*old(w)), world_fighters(*w)),
                    combat_frame(mid.0, world_fighters(*w)),
                    spec_log_extends(old(log)@, log@),
                    spec_log_extends(mid.1, log@),
                    spec_job_free_list(on_hit@) && spec_job_free_list(on_crit@) ==> forall|
                        id: u64,
                    | #[trigger]
                        world_fighters(*w).contains_key(id) ==> world_fighters(*w)[id].job
                            == mid.0[id].job,
                    primary,
                    ei <= on_crit@.len(),
                    single@ == seq![target],
                    rng.seeded == old(rng).seeded,
                    old(rng).seeded
                        ==> (world_fighters(*w), log@, rng.state) == spec_effects_run(
                        mid2.0,
                        mid2.1,
                        mid2.2,
                        caster,
                        seq![target],
                        on_crit@,
                        ei as int,
                        on_hit@,
                        on_crit@,
                        false,
                    ),
                decreases on_crit@.len() - ei,
            {
                let ghost pre = world_fighters(*w);
                let ghost prelog = log@;
                apply_effect(w, caster, &on_crit[ei], &single, on_hit, on_crit, false, rng, log);
                proof {
                    lemma_frame_trans(world_fighters(*old(w)), pre, world_fighters(*w));
                    lemma_frame_trans(mid.0, pre, world_fighters(*w));
                    lemma_log_extends_trans(old(log)@, prelog, log@);
                    lemma_log_extends_trans(mid.1, prelog, log@);
                    if old(rng).seeded {
                        assert((world_fighters(*w), log@, rng.state) == spec_effects_run(
                            mid2.0,
                            mid2.1,
                            mid2.2,
                            caster,
                            seq![target],
                            on_crit@,
                            ei + 1,
                            on_hit@,
                            on_crit@,
                            false,
                        ));
                    }
                }
                ei = ei + 1;
            }
        }
    }
}

} // verus!
