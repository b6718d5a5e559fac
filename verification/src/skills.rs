//! Skill definitions: immutable, shareable descriptions of what an
//! action does, written in a small effect language the interpreter
//! executes.
//!
//! Multipliers are fixed-point percentages (100 is x1.0) and chances are
//! per-mille, so every formula over them is exact integer arithmetic.
//! Predicates over a caster/target pair are enum-encoded conditions.

use vstd::prelude::*;
use crate::store::{Fighter, Job};

verus! {

/// The flavour of a damage effect; `Healing` restores health instead of
/// removing it.
#[derive(Clone, Copy, PartialEq, Eq, Structural, Debug)]
pub enum DamageType {
    Physical,
    Healing,
    Fire,
    Ice,
    Toxic,
    Electrical,
    Dark,
    Light,
}

/// A detrimental status a skill can inflict.
#[derive(Clone, Copy, PartialEq, Eq, Structural, Debug)]
pub enum Debuff {
    Burning { stacks: u8, duration: u8 },
    Frozen { amount: u8 },
    Contagious { duration: u8 },
    Zapped { duration: u8 },
    Regen { amount: u32, duration: u8 },
    Stunned { duration: u8 },
    Slow { duration: u8 },
    Confused { duration: u8 },
}

/// A beneficial status a skill can grant.
#[derive(Clone, Copy, PartialEq, Eq, Structural, Debug)]
pub enum Buff {
    Haste { duration: u8 },
    Revived,
    Cleansed,
}

/// The class of combatants a skill may be aimed at.  The `All*` classes
/// hit every candidate; the others ask for one chosen candidate.
#[derive(Clone, Copy, PartialEq, Eq, Structural, Debug)]
pub enum PrimaryTarget {
    Hostile,
    AllHostile,
    Friendly,
    AllFriendly,
    Any,
    All,
}

/// Whom one effect of a skill applies to: the chosen targets, the caster
/// itself, or a whole side of the field.
#[derive(Clone, Copy, PartialEq, Eq, Structural, Debug)]
pub enum EffectTarget {
    Target,
    Caster,
    Hostile,
    Friendly,
    All,
}

/// An enum-encoded predicate over a (caster, target) pair.
#[derive(Clone, Copy, PartialEq, Eq, Structural, Debug)]
pub enum Condition {
    /// The target carries at least one burning stack.
    TargetBurning,
}

/// What a condition means for a concrete caster/target pair.
pub open spec fn spec_condition_holds(c: Condition, caster: Fighter, target: Fighter) -> bool {
    match c {
        Condition::TargetBurning => target.burning > 0,
    }
}

/// See [`spec_condition_holds`].
pub fn condition_holds(c: &Condition, caster: &Fighter, target: &Fighter) -> (r: bool)
    ensures
        r == spec_condition_holds(*c, *caster, *target),
{
    match c {
        Condition::TargetBurning => target.burning > 0,
    }
}

/// A conditional override of a damage effect's parameters, evaluated per
/// target.  Unset fields fall back to the effect's own values.
#[derive(Clone, Copy, PartialEq, Eq, Structural, Debug)]
pub struct DamageModifier {
    pub test: Condition,
    pub damage_type: Option<DamageType>,
    pub multiplier: Option<u32>,
    pub crit_multiplier: Option<u32>,
}

/// One damage (or healing) effect: `multiplier` and `crit_multiplier`
/// are percentages; `hits` is the total hit count when `randomized`,
/// else a per-target hit multiplier.
#[derive(Clone, Copy, PartialEq, Eq, Structural, Debug)]
pub struct Damage {
    pub damage_type: DamageType,
    pub multiplier: u32,
    pub crit_multiplier: u32,
    pub hits: u8,
    pub randomized: bool,
    pub modifier: Option<DamageModifier>,
}

impl Default for Damage {
    /// A plain single physical hit at x1.0, critting at x1.5.
    fn default() -> (r: Damage)
        ensures
            r == (Damage {
                damage_type: DamageType::Physical,
                multiplier: 100u32,
                crit_multiplier: 150u32,
                hits: 1u8,
                randomized: false,
                modifier: None::<DamageModifier>,
            }),
    {
        Damage {
            damage_type: DamageType::Physical,
            multiplier: 100,
            crit_multiplier: 150,
            hits: 1,
            randomized: false,
            modifier: None,
        }
    }
}

/// The damage parameters actually in force against one target: the
/// effect's own, with the modifier's overrides substituted when its
/// predicate holds for this caster/target pair — each field
/// independently, never a union.
pub open spec fn spec_modified_damage(d: Damage, caster: Fighter, target: Fighter) -> Damage {
    match d.modifier {
        Some(m) => if spec_condition_holds(m.test, caster, target) {
            Damage {
                damage_type: if m.damage_type is Some {
                    m.damage_type->0
                } else {
                    d.damage_type
                },
                multiplier: if m.multiplier is Some {
                    m.multiplier->0
                } else {
                    d.multiplier
                },
                crit_multiplier: if m.crit_multiplier is Some {
                    m.crit_multiplier->0
                } else {
                    d.crit_multiplier
                },
                ..d
            }
        } else {
            d
        },
        None => d,
    }
}

impl Damage {
    /// See [`spec_modified_damage`].
    pub fn get_modified(&self, caster: &Fighter, target: &Fighter) -> (r: Damage)
        ensures
            r == spec_modified_damage(*self, *caster, *target),
    {
        match &self.modifier {
            Some(m) => {
                if condition_holds(&m.test, caster, target) {
                    Damage {
                        damage_type: match m.damage_type {
                            Some(t) => t,
                            None => self.damage_type,
                        },
                        multiplier: match m.multiplier {
                            Some(x) => x,
                            None => self.multiplier,
                        },
                        crit_multiplier: match m.crit_multiplier {
                            Some(x) => x,
                            None => self.crit_multiplier,
                        },
                        ..*self
                    }
                } else {
                    *self
                }
            },
            None => *self,
        }
    }
}

/// One step of a skill: a primitive action with its own sub-target, or a
/// conditional block of nested effects.
#[derive(PartialEq, Eq, Debug)]
pub enum Effect {
    Damage(Damage, EffectTarget),
    Buff(Buff, EffectTarget),
    Debuff(Debuff, EffectTarget),
    Gain(Job),
    Drain(Job),
    Conditional(Condition, Vec<Effect>),
}

/// A conditional override of a whole skill, evaluated once per cast with
/// the caster standing in for both sides of the predicate.  Unset fields
/// fall back to the base skill's.
#[derive(PartialEq, Eq, Debug)]
pub struct SkillModifier {
    pub test: Condition,
    pub effects: Option<Vec<Effect>>,
    pub on_hit: Option<Vec<Effect>>,
    pub on_crit: Option<Vec<Effect>>,
    pub cost: Option<Job>,
}

/// An immutable skill definition.
#[derive(PartialEq, Eq, Debug)]
pub struct Skill {
    pub name: String,
    pub target: PrimaryTarget,
    pub effects: Vec<Effect>,
    pub on_hit: Vec<Effect>,
    pub on_crit: Vec<Effect>,
    pub cost: Job,
    pub modifier: Option<SkillModifier>,
}

impl Skill {
    /// Whether this skill hits every candidate at once rather than one
    /// chosen candidate.
    pub open spec fn spec_is_multi(self) -> bool {
        self.target is AllHostile || self.target is AllFriendly || self.target is All
    }
}

/// The one effect of [`basic_attack`]: a plain strike whose multiplier
/// doubles against a burning target.
pub open spec fn spec_basic_attack_effects() -> Seq<Effect> {
    seq![
        Effect::Damage(
            Damage {
                damage_type: DamageType::Physical,
                multiplier: 100u32,
                crit_multiplier: 150u32,
                hits: 1u8,
                randomized: false,
                modifier: Some(
                    DamageModifier {
                        test: Condition::TargetBurning,
                        damage_type: None,
                        multiplier: Some(200u32),
                        crit_multiplier: None,
                    },
                ),
            },
            EffectTarget::Target,
        ),
    ]
}

/// The default strike at one chosen hostile, twice as hard against a
/// burning one.
pub fn basic_attack() -> (r: Skill)
    ensures
        r.name@ == "Basic Attack"@,
        r.target == PrimaryTarget::Hostile,
        r.effects@ == spec_basic_attack_effects(),
        r.on_hit@ == Seq::<Effect>::empty(),
        r.on_crit@ == Seq::<Effect>::empty(),
        r.cost == Job::NoJob,
        r.modifier is None,
{
    let mut effects: Vec<Effect> = Vec::new();
    effects.push(
        Effect::Damage(
            Damage {
                damage_type: DamageType::Physical,
                multiplier: 100,
                crit_multiplier: 150,
                hits: 1,
                randomized: false,
                modifier: Some(
                    DamageModifier {
                        test: Condition::TargetBurning,
                        damage_type: None,
                        multiplier: Some(200),
                        crit_multiplier: None,
                    },
                ),
            },
            EffectTarget::Target,
        ),
    );
    proof {
        assert(effects@ =~= spec_basic_attack_effects());
    }
    Skill {
        name: "Basic Attack".to_owned(),
        target: PrimaryTarget::Hostile,
        effects,
        on_hit: Vec::new(),
        on_crit: Vec::new(),
        cost: Job::NoJob,
        modifier: None,
    }
}

/// The one effect of [`potion`]: healing for half the target's maximum.
pub open spec fn spec_potion_effects() -> Seq<Effect> {
    seq![
        Effect::Damage(
            Damage {
                damage_type: DamageType::Healing,
                multiplier: 50u32,
                crit_multiplier: 150u32,
                hits: 1u8,
                randomized: false,
                modifier: None,
            },
            EffectTarget::Target,
        ),
    ]
}

/// A consumable that restores half of one chosen combatant's maximum
/// health.
pub fn potion() -> (r: Skill)
    ensures
        r.name@ == "Potion"@,
        r.target == PrimaryTarget::Any,
        r.effects@ == spec_potion_effects(),
        r.on_hit@ == Seq::<Effect>::empty(),
        r.on_crit@ == Seq::<Effect>::empty(),
        r.cost == Job::NoJob,
        r.modifier is None,
{
    let mut effects: Vec<Effect> = Vec::new();
    effects.push(
        Effect::Damage(
            Damage {
                damage_type: DamageType::Healing,
                multiplier: 50,
                crit_multiplier: 150,
                hits: 1,
                randomized: false,
                modifier: None,
            },
            EffectTarget::Target,
        ),
    );
    proof {
        assert(effects@ =~= spec_potion_effects());
    }
    Skill {
        name: "Potion".to_owned(),
        target: PrimaryTarget::Any,
        effects,
        on_hit: Vec::new(),
        on_crit: Vec::new(),
        cost: Job::NoJob,
        modifier: None,
    }
}

/// The main effect of [`static_discharge`]: six electrical hits drawn
/// at random over the hostile side.
pub open spec fn spec_static_discharge_effects() -> Seq<Effect> {
    seq![
        Effect::Damage(
            Damage {
                damage_type: DamageType::Electrical,
                multiplier: 100u32,
                crit_multiplier: 150u32,
                hits: 6u8,
                randomized: true,
                modifier: None,
            },
            EffectTarget::Target,
        ),
    ]
}

/// The crit chain of [`static_discharge`]: one more random electrical
/// hit across every hostile.
pub open spec fn spec_static_discharge_on_crit() -> Seq<Effect> {
    seq![
        Effect::Damage(
            Damage {
                damage_type: DamageType::Electrical,
                multiplier: 100u32,
                crit_multiplier: 150u32,
                hits: 1u8,
                randomized: true,
                modifier: None,
            },
            EffectTarget::Hostile,
        ),
    ]
}

/// Six randomized electrical hits across the whole hostile side; every
/// critical hit arcs once more.
pub fn static_discharge() -> (r: Skill)
    ensures
        r.name@ == "Static Discharge"@,
        r.target == PrimaryTarget::AllHostile,
        r.effects@ == spec_static_discharge_effects(),
        r.on_hit@ == Seq::<Effect>::empty(),
        r.on_crit@ == spec_static_discharge_on_crit(),
        r.cost == Job::NoJob,
        r.modifier is None,
{
    let mut effects: Vec<Effect> = Vec::new();
    effects.push(
        Effect::Damage(
            Damage {
                damage_type: DamageType::Electrical,
                multiplier: 100,
                crit_multiplier: 150,
                hits: 6,
                randomized: true,
                modifier: None,
            },
            EffectTarget::Target,
        ),
    );
    let mut on_crit: Vec<Effect> = Vec::new();
    on_crit.push(
        Effect::Damage(
            Damage {
                damage_type: DamageType::Electrical,
                multiplier: 100,
                crit_multiplier: 150,
                hits: 1,
                randomized: true,
                modifier: None,
            },
            EffectTarget::Hostile,
        ),
    );
    proof {
        assert(effects@ =~= spec_static_discharge_effects());
        assert(on_crit@ =~= spec_static_discharge_on_crit());
    }
    Skill {
        name: "Static Discharge".to_owned(),
        target: PrimaryTarget::AllHostile,
        effects,
        on_hit: Vec::new(),
        on_crit,
        cost: Job::NoJob,
        modifier: None,
    }
}

/// The one effect of [`cleanse`]: the cleansing buff on the chosen
/// target.
pub open spec fn spec_cleanse_effects() -> Seq<Effect> {
    seq![Effect::Buff(Buff::Cleansed, EffectTarget::Target)]
}

/// A consumable that strips every status from one chosen friend.
pub fn cleanse() -> (r: Skill)
    ensures
        r.name@ == "Cleanse"@,
        r.target == PrimaryTarget::Friendly,
        r.effects@ == spec_cleanse_effects(),
        r.on_hit@ == Seq::<Effect>::empty(),
        r.on_crit@ == Seq::<Effect>::empty(),
        r.cost == Job::NoJob,
        r.modifier is None,
{
    let mut effects: Vec<Effect> = Vec::new();
    effects.push(Effect::Buff(Buff::Cleansed, EffectTarget::Target));
    proof {
        assert(effects@ =~= spec_cleanse_effects());
    }
    Skill {
        name: "Cleanse".to_owned(),
        target: PrimaryTarget::Friendly,
        effects,
        on_hit: Vec::new(),
        on_crit: Vec::new(),
        cost: Job::NoJob,
        modifier: None,
    }
}

/// The one effect of [`revive`]: the reviving buff on the chosen
/// target.
pub open spec fn spec_revive_effects() -> Seq<Effect> {
    seq![Effect::Buff(Buff::Revived, EffectTarget::Target)]
}

/// A consumable that brings one chosen friend back on its feet.
pub fn revive() -> (r: Skill)
    ensures
        r.name@ == "Revive"@,
        r.target == PrimaryTarget::Friendly,
        r.effects@ == spec_revive_effects(),
        r.on_hit@ == Seq::<Effect>::empty(),
        r.on_crit@ == Seq::<Effect>::empty(),
        r.cost == Job::NoJob,
        r.modifier is None,
{
    let mut effects: Vec<Effect> = Vec::new();
    effects.push(Effect::Buff(Buff::Revived, EffectTarget::Target));
    proof {
        assert(effects@ =~= spec_revive_effects());
    }
    Skill {
        name: "Revive".to_owned(),
        target: PrimaryTarget::Friendly,
        effects,
        on_hit: Vec::new(),
        on_crit: Vec::new(),
        cost: Job::NoJob,
        modifier: None,
    }
}

} // verus!
