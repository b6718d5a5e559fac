//! The turn scheduler.
//!
//! Each living combatant owns an accumulated initiative; the combatant
//! with the least initiative acts next, hostile before friendly on an
//! exact tie, and the entity id breaking any remaining tie, so the acting
//! order is a strict total order and combat is replayable.  Consuming a
//! turn advances the actor's initiative by `1/speed` of a turn and
//! reinserts it, so the sequence of turns never ends.

use vstd::prelude::*;
use crate::store::{Fighter, world_fighters, world_ids, get_fighter, put_fighter};

verus! {

/// One whole turn in fixed-point initiative units.
pub const INITIATIVE_SCALE: u64 = 1_000_000;

/// The turn-fraction one action by a combatant of this speed consumes:
/// `1/speed` of a turn in fixed-point units, never zero.
pub open spec fn spec_initiative_step(speed: u32) -> u64
    recommends
        1 <= speed,
{
    if INITIATIVE_SCALE / (speed as u64) >= 1 {
        INITIATIVE_SCALE / (speed as u64)
    } else {
        1u64
    }
}

/// See [`spec_initiative_step`].
pub fn initiative_step(speed: u32) -> (r: u64)
    requires
        1 <= speed,
    ensures
        r == spec_initiative_step(speed),
        1 <= r <= INITIATIVE_SCALE,
{
    proof {
        assert(INITIATIVE_SCALE / (speed as u64) <= INITIATIVE_SCALE) by (nonlinear_arith)
            requires
                1 <= speed,
        ;
    }
    let d = INITIATIVE_SCALE / (speed as u64);
    if d >= 1 {
        d
    } else {
        1
    }
}

/// A scheduled combatant: the snapshot the schedule took of it.
#[derive(Clone, Copy, PartialEq, Eq, Structural, Debug)]
pub struct InitiativeInfo {
    pub initiative: u64,
    pub speed: u32,
    pub hostile: bool,
    pub entity: u64,
}

/// The strict acting order: lower initiative acts sooner; on an exact
/// tie hostile combatants act before friendly ones; within one side the
/// lower entity id acts first.
pub open spec fn acts_before(a: InitiativeInfo, b: InitiativeInfo) -> bool {
    ||| a.initiative < b.initiative
    ||| (a.initiative == b.initiative && a.hostile && !b.hostile)
    ||| (a.initiative == b.initiative && a.hostile == b.hostile && a.entity < b.entity)
}

/// The acting order is a strict total order on entries with distinct
/// entities: irreflexive-asymmetric, transitive, and connex.
pub proof fn lemma_acts_before_strict_total(a: InitiativeInfo, b: InitiativeInfo, c: InitiativeInfo)
    ensures
        acts_before(a, b) ==> !acts_before(b, a),
        acts_before(a, b) && acts_before(b, c) ==> acts_before(a, c),
        a.entity != b.entity ==> acts_before(a, b) || acts_before(b, a),
{
}

/// Law: whenever `b` does not act before `a` (as for any `b` still
/// scheduled when `a` was consumed), the consumption order is the
/// documented one: non-decreasing initiative, hostile before friendly on
/// an exact tie, and ascending entity id among same-side ties.
pub proof fn lemma_turn_order(a: InitiativeInfo, b: InitiativeInfo)
    requires
        !acts_before(b, a),
        a.entity != b.entity,
    ensures
        a.initiative <= b.initiative,
        a.initiative == b.initiative && a.hostile != b.hostile ==> a.hostile && !b.hostile,
        a.initiative == b.initiative && a.hostile == b.hostile ==> a.entity < b.entity,
{
}

/// See [`acts_before`].
pub fn comes_before(a: &InitiativeInfo, b: &InitiativeInfo) -> (r: bool)
    ensures
        r == acts_before(*a, *b),
{
    if a.initiative != b.initiative {
        a.initiative < b.initiative
    } else if a.hostile != b.hostile {
        a.hostile
    } else {
        a.entity < b.entity
    }
}

/// A well-formed schedule: strictly sorted by the acting order, one
/// entry per entity, every snapshot speed usable.
pub open spec fn schedule_wf(s: Seq<InitiativeInfo>) -> bool {
    &&& forall|i: int, j: int| 0 <= i < j < s.len() ==> acts_before(s[i], s[j])
    &&& forall|i: int, j: int| 0 <= i < j < s.len() ==> s[i].entity != s[j].entity
    &&& forall|i: int| 0 <= i < s.len() ==> (#[trigger] s[i]).speed >= 1
}

/// The schedule entry a combatant record gives rise to.  A speed of 0
/// would stall the schedule, so it is clamped to 1 on entry.
pub open spec fn entry_of(id: u64, f: Fighter) -> InitiativeInfo {
    InitiativeInfo {
        initiative: f.initiative,
        speed: if f.stats.speed >= 1 {
            f.stats.speed
        } else {
            1u32
        },
        hostile: f.hostile,
        entity: id,
    }
}

/// The entry a consumed one is replaced by: the same combatant, its
/// initiative advanced by `1/speed` of a turn (capped at the top of the
/// initiative range).
pub open spec fn advanced_entry(a: InitiativeInfo) -> InitiativeInfo {
    InitiativeInfo {
        initiative: if a.initiative + spec_initiative_step(a.speed) <= u64::MAX {
            (a.initiative + spec_initiative_step(a.speed)) as u64
        } else {
            u64::MAX
        },
        ..a
    }
}

/// Law: consuming a turn never lowers its owner's initiative, so a
/// combatant's initiative is monotonically non-decreasing across its
/// own successive turns.
pub proof fn lemma_initiative_monotone(a: InitiativeInfo)
    ensures
        advanced_entry(a).initiative >= a.initiative,
{
}

/// Law: a store change that touches only `actor`'s record leaves every
/// other pair of combatants in exactly the relative order they had, in
/// any schedule rebuilt from the changed store.
pub proof fn lemma_advance_preserves_other_order(
    m1: Map<u64, Fighter>,
    m2: Map<u64, Fighter>,
    actor: u64,
    f2: Fighter,
    a: u64,
    b: u64,
)
    requires
        m2 == m1.insert(actor, f2),
        a != actor,
        b != actor,
        m1.contains_key(a),
        m1.contains_key(b),
    ensures
        acts_before(entry_of(a, m2[a]), entry_of(b, m2[b])) == acts_before(
            entry_of(a, m1[a]),
            entry_of(b, m1[b]),
        ),
{
}

/// The rebuilt, initiative-ordered snapshot of whose turn is next.
pub struct NextUp {
    entries: Vec<InitiativeInfo>,
}

impl View for NextUp {
    type V = Seq<InitiativeInfo>;

    closed spec fn view(&self) -> Seq<InitiativeInfo> {
        self.entries@
    }
}

/// Insert one entry into a sorted schedule, keeping it sorted.
fn insert_entry(entries: &mut Vec<InitiativeInfo>, info: InitiativeInfo)
    requires
        schedule_wf(old(entries)@),
        forall|i: int| 0 <= i < old(entries)@.len() ==> (#[trigger] old(
            entries,
        )@[i]).entity != info.entity,
        info.speed >= 1,
    ensures
        schedule_wf(final(entries)@),
        final(entries)@.len() == old(entries)@.len() + 1,
        exists|pos: int|
            0 <= pos <= old(entries)@.len() && final(entries)@ == old(entries)@.insert(pos, info),
        forall|e: InitiativeInfo|
            #[trigger] final(entries)@.contains(e) <==> (old(entries)@.contains(e) || e == info),
{
    let ghost orig = entries@;
    let mut i: usize = 0;
    while i < entries.len() && comes_before(&entries[i], &info)
        invariant
            entries@ == orig,
            i <= entries@.len(),
            forall|k: int| 0 <= k < i ==> acts_before(#[trigger] entries@[k], info),
        decreases entries@.len() - i,
    {
        i = i + 1;
    }
    entries.insert(i, info);
    proof {
        orig.insert_ensures(i as int, info);
        assert forall|p: int, q: int| 0 <= p < q < entries@.len() implies acts_before(
            entries@[p],
            entries@[q],
        ) by {
            if q == i {
                assert(acts_before(orig[p], info));
            } else if p == i {
                assert(i < orig.len());
                assert(!acts_before(orig[i as int], info));
                lemma_acts_before_strict_total(orig[i as int], info, info);
                assert(acts_before(info, orig[i as int]));
                if q - 1 > i {
                    assert(acts_before(orig[i as int], orig[q - 1]));
                    lemma_acts_before_strict_total(info, orig[i as int], orig[q - 1]);
                }
            } else if p < i && i < q {
                assert(entries@[p] == orig[p] && entries@[q] == orig[q - 1]);
                assert(acts_before(orig[p], orig[q - 1]));
            } else if q < i {
                assert(entries@[p] == orig[p] && entries@[q] == orig[q]);
            } else {
                assert(entries@[p] == orig[p - 1] && entries@[q] == orig[q - 1]);
            }
        }
        assert forall|e: InitiativeInfo|
            #[trigger] entries@.contains(e) <==> (orig.contains(e) || e == info) by {
            if entries@.contains(e) {
                let k = choose|k: int| 0 <= k < entries@.len() && entries@[k] == e;
                if k < i {
                    assert(orig[k] == e);
                } else if k > i {
                    assert(orig[k - 1] == e);
                }
            }
            if orig.contains(e) {
                let k = choose|k: int| 0 <= k < orig.len() && orig[k] == e;
                if k < i {
                    assert(entries@[k] == e);
                } else {
                    assert(entries@[k + 1] == e);
                }
            }
            if e == info {
                assert(entries@[i as int] == e);
            }
        }
    }
}

impl NextUp {
    /// An empty schedule.
    pub fn empty() -> (r: NextUp)
        ensures
            r@ == Seq::<InitiativeInfo>::empty(),
    {
        NextUp { entries: Vec::new() }
    }

    /// The upcoming turns in acting order, soonest first: the read-only
    /// preview the interface shows.
    pub fn upcoming(&self) -> (r: &Vec<InitiativeInfo>)
        ensures
            r@ == self@,
    {
        &self.entries
    }

    /// The combatant that acts next, without consuming its turn.
    pub fn peek(&self) -> (r: Option<InitiativeInfo>)
        ensures
            r == if self@.len() == 0 {
                None::<InitiativeInfo>
            } else {
                Some(self@[0])
            },
    {
        if self.entries.len() == 0 {
            None
        } else {
            Some(self.entries[0])
        }
    }

    /// Consume the next turn: the head entry is handed out and reinserted
    /// with its initiative advanced by its own `1/speed`, so the order
    /// stays sorted and no later consumption can act sooner.
    pub fn take_next(&mut self) -> (r: Option<InitiativeInfo>)
        requires
            schedule_wf(old(self)@),
        ensures
            schedule_wf(final(self)@),
            old(self)@.len() == 0 ==> r == None::<InitiativeInfo> && final(self)@ == old(self)@,
            old(self)@.len() > 0 ==> {
                &&& r == Some(old(self)@[0])
                &&& final(self)@.len() == old(self)@.len()
                &&& forall|e: InitiativeInfo|
                    #[trigger] final(self)@.contains(e) <==> (old(self)@.skip(1).contains(e) || e
                        == advanced_entry(old(self)@[0]))
                &&& forall|k: int|
                    0 <= k < final(self)@.len() ==> !acts_before(
                        #[trigger] final(self)@[k],
                        old(self)@[0],
                    )
            },
    {
        if self.entries.len() == 0 {
            return None;
        }
        let head = self.entries.remove(0);
        let step = initiative_step(head.speed);
        let advanced = InitiativeInfo { initiative: head.initiative.saturating_add(step), ..head };
        proof {
            assert(self.entries@ =~= old(self)@.skip(1));
            assert(forall|i: int| 0 <= i < self.entries@.len() ==> (#[trigger] self.entries@[i])
                == old(self)@[i + 1]);
        }
        insert_entry(&mut self.entries, advanced);
        proof {
            let orig = old(self)@;
            assert forall|k: int| 0 <= k < self@.len() implies !acts_before(
                #[trigger] self@[k],
                orig[0],
            ) by {
                let e = self@[k];
                assert(self@.contains(e));
                if e == advanced {
                    assert(orig[0].initiative <= advanced.initiative);
                } else {
                    assert(orig.skip(1).contains(e));
                    let j = choose|j: int| 0 <= j < orig.skip(1).len() && orig.skip(1)[j] == e;
                    assert(orig[j + 1] == e);
                    assert(acts_before(orig[0], e));
                    lemma_acts_before_strict_total(orig[0], e, orig[0]);
                }
            }
        }
        Some(head)
    }
}

/// Rebuild the schedule from the store: one entry per living combatant,
/// snapshotting its current initiative, speed and side.
pub fn refresh_schedule(w: &hecs::World) -> (r: NextUp)
    ensures
        schedule_wf(r@),
        forall|k: int| 0 <= k < r@.len() ==> {
            let e = #[trigger] r@[k];
            &&& world_fighters(*w).contains_key(e.entity)
            &&& world_fighters(*w)[e.entity].alive()
            &&& e == entry_of(e.entity, world_fighters(*w)[e.entity])
        },
        forall|id: u64|
            world_fighters(*w).contains_key(id) && world_fighters(*w)[id].alive() ==> r@.contains(
                entry_of(id, #[trigger] world_fighters(*w)[id]),
            ),
{
    let ids = world_ids(w);
    let mut entries: Vec<InitiativeInfo> = Vec::new();
    let mut i: usize = 0;
    while i < ids.len()
        invariant
            i <= ids@.len(),
            ids@.no_duplicates(),
            forall|id: u64| #[trigger] ids@.contains(id) <==> world_fighters(*w).contains_key(id),
            schedule_wf(entries@),
            forall|k: int| 0 <= k < entries@.len() ==> {
                let e = #[trigger] entries@[k];
                &&& world_fighters(*w).contains_key(e.entity)
                &&& world_fighters(*w)[e.entity].alive()
                &&& e == entry_of(e.entity, world_fighters(*w)[e.entity])
                &&& exists|j: int| 0 <= j < i && ids@[j] == e.entity
            },
            forall|j: int|
                0 <= j < i && world_fighters(*w).contains_key(#[trigger] ids@[j])
                    && world_fighters(*w)[ids@[j]].alive() ==> entries@.contains(
                    entry_of(ids@[j], world_fighters(*w)[ids@[j]]),
                ),
        decreases ids@.len() - i,
    {
        let id = ids[i];
        proof {
            assert(ids@.contains(ids@[i as int]));
        }
        match get_fighter(w, id) {
            Some(f) => {
                if f.health > 0 && !f.dead {
                    let speed = if f.stats.speed >= 1 {
                        f.stats.speed
                    } else {
                        1
                    };
                    let info = InitiativeInfo {
                        initiative: f.initiative,
                        speed,
                        hostile: f.hostile,
                        entity: id,
                    };
                    proof {
                        assert(info == entry_of(id, world_fighters(*w)[id]));
                        assert forall|k: int| 0 <= k < entries@.len() implies (
                        #[trigger] entries@[k]).entity != info.entity by {
                            let j = choose|j: int| 0 <= j < i && ids@[j] == entries@[k].entity;
                            assert(ids@[j] != ids@[i as int]);
                        }
                    }
                    let ghost prev = entries@;
                    insert_entry(&mut entries, info);
                    proof {
                        let pos = choose|pos: int|
                            0 <= pos <= prev.len() && entries@ == prev.insert(pos, info);
                        prev.insert_ensures(pos, info);
                        assert forall|k: int| 0 <= k < entries@.len() implies {
                            let e = #[trigger] entries@[k];
                            &&& world_fighters(*w).contains_key(e.entity)
                            &&& world_fighters(*w)[e.entity].alive()
                            &&& e == entry_of(e.entity, world_fighters(*w)[e.entity])
                            &&& exists|j: int| 0 <= j < i + 1 && ids@[j] == e.entity
                        } by {
                            if k < pos {
                                assert(entries@[k] == prev[k]);
                            } else if k == pos {
                                assert(entries@[k] == info);
                                assert(0 <= i < i + 1 && ids@[i as int] == info.entity);
                            } else {
                                assert(entries@[k] == prev[k - 1]);
                            }
                        }
                    }
                }
            },
            None => {},
        }
        i = i + 1;
    }
    proof {
        assert forall|id: u64|
            world_fighters(*w).contains_key(id) && world_fighters(*w)[id].alive() implies entries@
            .contains(entry_of(id, #[trigger] world_fighters(*w)[id])) by {
            assert(ids@.contains(id));
            let j = choose|j: int| 0 <= j < ids@.len() && ids@[j] == id;
        }
    }
    NextUp { entries }
}

/// After a combatant's action completes, add `1/speed` of a turn to its
/// stored initiative — tolerating a combatant that died mid-turn — and
/// rebuild the schedule.
///
/// Law: every other combatant's record is untouched, so the relative
/// order of any two combatants other than the actor is unchanged; the
/// actor moves only by its own initiative increment.
pub fn advance_turn(entity: u64, w: &mut hecs::World) -> (r: NextUp)
    ensures
        world_fighters(*final(w)) == if world_fighters(*old(w)).contains_key(entity) {
            world_fighters(*old(w)).insert(
                entity,
                Fighter {
                    initiative: advanced_entry(
                        entry_of(entity, world_fighters(*old(w))[entity]),
                    ).initiative,
                    ..world_fighters(*old(w))[entity]
                },
            )
        } else {
            world_fighters(*old(w))
        },
        schedule_wf(r@),
        forall|k: int| 0 <= k < r@.len() ==> {
            let e = #[trigger] r@[k];
            &&& world_fighters(*final(w)).contains_key(e.entity)
            &&& world_fighters(*final(w))[e.entity].alive()
            &&& e == entry_of(e.entity, world_fighters(*final(w))[e.entity])
        },
        forall|id: u64|
            world_fighters(*final(w)).contains_key(id) && world_fighters(*final(w))[id].alive()
                ==> r@.contains(entry_of(id, #[trigger] world_fighters(*final(w))[id])),
{
    match get_fighter(w, entity) {
        Some(f) => {
            let speed = if f.stats.speed >= 1 {
                f.stats.speed
            } else {
                1
            };
            let step = initiative_step(speed);
            let advanced = Fighter { initiative: f.initiative.saturating_add(step), ..f };
            put_fighter(w, entity, advanced);
        },
        None => {},
    }
    refresh_schedule(w)
}

} // verus!
