//! The targeting resolver: which combatants a skill may be aimed at,
//! and how a selection index survives changes to that list.
//!
//! Candidate lists are returned in ascending entity id order, so target
//! resolution is deterministic and replayable.

use vstd::prelude::*;
use crate::store::{world_fighters, get_fighter, world_ids};
use crate::skills::{PrimaryTarget, Skill};

verus! {

/// Whether a combatant on the given side is a candidate for a target
/// class.
pub open spec fn spec_side_matches(t: PrimaryTarget, hostile: bool) -> bool {
    match t {
        PrimaryTarget::Hostile | PrimaryTarget::AllHostile => hostile,
        PrimaryTarget::Friendly | PrimaryTarget::AllFriendly => !hostile,
        PrimaryTarget::Any | PrimaryTarget::All => true,
    }
}

/// What a resolved candidate list is: ascending entity ids, holding
/// exactly the living combatants whose side matches the class.
pub open spec fn spec_candidate_list(
    m: Map<u64, crate::store::Fighter>,
    s: Seq<u64>,
    class: PrimaryTarget,
) -> bool {
    &&& forall|i: int, j: int| 0 <= i < j < s.len() ==> s[i] < s[j]
    &&& forall|id: u64| #[trigger]
        s.contains(id) <==> (m.contains_key(id) && m[id].alive() && spec_side_matches(
            class,
            m[id].hostile,
        ))
}

/// Law: two strictly ascending lists with the same members are the
/// same list.
pub proof fn lemma_ascending_unique(s1: Seq<u64>, s2: Seq<u64>)
    requires
        forall|i: int, j: int| 0 <= i < j < s1.len() ==> s1[i] < s1[j],
        forall|i: int, j: int| 0 <= i < j < s2.len() ==> s2[i] < s2[j],
        forall|x: u64| s1.contains(x) <==> s2.contains(x),
    ensures
        s1 == s2,
    decreases s1.len(),
{
    if s1.len() == 0 {
        if s2.len() > 0 {
            assert(s2.contains(s2[0]));
            assert(s1.contains(s2[0]));
            assert(false);
        }
        assert(s1 =~= s2);
    } else if s2.len() == 0 {
        assert(s1.contains(s1[0]));
        assert(s2.contains(s1[0]));
        assert(false);
    } else {
        assert(s1.contains(s1[0]));
        assert(s2.contains(s2[0]));
        assert(s2.contains(s1[0]));
        assert(s1.contains(s2[0]));
        let j = choose|j: int| 0 <= j < s2.len() && s2[j] == s1[0];
        let i = choose|i: int| 0 <= i < s1.len() && s1[i] == s2[0];
        assert(s1[0] == s2[0]);
        let t1 = s1.skip(1);
        let t2 = s2.skip(1);
        assert(forall|k: int| 0 <= k < t1.len() ==> #[trigger] t1[k] == s1[k + 1]);
        assert(forall|k: int| 0 <= k < t2.len() ==> #[trigger] t2[k] == s2[k + 1]);
        assert forall|x: u64| t1.contains(x) <==> t2.contains(x) by {
            if t1.contains(x) {
                let k = choose|k: int| 0 <= k < t1.len() && t1[k] == x;
                assert(s1[k + 1] == x);
                assert(s1[0] < x);
                assert(s1.contains(x));
                assert(s2.contains(x));
                let k2 = choose|k2: int| 0 <= k2 < s2.len() && s2[k2] == x;
                assert(k2 > 0);
                assert(t2[k2 - 1] == x);
                assert(t2.contains(t2[k2 - 1]));
            }
            if t2.contains(x) {
                let k = choose|k: int| 0 <= k < t2.len() && t2[k] == x;
                assert(s2[k + 1] == x);
                assert(s2[0] < x);
                assert(s2.contains(x));
                assert(s1.contains(x));
                let k2 = choose|k2: int| 0 <= k2 < s1.len() && s1[k2] == x;
                assert(k2 > 0);
                assert(t1[k2 - 1] == x);
                assert(t1.contains(t1[k2 - 1]));
            }
        }
        lemma_ascending_unique(t1, t2);
        assert(s1.len() == s2.len());
        assert forall|k: int| 0 <= k < s1.len() implies s1[k] == s2[k] by {
            if k > 0 {
                assert(t1[k - 1] == s1[k]);
                assert(t2[k - 1] == s2[k]);
                assert(t1[k - 1] == t2[k - 1]);
            }
        }
        assert(s1 =~= s2);
    }
}

/// The candidate list a class resolves to, as a value: the
/// characterization pins it uniquely.
pub open spec fn spec_candidates(m: Map<u64, crate::store::Fighter>, class: PrimaryTarget) -> Seq<
    u64,
> {
    choose|s: Seq<u64>| spec_candidate_list(m, s, class)
}

/// Law: any list satisfying the candidate characterization is the
/// candidate list.
pub proof fn lemma_candidates_are(
    m: Map<u64, crate::store::Fighter>,
    s: Seq<u64>,
    class: PrimaryTarget,
)
    requires
        spec_candidate_list(m, s, class),
    ensures
        s == spec_candidates(m, class),
{
    assert(spec_candidate_list(m, spec_candidates(m, class), class)) by {
        assert(exists|t: Seq<u64>| spec_candidate_list(m, t, class));
    }
    let s2 = spec_candidates(m, class);
    assert forall|x: u64| s.contains(x) <==> s2.contains(x) by {
        assert(s.contains(x) <==> (m.contains_key(x) && m[x].alive() && spec_side_matches(
            class,
            m[x].hostile,
        )));
        assert(s2.contains(x) <==> (m.contains_key(x) && m[x].alive() && spec_side_matches(
            class,
            m[x].hostile,
        )));
    }
    lemma_ascending_unique(s, s2);
}

/// Insert an id into an ascending list it is not yet in.
fn insert_id(ids: &mut Vec<u64>, id: u64)
    requires
        forall|i: int, j: int| 0 <= i < j < old(ids)@.len() ==> old(ids)@[i] < old(ids)@[j],
        !old(ids)@.contains(id),
    ensures
        forall|i: int, j: int| 0 <= i < j < final(ids)@.len() ==> final(ids)@[i] < final(ids)@[j],
        final(ids)@.len() == old(ids)@.len() + 1,
        forall|e: u64| #[trigger] final(ids)@.contains(e) <==> (old(ids)@.contains(e) || e == id),
{
    let ghost orig = ids@;
    let mut i: usize = 0;
    while i < ids.len() && ids[i] < id
        invariant
            ids@ == orig,
            i <= ids@.len(),
            forall|k: int| 0 <= k < i ==> orig[k] < id,
        decreases ids@.len() - i,
    {
        i = i + 1;
    }
    proof {
        if i < orig.len() {
            assert(orig.contains(orig[i as int]));
        }
    }
    ids.insert(i, id);
    proof {
        orig.insert_ensures(i as int, id);
        assert forall|p: int, q: int| 0 <= p < q < ids@.len() implies ids@[p] < ids@[q] by {
            if q == i {
                assert(ids@[p] == orig[p]);
            } else if p == i {
                assert(ids@[q] == orig[q - 1] && orig[i as int] != id);
            } else if p < i && i < q {
                assert(ids@[p] == orig[p] && ids@[q] == orig[q - 1]);
            } else if q < i {
                assert(ids@[p] == orig[p] && ids@[q] == orig[q]);
            } else {
                assert(ids@[p] == orig[p - 1] && ids@[q] == orig[q - 1]);
            }
        }
        assert forall|e: u64| #[trigger] ids@.contains(e) <==> (orig.contains(e) || e == id) by {
            if ids@.contains(e) {
                let k = choose|k: int| 0 <= k < ids@.len() && ids@[k] == e;
                if k < i {
                    assert(orig[k] == e);
                } else if k > i {
                    assert(orig[k - 1] == e);
                }
            }
            if orig.contains(e) {
                let k = choose|k: int| 0 <= k < orig.len() && orig[k] == e;
                if k < i {
                    assert(ids@[k] == e);
                } else {
                    assert(ids@[k + 1] == e);
                }
            }
            if e == id {
                assert(ids@[i as int] == e);
            }
        }
    }
}

/// Every living combatant matching the class, in ascending id order.
pub fn candidates(w: &hecs::World, class: PrimaryTarget) -> (r: Vec<u64>)
    ensures
        spec_candidate_list(world_fighters(*w), r@, class),
{
    let ids = world_ids(w);
    let mut out: Vec<u64> = Vec::new();
    let mut i: usize = 0;
    while i < ids.len()
        invariant
            i <= ids@.len(),
            ids@.no_duplicates(),
            forall|id: u64| #[trigger] ids@.contains(id) <==> world_fighters(*w).contains_key(id),
            forall|p: int, q: int| 0 <= p < q < out@.len() ==> out@[p] < out@[q],
            forall|id: u64| #[trigger]
                out@.contains(id) <==> exists|j: int|
                    0 <= j < i && ids@[j] == id && world_fighters(*w).contains_key(id)
                        && world_fighters(*w)[id].alive() && spec_side_matches(
                        class,
                        world_fighters(*w)[id].hostile,
                    ),
        decreases ids@.len() - i,
    {
        let id = ids[i];
        proof {
            assert(ids@.contains(ids@[i as int]));
        }
        match get_fighter(w, id) {
            Some(f) => {
                let keep = match class {
                    PrimaryTarget::Hostile | PrimaryTarget::AllHostile => f.hostile,
                    PrimaryTarget::Friendly | PrimaryTarget::AllFriendly => !f.hostile,
                    PrimaryTarget::Any | PrimaryTarget::All => true,
                };
                if keep && f.health > 0 && !f.dead {
                    proof {
                        if out@.contains(id) {
                            let j = choose|j: int|
                                0 <= j < i && ids@[j] == id && world_fighters(*w).contains_key(id)
                                    && world_fighters(*w)[id].alive() && spec_side_matches(
                                    class,
                                    world_fighters(*w)[id].hostile,
                                );
                            assert(ids@[j] == ids@[i as int]);
                        }
                    }
                    insert_id(&mut out, id);
                }
            },
            None => {},
        }
        i = i + 1;
    }
    proof {
        assert forall|id: u64|
            world_fighters(*w).contains_key(id) && world_fighters(*w)[id].alive()
                && spec_side_matches(class, world_fighters(*w)[id].hostile) implies #[trigger] out@
            .contains(id) by {
            assert(ids@.contains(id));
            let j = choose|j: int| 0 <= j < ids@.len() && ids@[j] == id;
        }
    }
    out
}

/// Clamp a previously selected candidate index into the current list:
/// cleared when the list is empty, moved to the last slot when it now
/// points past the end, kept otherwise.
pub fn clamp_selection(selected: Option<usize>, len: usize) -> (r: Option<usize>)
    ensures
        len == 0 ==> r == None::<usize>,
        selected == None::<usize> ==> r == None::<usize>,
        len > 0 && selected is Some ==> r == (Some(
            if selected->0 < len {
                selected->0
            } else {
                (len - 1) as usize
            },
        )),
{
    match selected {
        None => None,
        Some(s) => {
            if len == 0 {
                None
            } else if s < len {
                Some(s)
            } else {
                Some(len - 1)
            }
        },
    }
}

impl Skill {
    /// The candidate list for this skill's target class, with whether
    /// every candidate is hit at once (`All*` classes) or one chosen
    /// candidate must be picked.
    pub fn get_targets(&self, w: &hecs::World) -> (r: (Vec<u64>, bool))
        ensures
            r.1 == self.spec_is_multi(),
            spec_candidate_list(world_fighters(*w), r.0@, self.target),
    {
        let many = match self.target {
            PrimaryTarget::AllHostile | PrimaryTarget::AllFriendly | PrimaryTarget::All => true,
            _ => false,
        };
        (candidates(w, self.target), many)
    }
}

} // verus!
