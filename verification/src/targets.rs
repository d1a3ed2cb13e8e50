//! Target assignment: which snaffle each own wizard goes for.

use vstd::prelude::*;
use crate::entity::{Entity, EntityType};
use crate::queries::{lemma_nearest_snaffle, spec_nearest_snaffle};
use crate::select::{best, is_best, lemma_best_none, lemma_best_unique, Rank};
use crate::state::{ids_distinct, registry_wf, State};

verus! {

/// Own wizards all rank alike, so that the first of them is the best.
pub open spec fn spec_wizard_ranks(entities: Seq<Entity>) -> Seq<Rank> {
    Seq::new(
        entities.len(),
        |i: int|
            if entities[i].entity_type == EntityType::Wizard {
                Some((0int, 0int))
            } else {
                None
            },
    )
}

/// The slot of the first own wizard: the one that chooses first.
pub open spec fn spec_first_wizard(entities: Seq<Entity>) -> Option<int> {
    best(spec_wizard_ranks(entities))
}

/// The target of the wizard in slot `i`. Without a snaffle there is none.
/// The first wizard takes the snaffle predicted nearest to it. Every other
/// wizard does the same, unless that is the first wizard's snaffle: then it
/// takes the nearest of the remaining ones, and shares only where no other
/// snaffle is left.
pub open spec fn spec_target_of(entities: Seq<Entity>, i: int) -> Option<i32> {
    let own = spec_nearest_snaffle(entities, entities[i].collider.pos@, None);
    let lead = spec_first_wizard(entities);
    if own is None {
        None
    } else if lead is Some && lead->0 != i {
        let taken = spec_nearest_snaffle(entities, entities[lead->0].collider.pos@, None);
        if taken is Some && taken->0.id == own->0.id {
            match spec_nearest_snaffle(entities, entities[i].collider.pos@, Some(own->0.id)) {
                Some(other) => Some(other.id),
                None => Some(own->0.id),
            }
        } else {
            Some(own->0.id)
        }
    } else {
        Some(own->0.id)
    }
}

/// The registry after target assignment: every own wizard holds the target
/// chosen for it, whatever it held before; nothing else changes.
pub open spec fn spec_assign(entities: Seq<Entity>) -> Seq<Entity> {
    Seq::new(
        entities.len(),
        |i: int|
            if entities[i].entity_type == EntityType::Wizard {
                entities[i].spec_set_target(spec_target_of(entities, i))
            } else {
                entities[i]
            },
    )
}

/// Target assignment keeps a registry well formed.
pub proof fn lemma_assign_wf(entities: Seq<Entity>)
    requires
        registry_wf(entities),
    ensures
        registry_wf(spec_assign(entities)),
{
    let after = spec_assign(entities);
    assert forall|i: int, j: int| 0 <= i < j < after.len() implies (#[trigger] after[i]).id != (
    #[trigger] after[j]).id by {
        assert(entities[i].id != entities[j].id);
    }
    assert forall|i: int| 0 <= i < after.len() implies (#[trigger] after[i]).wf() by {
        assert(entities[i].wf());
    }
}

/// Without a snaffle no wizard gets a target.
pub proof fn lemma_no_snaffle_no_target(entities: Seq<Entity>, i: int)
    requires
        0 <= i < entities.len(),
        forall|k: int|
            0 <= k < entities.len() ==> (#[trigger] entities[k]).entity_type != EntityType::Snaffle,
    ensures
        spec_target_of(entities, i) is None,
{
    lemma_nearest_snaffle(entities, entities[i].collider.pos@, None);
}

/// With a single snaffle every wizard targets it.
pub proof fn lemma_single_snaffle_shared(entities: Seq<Entity>, i: int, s: int)
    requires
        0 <= i < entities.len(),
        0 <= s < entities.len(),
        entities[s].entity_type == EntityType::Snaffle,
        forall|k: int|
            0 <= k < entities.len() && (#[trigger] entities[k]).entity_type == EntityType::Snaffle
                ==> entities[k].id == entities[s].id,
    ensures
        spec_target_of(entities, i) == Some(entities[s].id),
        entities[i].entity_type == EntityType::Wizard ==> spec_assign(entities)[i].target == Some(
            entities[s].id,
        ),
{
    let pos = entities[i].collider.pos@;
    lemma_nearest_snaffle(entities, pos, None);
    let own = spec_nearest_snaffle(entities, pos, None);
    assert(own is Some);
    let j = choose|j: int| 0 <= j < entities.len() && entities[j] == own->0;
    assert(entities[j].entity_type == EntityType::Snaffle);
    lemma_nearest_snaffle(entities, pos, Some(own->0.id));
    let lead = spec_first_wizard(entities);
    if lead is Some && lead->0 != i {
        let other = spec_nearest_snaffle(entities, pos, Some(own->0.id));
        if other is Some {
            let k = choose|k: int| 0 <= k < entities.len() && entities[k] == other->0;
            assert(entities[k].entity_type == EntityType::Snaffle);
        }
    }
}

/// With two or more snaffles, the first wizard and any other wizard get
/// targets, and the two targets differ: after assignment no second wizard
/// chases the snaffle of the first.
pub proof fn lemma_targets_distinct(entities: Seq<Entity>, first: int, second: int, a: int, b: int)
    requires
        ids_distinct(entities),
        spec_first_wizard(entities) == Some(first),
        0 <= second < entities.len(),
        second != first,
        0 <= a < b < entities.len(),
        entities[a].entity_type == EntityType::Snaffle,
        entities[b].entity_type == EntityType::Snaffle,
    ensures
        spec_target_of(entities, first) is Some,
        spec_target_of(entities, second) is Some,
        spec_target_of(entities, first) != spec_target_of(entities, second),
        spec_assign(entities)[first].target == spec_target_of(entities, first),
        entities[second].entity_type == EntityType::Wizard ==> spec_assign(entities)[second].target
            == spec_target_of(entities, second) && spec_assign(entities)[first].target
            != spec_assign(entities)[second].target,
{
    let ranks = spec_wizard_ranks(entities);
    assert(is_best(ranks, first)) by {
        if exists|i: int| is_best(ranks, i) {
        }
    }
    let lead_pos = entities[first].collider.pos@;
    let pos = entities[second].collider.pos@;
    assert(entities[a].id != entities[b].id);
    lemma_nearest_snaffle(entities, lead_pos, None);
    lemma_nearest_snaffle(entities, pos, None);
    let taken = spec_nearest_snaffle(entities, lead_pos, None);
    let own = spec_nearest_snaffle(entities, pos, None);
    assert(taken is Some && own is Some) by {
        assert(entities[a].entity_type == EntityType::Snaffle);
    }
    assert(spec_target_of(entities, first) == Some(taken->0.id));
    if taken->0.id == own->0.id {
        lemma_nearest_snaffle(entities, pos, Some(own->0.id));
        let other = spec_nearest_snaffle(entities, pos, Some(own->0.id));
        assert(other is Some) by {
            if entities[a].id == own->0.id {
                assert(entities[b].entity_type == EntityType::Snaffle && Some(own->0.id) != Some(
                    entities[b].id,
                ));
            } else {
                assert(entities[a].entity_type == EntityType::Snaffle && Some(own->0.id) != Some(
                    entities[a].id,
                ));
            }
        }
    }
}

impl State {
    /// The slot of the first own wizard.
    pub fn first_wizard(&self) -> (slot: Option<usize>)
        ensures
            slot is Some ==> spec_first_wizard(self.entities@) == Some(slot->0 as int),
            slot is None ==> spec_first_wizard(self.entities@) is None,
            slot is Some ==> slot->0 < self.entities.len() && self.entities[slot->0 as int].entity_type
                == EntityType::Wizard,
    {
        let ghost ranks = spec_wizard_ranks(self.entities@);
        let mut i: usize = 0;
        while i < self.entities.len()
            invariant
                0 <= i <= self.entities.len(),
                ranks == spec_wizard_ranks(self.entities@),
                forall|j: int| 0 <= j < i ==> (#[trigger] ranks[j]) is None,
            decreases self.entities.len() - i,
        {
            if self.entities[i].entity_type == EntityType::Wizard {
                proof {
                    assert(ranks[i as int] == Some((0int, 0int)));
                    assert(is_best(ranks, i as int));
                    lemma_best_unique(ranks, i as int);
                }
                return Some(i);
            }
            i += 1;
        }
        proof {
            lemma_best_none(ranks);
        }
        None
    }

    /// The target for the wizard in slot `i`.
    pub fn target_for(&self, i: usize) -> (target: Option<i32>)
        requires
            registry_wf(self.entities@),
            i < self.entities.len(),
        ensures
            target == spec_target_of(self.entities@, i as int),
    {
        let pos = self.entities[i].collider.pos;
        let own: Option<Entity> = self.closest_snaffle(pos);
        match own {
            None => None,
            Some(near) => {
                match self.first_wizard() {
                    None => Some(near.id),
                    Some(lead) => {
                        if lead == i {
                            Some(near.id)
                        } else {
                            let taken: Option<Entity> = self.closest_snaffle(
                                self.entities[lead].collider.pos,
                            );
                            let clash: bool = match taken {
                                Some(t) => t.id == near.id,
                                None => false,
                            };
                            if clash {
                                match self.second_closest_snaffle(near.id, pos) {
                                    Some(other) => Some(other.id),
                                    None => Some(near.id),
                                }
                            } else {
                                Some(near.id)
                            }
                        }
                    },
                }
            },
        }
    }

    /// Assigns every own wizard its target for the turn. All targets are
    /// chosen on the registry as it stands before any of them is written.
    pub fn set_targets(&mut self)
        requires
            old(self).wf(),
        ensures
            final(self).wf(),
            final(self).entities@ == spec_assign(old(self).entities@),
            final(self).magic == old(self).magic,
            final(self).team_id == old(self).team_id,
            final(self).own_goal == old(self).own_goal,
            final(self).target_goal == old(self).target_goal,
    {
        let ghost before = self.entities@;
        let mut chosen: Vec<Option<i32>> = Vec::new();
        let mut i: usize = 0;
        while i < self.entities.len()
            invariant
                0 <= i <= self.entities.len(),
                self.entities@ == before,
                registry_wf(before),
                chosen.len() == i,
                forall|j: int| 0 <= j < i ==> (#[trigger] chosen[j]) == spec_target_of(before, j),
            decreases self.entities.len() - i,
        {
            let target: Option<i32> = self.target_for(i);
            chosen.push(target);
            i += 1;
        }
        let mut k: usize = 0;
        while k < self.entities.len()
            invariant
                0 <= k <= self.entities.len(),
                self.entities.len() == before.len(),
                chosen.len() == before.len(),
                forall|j: int|
                    0 <= j < before.len() ==> (#[trigger] chosen[j]) == spec_target_of(before, j),
                forall|j: int| 0 <= j < k ==> (#[trigger] self.entities@[j]) == spec_assign(before)[j],
                forall|j: int| k <= j < before.len() ==> (#[trigger] self.entities@[j]) == before[j],
                self.magic == old(self).magic,
                self.team_id == old(self).team_id,
                self.own_goal == old(self).own_goal,
                self.target_goal == old(self).target_goal,
            decreases self.entities.len() - k,
        {
            if self.entities[k].entity_type == EntityType::Wizard {
                let mut e: Entity = self.entities[k];
                e.set_target(chosen[k]);
                self.entities[k] = e;
            }
            k += 1;
        }
        proof {
            assert(self.entities@ =~= spec_assign(before));
            lemma_assign_wf(before);
        }
    }
}

} // verus!
