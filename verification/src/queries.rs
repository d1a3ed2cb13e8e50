//! Read-only questions to the registry.

use vstd::prelude::*;
use crate::config::LOOKAHEAD;
use crate::entity::{lemma_tracked_projection, Entity, EntityType};
use crate::select::{
    best, best_index, is_best, lemma_best, lemma_best_none, rank_before, rank_view, ranks_view,
    Rank,
};
use crate::state::{registry_wf, State};
use crate::vector::{Point, Vector2};

verus! {

/// The objects of kind `kind`.
pub open spec fn of_type(kind: EntityType) -> spec_fn(Entity) -> bool {
    |e: Entity| e.entity_type == kind
}

/// The objects that can block a line of sight.
pub open spec fn blocks_sight() -> spec_fn(Entity) -> bool {
    |e: Entity| e.entity_type.spec_is_obstacle()
}

/// The squared distance from `pos` to the place where the object is
/// predicted to be.
pub open spec fn predicted_distance_squared(e: Entity, pos: Point) -> int {
    e.collider@.destination_turns(LOOKAHEAD as int).distance_squared(pos)
}

/// How a snaffle ranks as the one nearest to `pos`: by the distance of its
/// predicted position, then by its identifier. Other kinds, and the
/// identifier `skip`, do not rank.
pub open spec fn spec_snaffle_rank(e: Entity, pos: Point, skip: Option<i32>) -> Rank {
    if e.entity_type == EntityType::Snaffle && skip != Some(e.id) {
        Some((predicted_distance_squared(e, pos), e.id as int))
    } else {
        None
    }
}

/// The ranks of all tracked objects as the snaffle nearest to `pos`, in
/// registry order.
pub open spec fn spec_snaffle_ranks(entities: Seq<Entity>, pos: Point, skip: Option<i32>) -> Seq<
    Rank,
> {
    Seq::new(entities.len(), |i: int| spec_snaffle_rank(entities[i], pos, skip))
}

/// The snaffle, other than `skip`, whose predicted position is nearest to
/// `pos`; of two at the same distance, the one with the lower identifier.
pub open spec fn spec_nearest_snaffle(entities: Seq<Entity>, pos: Point, skip: Option<i32>) -> Option<
    Entity,
> {
    match best(spec_snaffle_ranks(entities, pos, skip)) {
        Some(i) => Some(entities[i]),
        None => None,
    }
}

/// Own wizards other than the one with identifier `id` all rank alike, so
/// that the first of them is the best.
pub open spec fn spec_teammate_ranks(entities: Seq<Entity>, id: i32) -> Seq<Rank> {
    Seq::new(
        entities.len(),
        |i: int|
            if entities[i].entity_type == EntityType::Wizard && entities[i].id != id {
                Some((0int, 0int))
            } else {
                None
            },
    )
}

/// The first own wizard whose identifier is not `id`.
pub open spec fn spec_other_wizard(entities: Seq<Entity>, id: i32) -> Option<Entity> {
    match best(spec_teammate_ranks(entities, id)) {
        Some(i) => Some(entities[i]),
        None => None,
    }
}

/// What the nearest snaffle is: there is none exactly when no snaffle other
/// than `skip` is tracked; otherwise it is a tracked snaffle, not `skip`,
/// and no other such snaffle is predicted nearer to `pos`, nor as near with
/// a lower identifier.
pub proof fn lemma_nearest_snaffle(entities: Seq<Entity>, pos: Point, skip: Option<i32>)
    ensures
        spec_nearest_snaffle(entities, pos, skip) is None <==> (forall|k: int|
            0 <= k < entities.len() ==> !((#[trigger] entities[k]).entity_type
                == EntityType::Snaffle && skip != Some(entities[k].id))),
        spec_nearest_snaffle(entities, pos, skip) matches Some(e) ==> {
            &&& entities.contains(e)
            &&& e.entity_type == EntityType::Snaffle
            &&& skip != Some(e.id)
            &&& forall|k: int|
                0 <= k < entities.len() && (#[trigger] entities[k]).entity_type
                    == EntityType::Snaffle && skip != Some(entities[k].id) ==> {
                    ||| predicted_distance_squared(e, pos) < predicted_distance_squared(
                        entities[k],
                        pos,
                    )
                    ||| (predicted_distance_squared(e, pos) == predicted_distance_squared(
                        entities[k],
                        pos,
                    ) && e.id <= entities[k].id)
                }
        },
{
    let ranks = spec_snaffle_ranks(entities, pos, skip);
    lemma_best(ranks);
    if exists|k: int|
        0 <= k < entities.len() && (#[trigger] entities[k]).entity_type == EntityType::Snaffle
            && skip != Some(entities[k].id) {
        let k = choose|k: int|
            0 <= k < entities.len() && (#[trigger] entities[k]).entity_type == EntityType::Snaffle
                && skip != Some(entities[k].id);
        assert(ranks[k] is Some);
        let i = best(ranks)->0;
        let e = entities[i];
        assert(ranks[i] is Some);
        assert forall|j: int|
            0 <= j < entities.len() && (#[trigger] entities[j]).entity_type == EntityType::Snaffle
                && skip != Some(entities[j].id) implies {
            ||| predicted_distance_squared(e, pos) < predicted_distance_squared(entities[j], pos)
            ||| (predicted_distance_squared(e, pos) == predicted_distance_squared(entities[j], pos)
                && e.id <= entities[j].id)
        } by {
            assert(ranks[j] is Some);
            assert(!rank_before(ranks[j]->0, ranks[i]->0));
        }
    } else {
        assert forall|j: int| 0 <= j < ranks.len() implies (#[trigger] ranks[j]) is None by {
            assert(!(entities[j].entity_type == EntityType::Snaffle && skip != Some(
                entities[j].id,
            )));
        }
    }
}

impl State {
    /// The tracked objects of one kind, in registry order.
    pub fn entities_of_type(&self, entity_type: EntityType) -> (found: Vec<Entity>)
        ensures
            found@ == self.entities@.filter(of_type(entity_type)),
    {
        let mut found: Vec<Entity> = Vec::new();
        let mut i: usize = 0;
        proof {
            reveal(Seq::filter);
            assert(self.entities@.take(0) =~= Seq::<Entity>::empty());
        }
        while i < self.entities.len()
            invariant
                0 <= i <= self.entities.len(),
                found@ == self.entities@.take(i as int).filter(of_type(entity_type)),
            decreases self.entities.len() - i,
        {
            let e: Entity = self.entities[i];
            proof {
                assert(self.entities@.take(i + 1) =~= self.entities@.take(i as int).push(e));
                self.entities@.take(i as int).lemma_filter_push(e, of_type(entity_type));
            }
            if e.entity_type == entity_type {
                found.push(e);
            }
            i += 1;
        }
        proof {
            assert(self.entities@.take(self.entities.len() as int) =~= self.entities@);
        }
        found
    }

    /// The own wizards.
    pub fn wizards(&self) -> (found: Vec<Entity>)
        ensures
            found@ == self.entities@.filter(of_type(EntityType::Wizard)),
    {
        self.entities_of_type(EntityType::Wizard)
    }

    /// The opposing wizards.
    pub fn opponents(&self) -> (found: Vec<Entity>)
        ensures
            found@ == self.entities@.filter(of_type(EntityType::Opponent)),
    {
        self.entities_of_type(EntityType::Opponent)
    }

    /// The snaffles still in play.
    pub fn snaffles(&self) -> (found: Vec<Entity>)
        ensures
            found@ == self.entities@.filter(of_type(EntityType::Snaffle)),
    {
        self.entities_of_type(EntityType::Snaffle)
    }

    /// The objects that can block a line of sight: opposing wizards and
    /// bludgers.
    pub fn obstacles(&self) -> (found: Vec<Entity>)
        ensures
            found@ == self.entities@.filter(blocks_sight()),
    {
        let mut found: Vec<Entity> = Vec::new();
        let mut i: usize = 0;
        proof {
            reveal(Seq::filter);
            assert(self.entities@.take(0) =~= Seq::<Entity>::empty());
        }
        while i < self.entities.len()
            invariant
                0 <= i <= self.entities.len(),
                found@ == self.entities@.take(i as int).filter(blocks_sight()),
            decreases self.entities.len() - i,
        {
            let e: Entity = self.entities[i];
            proof {
                assert(self.entities@.take(i + 1) =~= self.entities@.take(i as int).push(e));
                self.entities@.take(i as int).lemma_filter_push(e, blocks_sight());
            }
            if e.entity_type.is_obstacle() {
                found.push(e);
            }
            i += 1;
        }
        proof {
            assert(self.entities@.take(self.entities.len() as int) =~= self.entities@);
        }
        found
    }

    /// The teammate of `wizard`: the first own wizard with another
    /// identifier, if there is one.
    pub fn other_wizard(&self, wizard: &Entity) -> (mate: Option<Entity>)
        ensures
            mate == spec_other_wizard(self.entities@, wizard.id),
            mate matches Some(m) ==> m.entity_type == EntityType::Wizard && m.id != wizard.id
                && self.entities@.contains(m),
    {
        let mut i: usize = 0;
        let ghost ranks = spec_teammate_ranks(self.entities@, wizard.id);
        while i < self.entities.len()
            invariant
                0 <= i <= self.entities.len(),
                ranks == spec_teammate_ranks(self.entities@, wizard.id),
                forall|j: int| 0 <= j < i ==> (#[trigger] ranks[j]) is None,
            decreases self.entities.len() - i,
        {
            let e: Entity = self.entities[i];
            if e.entity_type == EntityType::Wizard && e.id != wizard.id {
                proof {
                    assert(ranks[i as int] == Some((0int, 0int)));
                    assert(is_best(ranks, i as int));
                    crate::select::lemma_best_unique(ranks, i as int);
                }
                return Some(e);
            }
            i += 1;
        }
        proof {
            lemma_best_none(ranks);
        }
        None
    }

    /// The snaffle, other than `skip`, whose predicted position is nearest
    /// to `pos`; of two at the same distance, the one with the lower
    /// identifier.
    pub fn nearest_snaffle(&self, pos: Vector2, skip: Option<i32>) -> (found: Option<Entity>)
        requires
            registry_wf(self.entities@),
            pos.in_range(),
        ensures
            found == spec_nearest_snaffle(self.entities@, pos@, skip),
    {
        let mut ranks: Vec<Option<(i128, i128)>> = Vec::new();
        let mut i: usize = 0;
        while i < self.entities.len()
            invariant
                0 <= i <= self.entities.len(),
                registry_wf(self.entities@),
                pos.in_range(),
                ranks.len() == i,
                forall|j: int|
                    0 <= j < i ==> rank_view(#[trigger] ranks[j]) == spec_snaffle_rank(
                        self.entities@[j],
                        pos@,
                        skip,
                    ),
            decreases self.entities.len() - i,
        {
            let e: Entity = self.entities[i];
            let skipped: bool = match skip {
                Some(s) => s == e.id,
                None => false,
            };
            if e.entity_type == EntityType::Snaffle && !skipped {
                proof {
                    lemma_tracked_projection(e, LOOKAHEAD as int);
                }
                let d: i128 = e.collider.destination_turns(LOOKAHEAD).distance_squared(pos);
                ranks.push(Some((d, e.id as i128)));
            } else {
                ranks.push(None);
            }
            i += 1;
        }
        proof {
            assert(ranks_view(ranks@) =~= spec_snaffle_ranks(self.entities@, pos@, skip));
        }
        match best_index(&ranks) {
            Some(slot) => Some(self.entities[slot]),
            None => None,
        }
    }

    /// The snaffle whose predicted position is nearest to `pos`.
    pub fn closest_snaffle(&self, pos: Vector2) -> (found: Option<Entity>)
        requires
            registry_wf(self.entities@),
            pos.in_range(),
        ensures
            found == spec_nearest_snaffle(self.entities@, pos@, None),
    {
        self.nearest_snaffle(pos, None)
    }

    /// The snaffle nearest to `pos` once the one with identifier
    /// `ignore_id` is left out.
    pub fn second_closest_snaffle(&self, ignore_id: i32, pos: Vector2) -> (found: Option<Entity>)
        requires
            registry_wf(self.entities@),
            pos.in_range(),
        ensures
            found == spec_nearest_snaffle(self.entities@, pos@, Some(ignore_id)),
    {
        self.nearest_snaffle(pos, Some(ignore_id))
    }
}

} // verus!
