//! World state: the registry of tracked objects and how a turn's report
//! changes it.

use vstd::prelude::*;
use crate::entity::{Entity, EntityType};
use crate::goal::Goal;
use crate::targets::{lemma_assign_wf, spec_assign};

verus! {

/// One object as a turn's report gives it, in whole units.
#[derive(Clone, Copy, Debug, PartialEq, Eq, Structural)]
pub struct Observation {
    pub id: i32,
    pub entity_type: EntityType,
    pub x: i32,
    pub y: i32,
    pub vx: i32,
    pub vy: i32,
    pub has_snaffle: bool,
}

/// No two objects of the registry share an identifier.
pub open spec fn ids_distinct(entities: Seq<Entity>) -> bool {
    forall|i: int, j: int|
        0 <= i < j < entities.len() ==> (#[trigger] entities[i]).id != (#[trigger] entities[j]).id
}

/// Identifiers are unique and every object is well formed.
pub open spec fn registry_wf(entities: Seq<Entity>) -> bool {
    &&& ids_distinct(entities)
    &&& forall|i: int| 0 <= i < entities.len() ==> (#[trigger] entities[i]).wf()
}

/// Slot `i` of the registry holds the object with identifier `id`.
pub open spec fn holds_at(entities: Seq<Entity>, id: i32, i: int) -> bool {
    0 <= i < entities.len() && entities[i].id == id
}

/// The registry tracks an object with identifier `id`.
pub open spec fn holds_id(entities: Seq<Entity>, id: i32) -> bool {
    exists|i: int| holds_at(entities, id, i)
}

/// The slot of the object with identifier `id`.
pub open spec fn slot_of(entities: Seq<Entity>, id: i32) -> int {
    choose|i: int| holds_at(entities, id, i)
}

/// The registry after one observation: a tracked object takes over the
/// reported position, velocity and flag, and keeps its kind and target; an
/// unknown identifier is appended as a new object of the reported kind.
pub open spec fn spec_upsert(entities: Seq<Entity>, obs: Observation) -> Seq<Entity> {
    if holds_id(entities, obs.id) {
        let i = slot_of(entities, obs.id);
        entities.update(
            i,
            entities[i].spec_update(
                obs.x,
                obs.y,
                obs.vx,
                obs.vy,
                obs.has_snaffle,
            ),
        )
    } else {
        entities.push(
            Entity::spec_spawn(
                obs.id,
                obs.entity_type,
                obs.x,
                obs.y,
                obs.vx,
                obs.vy,
                obs.has_snaffle,
            ),
        )
    }
}

/// The registry after all observations of a report, in their order.
pub open spec fn spec_ingest(entities: Seq<Entity>, snapshot: Seq<Observation>) -> Seq<Entity>
    decreases snapshot.len(),
{
    if snapshot.len() == 0 {
        entities
    } else {
        spec_upsert(spec_ingest(entities, snapshot.drop_last()), snapshot.last())
    }
}

/// Observation `k` of the report is about identifier `id`.
pub open spec fn reported_at(snapshot: Seq<Observation>, id: i32, k: int) -> bool {
    0 <= k < snapshot.len() && snapshot[k].id == id
}

/// The report mentions identifier `id`.
pub open spec fn reported(snapshot: Seq<Observation>, id: i32) -> bool {
    exists|k: int| reported_at(snapshot, id, k)
}

/// The object stays after the report: any object that is not a snaffle,
/// and a snaffle that the report mentions.
pub open spec fn survives(snapshot: Seq<Observation>) -> spec_fn(Entity) -> bool {
    |e: Entity| e.entity_type != EntityType::Snaffle || reported(snapshot, e.id)
}

/// The registry without the snaffles that the report no longer mentions.
pub open spec fn spec_prune(entities: Seq<Entity>, snapshot: Seq<Observation>) -> Seq<Entity> {
    entities.filter(survives(snapshot))
}

/// The registry after a turn's report: every observation is taken in, the
/// snaffles that the report no longer mentions are dropped, and every own
/// wizard is assigned its target anew.
pub open spec fn spec_update(entities: Seq<Entity>, snapshot: Seq<Observation>) -> Seq<Entity> {
    spec_assign(spec_prune(spec_ingest(entities, snapshot), snapshot))
}

/// How a record of the turn feed reads against the registry. A known kind
/// tag gives an observation of that kind. An unknown tag on the identifier
/// of a tracked object gives an observation of the kind that the object has,
/// so that the object still takes over the record. An unknown tag on an
/// unknown identifier gives nothing.
pub open spec fn spec_observation(
    entities: Seq<Entity>,
    id: i32,
    tag: Seq<char>,
    x: i32,
    y: i32,
    vx: i32,
    vy: i32,
    has_snaffle: bool,
) -> Option<Observation> {
    match EntityType::spec_from_tag(tag) {
        Some(kind) => Some(Observation { id, entity_type: kind, x, y, vx, vy, has_snaffle }),
        None => if holds_id(entities, id) {
            Some(
                Observation {
                    id,
                    entity_type: entities[slot_of(entities, id)].entity_type,
                    x,
                    y,
                    vx,
                    vy,
                    has_snaffle,
                },
            )
        } else {
            None
        },
    }
}

/// One observation keeps a registry well formed.
pub proof fn lemma_upsert_wf(entities: Seq<Entity>, obs: Observation)
    requires
        registry_wf(entities),
    ensures
        registry_wf(spec_upsert(entities, obs)),
        spec_upsert(entities, obs).len() >= entities.len(),
        forall|i: int|
            0 <= i < entities.len() ==> (#[trigger] spec_upsert(entities, obs)[i]).id
                == entities[i].id && spec_upsert(entities, obs)[i].entity_type
                == entities[i].entity_type,
        holds_id(spec_upsert(entities, obs), obs.id),
{
    let after = spec_upsert(entities, obs);
    let fresh = Entity::spec_spawn(
        obs.id,
        obs.entity_type,
        obs.x,
        obs.y,
        obs.vx,
        obs.vy,
        obs.has_snaffle,
    );
    lemma_spawn_wf(obs);
    if holds_id(entities, obs.id) {
        let i = slot_of(entities, obs.id);
        assert(holds_at(entities, obs.id, i));
        lemma_update_wf(entities[i], obs);
        assert(holds_at(after, obs.id, i));
    } else {
        assert forall|i: int, j: int| 0 <= i < j < after.len() implies (#[trigger] after[i]).id != (
        #[trigger] after[j]).id by {
            if j == entities.len() {
                assert(!holds_at(entities, obs.id, i));
            }
        }
        assert(holds_at(after, obs.id, entities.len() as int));
    }
}

/// A newly observed object is well formed.
pub proof fn lemma_spawn_wf(obs: Observation)
    ensures
        Entity::spec_spawn(
            obs.id,
            obs.entity_type,
            obs.x,
            obs.y,
            obs.vx,
            obs.vy,
            obs.has_snaffle,
        ).wf(),
{
}

/// A tracked object stays well formed when it takes over an observation.
pub proof fn lemma_update_wf(e: Entity, obs: Observation)
    requires
        e.wf(),
    ensures
        e.spec_update(obs.x, obs.y, obs.vx, obs.vy, obs.has_snaffle).wf(),
{
}

/// A whole report keeps a registry well formed, and drops no object.
pub proof fn lemma_ingest_wf(entities: Seq<Entity>, snapshot: Seq<Observation>)
    requires
        registry_wf(entities),
    ensures
        registry_wf(spec_ingest(entities, snapshot)),
        spec_ingest(entities, snapshot).len() >= entities.len(),
        forall|i: int|
            0 <= i < entities.len() ==> (#[trigger] spec_ingest(entities, snapshot)[i]).id
                == entities[i].id && spec_ingest(entities, snapshot)[i].entity_type
                == entities[i].entity_type,
    decreases snapshot.len(),
{
    if snapshot.len() > 0 {
        lemma_ingest_wf(entities, snapshot.drop_last());
        lemma_upsert_wf(spec_ingest(entities, snapshot.drop_last()), snapshot.last());
    }
}

/// Filtering keeps a registry well formed, and every object that is kept
/// was there before.
pub proof fn lemma_filter_wf(entities: Seq<Entity>, keep: spec_fn(Entity) -> bool)
    requires
        registry_wf(entities),
    ensures
        registry_wf(entities.filter(keep)),
        forall|k: int|
            0 <= k < entities.filter(keep).len() ==> entities.contains(
                #[trigger] entities.filter(keep)[k],
            ),
    decreases entities.len(),
{
    reveal(Seq::filter);
    let out = entities.filter(keep);
    if entities.len() > 0 {
        let rest = entities.drop_last();
        let last = entities.last();
        let sub = rest.filter(keep);
        lemma_filter_wf(rest, keep);
        assert forall|k: int| 0 <= k < sub.len() implies entities.contains(#[trigger] sub[k])
            && sub[k].id != last.id by {
            assert(rest.contains(sub[k]));
            let j = choose|j: int| 0 <= j < rest.len() && rest[j] == sub[k];
            assert(entities[j] == sub[k]);
            assert(entities[j].id != entities[entities.len() - 1].id);
        }
        if keep(last) {
            assert(out == sub.push(last));
            assert(entities[entities.len() - 1] == last);
            assert forall|k: int| 0 <= k < out.len() implies entities.contains(#[trigger] out[k]) by {
                if k < sub.len() {
                    assert(out[k] == sub[k]);
                }
            }
            assert forall|i: int, j: int| 0 <= i < j < out.len() implies (#[trigger] out[i]).id != (
            #[trigger] out[j]).id by {
                if j < sub.len() {
                    assert(out[i] == sub[i] && out[j] == sub[j]);
                } else {
                    assert(out[i] == sub[i]);
                }
            }
            assert forall|i: int| 0 <= i < out.len() implies (#[trigger] out[i]).wf() by {
                if i < sub.len() {
                    assert(out[i] == sub[i]);
                }
            }
        } else {
            assert(out == sub);
        }
    }
}

/// A turn's report keeps a registry well formed, and after it no object
/// but an own wizard holds a target.
pub proof fn lemma_report_wf(entities: Seq<Entity>, snapshot: Seq<Observation>)
    requires
        registry_wf(entities),
    ensures
        registry_wf(spec_update(entities, snapshot)),
        forall|k: int|
            0 <= k < spec_update(entities, snapshot).len() && (#[trigger] spec_update(
                entities,
                snapshot,
            )[k]).entity_type != EntityType::Wizard ==> spec_update(entities, snapshot)[k].target
                is None,
{
    lemma_ingest_wf(entities, snapshot);
    lemma_filter_wf(spec_ingest(entities, snapshot), survives(snapshot));
    lemma_assign_wf(spec_prune(spec_ingest(entities, snapshot), snapshot));
    let after = spec_update(entities, snapshot);
    assert forall|k: int|
        0 <= k < after.len() && (#[trigger] after[k]).entity_type
            != EntityType::Wizard implies after[k].target is None by {
        assert(after[k].wf());
    }
}

/// A report never removes a wizard, an opponent or a bludger: whatever the
/// report holds, such an object is still tracked after it.
pub proof fn lemma_update_keeps_units(entities: Seq<Entity>, snapshot: Seq<Observation>, i: int)
    requires
        registry_wf(entities),
        0 <= i < entities.len(),
        entities[i].entity_type != EntityType::Snaffle,
    ensures
        holds_id(spec_update(entities, snapshot), entities[i].id),
{
    lemma_ingest_wf(entities, snapshot);
    let taken = spec_ingest(entities, snapshot);
    let kept = spec_prune(taken, snapshot);
    assert(survives(snapshot)(taken[i]));
    taken.lemma_filter_contains(survives(snapshot), i);
    let j = choose|j: int| 0 <= j < kept.len() && kept[j] == taken[i];
    assert(holds_at(spec_update(entities, snapshot), entities[i].id, j));
}

/// A report removes the snaffles that it does not mention: every snaffle
/// that is tracked after a report was mentioned in it.
pub proof fn lemma_update_drops_missing_snaffles(
    entities: Seq<Entity>,
    snapshot: Seq<Observation>,
    k: int,
)
    requires
        0 <= k < spec_update(entities, snapshot).len(),
        spec_update(entities, snapshot)[k].entity_type == EntityType::Snaffle,
    ensures
        reported(snapshot, spec_update(entities, snapshot)[k].id),
{
    let taken = spec_ingest(entities, snapshot);
    let kept = spec_prune(taken, snapshot);
    taken.lemma_filter_pred(survives(snapshot), k);
    assert(survives(snapshot)(kept[k]));
}

/// The state of the world as the engine knows it.
#[derive(Clone, Debug, PartialEq, Eq)]
pub struct State {
    /// The tracked objects, in the order in which they were first seen.
    pub entities: Vec<Entity>,
    /// The team's magic at the start of the turn.
    pub magic: i32,
    pub team_id: i32,
    /// The goal that the team defends.
    pub own_goal: Goal,
    /// The goal in which the team scores.
    pub target_goal: Goal,
}

impl State {
    /// The registry and both goals are well formed.
    pub open spec fn wf(&self) -> bool {
        &&& registry_wf(self.entities@)
        &&& self.own_goal.wf()
        &&& self.target_goal.wf()
    }

    /// An empty world for team `team_id`: team 0 scores on the right and
    /// defends the left, every other team the reverse of team 0's target.
    pub fn new(team_id: i32) -> (s: State)
        ensures
            s.wf(),
            s.entities@ == Seq::<Entity>::empty(),
            s.magic == 0,
            s.team_id == team_id,
            s.own_goal == Goal::spec_new(1 - team_id),
            s.target_goal == Goal::spec_new(team_id as int),
    {
        let own_side: i32 = if team_id == 1 { 0 } else { 1 };
        State {
            entities: Vec::new(),
            magic: 0,
            team_id,
            own_goal: Goal::new(own_side),
            target_goal: Goal::new(team_id),
        }
    }

    /// Whether the state is well formed: what every other function asks
    /// of a state that was not built by `new` and `update` alone.
    pub fn is_valid(&self) -> (ok: bool)
        ensures
            ok == self.wf(),
    {
        if !self.own_goal.is_valid() || !self.target_goal.is_valid() {
            return false;
        }
        let mut i: usize = 0;
        while i < self.entities.len()
            invariant
                0 <= i <= self.entities.len(),
                forall|a: int| 0 <= a < i ==> (#[trigger] self.entities@[a]).wf(),
                forall|a: int, b: int|
                    0 <= a < b < i ==> (#[trigger] self.entities@[a]).id != (
                    #[trigger] self.entities@[b]).id,
            decreases self.entities.len() - i,
        {
            if !self.entities[i].is_valid() {
                return false;
            }
            let mut j: usize = 0;
            while j < i
                invariant
                    0 <= j <= i < self.entities.len(),
                    forall|a: int|
                        0 <= a < j ==> (#[trigger] self.entities@[a]).id != self.entities@[i as int].id,
                decreases i - j,
            {
                if self.entities[j].id == self.entities[i].id {
                    return false;
                }
                j += 1;
            }
            i += 1;
        }
        true
    }

    /// Takes in a turn's report: the team's magic and one observation for
    /// each object in play.
    pub fn update(&mut self, magic: i32, snapshot: &Vec<Observation>)
        requires
            old(self).wf(),
        ensures
            final(self).wf(),
            final(self).entities@ == spec_update(old(self).entities@, snapshot@),
            forall|k: int|
                0 <= k < final(self).entities@.len() && (#[trigger] final(self).entities@[k]).entity_type
                    != EntityType::Wizard ==> final(self).entities@[k].target is None,
            final(self).magic == magic,
            final(self).team_id == old(self).team_id,
            final(self).own_goal == old(self).own_goal,
            final(self).target_goal == old(self).target_goal,
    {
        proof {
            lemma_report_wf(self.entities@, snapshot@);
        }
        self.magic = magic;
        self.ingest(snapshot);
        self.prune(snapshot);
        self.set_targets();
    }

    /// Reads a record of the turn feed against the registry as it stands
    /// before the report is taken in.
    pub fn observation(
        &self,
        id: i32,
        tag: &str,
        x: i32,
        y: i32,
        vx: i32,
        vy: i32,
        has_snaffle: bool,
    ) -> (obs: Option<Observation>)
        requires
            self.wf(),
        ensures
            obs == spec_observation(self.entities@, id, tag@, x, y, vx, vy, has_snaffle),
    {
        match EntityType::from_tag(tag) {
            Some(kind) => Some(Observation { id, entity_type: kind, x, y, vx, vy, has_snaffle }),
            None => match self.find_index(id) {
                Some(slot) => Some(
                    Observation {
                        id,
                        entity_type: self.entities[slot].entity_type,
                        x,
                        y,
                        vx,
                        vy,
                        has_snaffle,
                    },
                ),
                None => None,
            },
        }
    }

    /// The first slot that holds identifier `id`: in a well-formed
    /// registry, the only one.
    pub fn find_index(&self, id: i32) -> (slot: Option<usize>)
        ensures
            slot is Some ==> holds_at(self.entities@, id, slot->0 as int),
            slot is Some ==> forall|j: int| 0 <= j < slot->0 ==> !holds_at(self.entities@, id, j),
            slot is None ==> !holds_id(self.entities@, id),
            slot is Some && ids_distinct(self.entities@) ==> slot_of(self.entities@, id) == slot->0,
    {
        let mut i: usize = 0;
        while i < self.entities.len()
            invariant
                0 <= i <= self.entities.len(),
                forall|j: int| 0 <= j < i ==> !holds_at(self.entities@, id, j),
            decreases self.entities.len() - i,
        {
            if self.entities[i].id == id {
                proof {
                    assert(holds_at(self.entities@, id, i as int));
                    if ids_distinct(self.entities@) {
                        let c = slot_of(self.entities@, id);
                        assert(holds_at(self.entities@, id, c));
                        if c < i {
                            assert(self.entities@[c].id != self.entities@[i as int].id);
                        } else if c > i {
                            assert(self.entities@[i as int].id != self.entities@[c].id);
                        }
                    }
                }
                return Some(i);
            }
            i += 1;
        }
        None
    }

    /// Takes one observation into the registry.
    pub fn observe(&mut self, obs: &Observation)
        requires
            old(self).wf(),
        ensures
            final(self).wf(),
            final(self).entities@ == spec_upsert(old(self).entities@, *obs),
            final(self).magic == old(self).magic,
            final(self).team_id == old(self).team_id,
            final(self).own_goal == old(self).own_goal,
            final(self).target_goal == old(self).target_goal,
    {
        proof {
            lemma_upsert_wf(self.entities@, *obs);
        }
        match self.find_index(obs.id) {
            Some(i) => {
                let mut e: Entity = self.entities[i];
                e.update(obs.x, obs.y, obs.vx, obs.vy, obs.has_snaffle);
                self.entities[i] = e;
            },
            None => {
                self.entities.push(
                    Entity::spawn(
                        obs.id,
                        obs.entity_type,
                        obs.x,
                        obs.y,
                        obs.vx,
                        obs.vy,
                        obs.has_snaffle,
                    ),
                );
            },
        }
    }

    /// Takes a whole report into the registry, observation by observation.
    pub fn ingest(&mut self, snapshot: &Vec<Observation>)
        requires
            old(self).wf(),
        ensures
            final(self).wf(),
            final(self).entities@ == spec_ingest(old(self).entities@, snapshot@),
            final(self).magic == old(self).magic,
            final(self).team_id == old(self).team_id,
            final(self).own_goal == old(self).own_goal,
            final(self).target_goal == old(self).target_goal,
    {
        let mut k: usize = 0;
        while k < snapshot.len()
            invariant
                0 <= k <= snapshot.len(),
                self.wf(),
                self.entities@ == spec_ingest(old(self).entities@, snapshot@.take(k as int)),
                self.magic == old(self).magic,
                self.team_id == old(self).team_id,
                self.own_goal == old(self).own_goal,
                self.target_goal == old(self).target_goal,
            decreases snapshot.len() - k,
        {
            proof {
                let next = snapshot@.take(k + 1);
                assert(next.drop_last() =~= snapshot@.take(k as int));
                assert(next.last() == snapshot@[k as int]);
            }
            self.observe(&snapshot[k]);
            k += 1;
        }
        proof {
            assert(snapshot@.take(snapshot.len() as int) =~= snapshot@);
        }
    }

    /// Whether the report mentions identifier `id`.
    pub fn is_reported(snapshot: &Vec<Observation>, id: i32) -> (found: bool)
        ensures
            found == reported(snapshot@, id),
    {
        let mut k: usize = 0;
        while k < snapshot.len()
            invariant
                0 <= k <= snapshot.len(),
                forall|j: int| 0 <= j < k ==> !reported_at(snapshot@, id, j),
            decreases snapshot.len() - k,
        {
            if snapshot[k].id == id {
                assert(reported_at(snapshot@, id, k as int));
                return true;
            }
            k += 1;
        }
        false
    }

    /// Drops the snaffles that the report no longer mentions. Wizards,
    /// opponents and bludgers always stay.
    pub fn prune(&mut self, snapshot: &Vec<Observation>)
        requires
            old(self).wf(),
        ensures
            final(self).wf(),
            final(self).entities@ == spec_prune(old(self).entities@, snapshot@),
            final(self).magic == old(self).magic,
            final(self).team_id == old(self).team_id,
            final(self).own_goal == old(self).own_goal,
            final(self).target_goal == old(self).target_goal,
    {
        let mut kept: Vec<Entity> = Vec::new();
        let mut i: usize = 0;
        proof {
            reveal(Seq::filter);
            assert(self.entities@.take(0) =~= Seq::<Entity>::empty());
        }
        while i < self.entities.len()
            invariant
                0 <= i <= self.entities.len(),
                kept@ == self.entities@.take(i as int).filter(survives(snapshot@)),
            decreases self.entities.len() - i,
        {
            let e: Entity = self.entities[i];
            let stays: bool = match e.entity_type {
                EntityType::Snaffle => Self::is_reported(snapshot, e.id),
                _ => true,
            };
            proof {
                assert(self.entities@.take(i + 1) =~= self.entities@.take(i as int).push(e));
                self.entities@.take(i as int).lemma_filter_push(e, survives(snapshot@));
                assert(stays == survives(snapshot@)(e));
            }
            if stays {
                kept.push(e);
            }
            i += 1;
        }
        proof {
            assert(self.entities@.take(self.entities.len() as int) =~= self.entities@);
            lemma_filter_wf(self.entities@, survives(snapshot@));
        }
        self.entities = kept;
    }
}

} // verus!
