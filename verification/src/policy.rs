//! Action policy: what each own wizard does in a turn, and how the turn's
//! magic is shared out.

use vstd::prelude::*;
use crate::config::{CLOSE_TO_GOAL, LOOKAHEAD, MAGIC_FLOOR, MAGIC_HIGH_WATER};
use crate::entity::{lemma_tracked_projection, Entity, EntityType};
use crate::fixed::{to_units, whole_units};
use crate::queries::{
    lemma_nearest_snaffle, of_type, predicted_distance_squared, spec_nearest_snaffle,
};
use crate::state::{lemma_filter_wf, registry_wf, State};
use crate::vector::Vector2;

verus! {

/// The three things a wizard can do in a turn.
#[derive(Clone, Copy, Debug, PartialEq, Eq, Structural)]
pub enum ActionType {
    Throw,
    Move,
    Magic,
}

/// A command for one wizard, with its fields in whole units.
#[derive(Clone, Copy, Debug, PartialEq, Eq, Structural)]
pub enum Action {
    /// Move toward `(x, y)` with the given thrust.
    Move { x: i64, y: i64, thrust: i32 },
    /// Throw the carried snaffle toward `(x, y)` with the given power.
    Throw { x: i64, y: i64, power: i32 },
    /// Cast a spell that sends the object `target_id` toward `(x, y)`, at
    /// the price of `amount` magic.
    Cast { target_id: i32, x: i64, y: i64, amount: i32 },
}

impl Action {
    /// The magic that the command costs.
    pub open spec fn spec_spent(self) -> int {
        match self {
            Action::Cast { amount, .. } => amount as int,
            _ => 0,
        }
    }

    /// The magic that the command costs.
    pub fn spent(&self) -> (amount: i32)
        ensures
            amount == self.spec_spent(),
    {
        match self {
            Action::Cast { amount, .. } => *amount,
            _ => 0,
        }
    }
}

/// The magic that a row of commands costs in all.
pub open spec fn spec_total_spent(actions: Seq<Action>) -> int
    decreases actions.len(),
{
    if actions.len() == 0 {
        0
    } else {
        spec_total_spent(actions.drop_last()) + actions.last().spec_spent()
    }
}

impl State {
    /// The object in slot `k` is a snaffle that is predicted to come close
    /// to an aim point of either goal.
    pub open spec fn spec_urgent(&self, k: int) -> bool {
        &&& 0 <= k < self.entities@.len()
        &&& self.entities@[k].entity_type == EntityType::Snaffle
        &&& (self.target_goal.spec_destination_is_close(
            self.entities@[k].collider@,
            CLOSE_TO_GOAL as int,
        ) || self.own_goal.spec_destination_is_close(
            self.entities@[k].collider@,
            CLOSE_TO_GOAL as int,
        ))
    }

    /// A spell is worth casting with `magic_left` magic: there is more than
    /// the floor and some snaffle is about to reach a goal, or there is
    /// more than the high-water mark.
    pub open spec fn spec_should_magic(&self, magic_left: int) -> bool {
        (magic_left > MAGIC_FLOOR && exists|k: int| #[trigger] self.spec_urgent(k)) || magic_left
            > MAGIC_HIGH_WATER
    }

    /// The first opposing wizard of the registry.
    pub open spec fn spec_first_opponent(&self) -> Option<Entity> {
        let found = self.entities@.filter(of_type(EntityType::Opponent));
        if found.len() > 0 {
            Some(found[0])
        } else {
            None
        }
    }

    /// The object that a spell is cast on. Of the snaffle predicted nearest
    /// to the target goal and the one predicted nearest to the own goal, the
    /// one that is nearer to its goal; the latter where both are as near.
    /// Without snaffles, the first opposing wizard.
    pub open spec fn spec_magic_target(&self) -> Option<Entity> {
        let score = self.target_goal.spec_center();
        let defend = self.own_goal.spec_center();
        let push = spec_nearest_snaffle(self.entities@, score, None);
        let pull = spec_nearest_snaffle(self.entities@, defend, None);
        if push is Some && pull is Some {
            if predicted_distance_squared(push->0, score) < predicted_distance_squared(
                pull->0,
                defend,
            ) {
                push
            } else {
                pull
            }
        } else {
            self.spec_first_opponent()
        }
    }

    /// What `wizard` does with `magic_left` magic at hand: it throws if it
    /// carries a snaffle; else it casts if a spell is worth it and has a
    /// target; else it moves.
    pub open spec fn spec_optimal_action(&self, wizard: Entity, magic_left: int) -> ActionType {
        if wizard.has_snaffle {
            ActionType::Throw
        } else if self.spec_should_magic(magic_left) && self.spec_magic_target() is Some {
            ActionType::Magic
        } else {
            ActionType::Move
        }
    }

    /// The command for `wizard` with `magic_left` magic at hand.
    pub open spec fn spec_action(&self, wizard: Entity, magic_left: int) -> Action {
        match self.spec_optimal_action(wizard, magic_left) {
            ActionType::Throw => {
                let dest = self.spec_throw_destination(wizard);
                Action::Throw {
                    x: to_units(dest.x) as i64,
                    y: to_units(dest.y) as i64,
                    power: Self::spec_throw_power(wizard, dest) as i32,
                }
            },
            ActionType::Magic => {
                let target = self.spec_magic_target()->0;
                let dest = self.spec_magic_destination(target);
                Action::Cast {
                    target_id: target.id,
                    x: to_units(dest.x) as i64,
                    y: to_units(dest.y) as i64,
                    amount: Self::spec_magic_power(target, dest, magic_left) as i32,
                }
            },
            ActionType::Move => {
                let dest = self.spec_move_destination(wizard);
                Action::Move {
                    x: to_units(dest.x) as i64,
                    y: to_units(dest.y) as i64,
                    thrust: Self::spec_move_thrust(wizard, dest) as i32,
                }
            },
        }
    }

    /// The own wizards, in the order in which they act.
    pub open spec fn spec_wizards(&self) -> Seq<Entity> {
        self.entities@.filter(of_type(EntityType::Wizard))
    }

    /// The magic that is left once the first `k` wizards have acted.
    pub open spec fn spec_budget_after(&self, k: int) -> int
        decreases k,
    {
        if k <= 0 {
            self.magic as int
        } else {
            self.spec_budget_after(k - 1) - self.spec_action(
                self.spec_wizards()[k - 1],
                self.spec_budget_after(k - 1),
            ).spec_spent()
        }
    }

    /// The commands of the turn, one for each own wizard in registry order.
    /// Each wizard decides with the magic that the wizards before it left.
    pub open spec fn spec_act_turn(&self) -> Seq<Action> {
        Seq::new(
            self.spec_wizards().len(),
            |k: int| self.spec_action(self.spec_wizards()[k], self.spec_budget_after(k)),
        )
    }

    /// A spell costs no more than the magic at hand, and a wizard that does
    /// not cast spends nothing.
    pub proof fn lemma_action_cost(&self, wizard: Entity, magic_left: int)
        requires
            self.wf(),
            wizard.wf(),
            i32::MIN <= magic_left <= i32::MAX,
        ensures
            0 <= self.spec_action(wizard, magic_left).spec_spent(),
            self.spec_action(wizard, magic_left).spec_spent() <= magic_left || self.spec_action(
                wizard,
                magic_left,
            ).spec_spent() == 0,
    {
        if self.spec_optimal_action(wizard, magic_left) == ActionType::Magic {
            let target = self.spec_magic_target()->0;
            self.lemma_magic_target_tracked();
            let dest = self.spec_magic_destination(target);
            lemma_tracked_projection(target, LOOKAHEAD as int);
            crate::vector::lemma_distance_below(
                target.collider@.destination_turns(LOOKAHEAD as int),
                dest,
                0,
            );
            crate::aim::lemma_effort_bounds(
                target.collider@.destination_turns(LOOKAHEAD as int).distance(dest),
                target.collider.friction as int,
                target.collider.mass as int,
                magic_left,
            );
        }
    }

    /// The target of a spell is a tracked object.
    pub proof fn lemma_magic_target_tracked(&self)
        requires
            self.wf(),
        ensures
            self.spec_magic_target() matches Some(t) ==> self.entities@.contains(t) && t.wf(),
    {
        let score = self.target_goal.spec_center();
        let defend = self.own_goal.spec_center();
        lemma_nearest_snaffle(self.entities@, score, None);
        lemma_nearest_snaffle(self.entities@, defend, None);
        lemma_filter_wf(self.entities@, of_type(EntityType::Opponent));
        if self.spec_magic_target() is Some {
            let t = self.spec_magic_target()->0;
            let found = self.entities@.filter(of_type(EntityType::Opponent));
            if found.len() > 0 {
                assert(self.entities@.contains(found[0]));
                assert(found[0].wf());
            }
            assert(self.entities@.contains(t));
            let k = choose|k: int| 0 <= k < self.entities@.len() && self.entities@[k] == t;
            assert(self.entities@[k].wf());
        }
    }

    /// Budget conservation: whatever the first `k` wizards cast, the magic
    /// left is never more than at the start of the turn, and never less
    /// than nothing unless the turn started so.
    pub proof fn lemma_budget_conserved(&self, k: int)
        requires
            self.wf(),
            0 <= k <= self.spec_wizards().len(),
        ensures
            self.spec_budget_after(k) <= self.magic,
            self.magic >= 0 ==> self.spec_budget_after(k) >= 0,
            self.magic < 0 ==> self.spec_budget_after(k) == self.magic,
            spec_total_spent(self.spec_act_turn().take(k)) == self.magic - self.spec_budget_after(k),
        decreases k,
    {
        let row = self.spec_act_turn().take(k);
        if k > 0 {
            self.lemma_budget_conserved(k - 1);
            lemma_filter_wf(self.entities@, of_type(EntityType::Wizard));
            let wizard = self.spec_wizards()[k - 1];
            assert(wizard.wf());
            self.lemma_action_cost(wizard, self.spec_budget_after(k - 1));
            assert(row.drop_last() =~= self.spec_act_turn().take(k - 1));
            assert(row.last() == self.spec_action(wizard, self.spec_budget_after(k - 1)));
        } else {
            assert(row.len() == 0);
        }
    }

    /// Whether a spell is worth casting with `magic_left` magic.
    pub fn should_magic(&self, magic_left: i32) -> (cast: bool)
        requires
            self.wf(),
        ensures
            cast == self.spec_should_magic(magic_left as int),
    {
        if magic_left > MAGIC_HIGH_WATER {
            return true;
        }
        if magic_left <= MAGIC_FLOOR {
            return false;
        }
        let mut k: usize = 0;
        while k < self.entities.len()
            invariant
                0 <= k <= self.entities.len(),
                self.wf(),
                MAGIC_FLOOR < magic_left <= MAGIC_HIGH_WATER,
                forall|j: int| 0 <= j < k ==> !self.spec_urgent(j),
            decreases self.entities.len() - k,
        {
            let e: Entity = self.entities[k];
            if e.entity_type == EntityType::Snaffle {
                proof {
                    lemma_tracked_projection(e, LOOKAHEAD as int);
                }
                if self.target_goal.destination_is_close(&e, CLOSE_TO_GOAL)
                    || self.own_goal.destination_is_close(&e, CLOSE_TO_GOAL) {
                    assert(self.spec_urgent(k as int));
                    return true;
                }
            }
            k += 1;
        }
        false
    }

    /// The object that a spell is cast on, if there is any.
    pub fn magic_target(&self) -> (target: Option<Entity>)
        requires
            self.wf(),
        ensures
            target == self.spec_magic_target(),
            target matches Some(t) ==> t.wf() && self.entities@.contains(t),
    {
        proof {
            self.lemma_magic_target_tracked();
        }
        let score: Vector2 = self.target_goal.center();
        let defend: Vector2 = self.own_goal.center();
        let push: Option<Entity> = self.closest_snaffle(score);
        let pull: Option<Entity> = self.closest_snaffle(defend);
        match (push, pull) {
            (Some(a), Some(b)) => {
                proof {
                    lemma_nearest_snaffle(self.entities@, score@, None);
                    lemma_nearest_snaffle(self.entities@, defend@, None);
                    let ka = choose|k: int| 0 <= k < self.entities@.len() && self.entities@[k] == a;
                    let kb = choose|k: int| 0 <= k < self.entities@.len() && self.entities@[k] == b;
                    assert(self.entities@[ka].wf() && self.entities@[kb].wf());
                    lemma_tracked_projection(a, LOOKAHEAD as int);
                    lemma_tracked_projection(b, LOOKAHEAD as int);
                }
                let da: i128 = a.collider.destination_turns(LOOKAHEAD).distance_squared(score);
                let db: i128 = b.collider.destination_turns(LOOKAHEAD).distance_squared(defend);
                if da < db {
                    Some(a)
                } else {
                    Some(b)
                }
            },
            _ => {
                let found: Vec<Entity> = self.opponents();
                if found.len() > 0 {
                    Some(found[0])
                } else {
                    None
                }
            },
        }
    }

    /// What `wizard` does with `magic_left` magic at hand.
    pub fn optimal_action(&self, wizard: &Entity, magic_left: i32) -> (kind: ActionType)
        requires
            self.wf(),
        ensures
            kind == self.spec_optimal_action(*wizard, magic_left as int),
    {
        if wizard.has_snaffle {
            ActionType::Throw
        } else if self.should_magic(magic_left) && self.magic_target().is_some() {
            ActionType::Magic
        } else {
            ActionType::Move
        }
    }

    /// The command for `wizard` with `magic_left` magic at hand.
    pub fn action_for(&self, wizard: &Entity, magic_left: i32) -> (action: Action)
        requires
            self.wf(),
            wizard.wf(),
        ensures
            action == self.spec_action(*wizard, magic_left as int),
    {
        match self.optimal_action(wizard, magic_left) {
            ActionType::Throw => {
                let dest: Vector2 = self.throw_destination(wizard);
                let power: i32 = self.throw_power(wizard, &dest);
                Action::Throw { x: whole_units(dest.x), y: whole_units(dest.y), power }
            },
            ActionType::Magic => {
                match self.magic_target() {
                    Some(target) => {
                        let dest: Vector2 = self.magic_destination(&target);
                        let amount: i32 = self.magic_power(&target, &dest, magic_left);
                        Action::Cast {
                            target_id: target.id,
                            x: whole_units(dest.x),
                            y: whole_units(dest.y),
                            amount,
                        }
                    },
                    None => {
                        let dest: Vector2 = self.move_destination(wizard);
                        let thrust: i32 = self.move_thrust(wizard, &dest);
                        Action::Move { x: whole_units(dest.x), y: whole_units(dest.y), thrust }
                    },
                }
            },
            ActionType::Move => {
                let dest: Vector2 = self.move_destination(wizard);
                let thrust: i32 = self.move_thrust(wizard, &dest);
                Action::Move { x: whole_units(dest.x), y: whole_units(dest.y), thrust }
            },
        }
    }

    /// Decides the turn: one command for each own wizard, in registry
    /// order. The magic that a spell costs is no longer at hand for the
    /// wizards that decide after it, so that the spells of a turn never
    /// cost more than the magic the turn began with.
    pub fn act_turn(&self) -> (actions: Vec<Action>)
        requires
            self.wf(),
        ensures
            actions@ == self.spec_act_turn(),
            actions@.len() == self.spec_wizards().len(),
            0 <= spec_total_spent(actions@),
            spec_total_spent(actions@) <= self.magic || spec_total_spent(actions@) == 0,
    {
        let wizards: Vec<Entity> = self.wizards();
        let mut actions: Vec<Action> = Vec::new();
        let mut magic_left: i32 = self.magic;
        let mut k: usize = 0;
        proof {
            lemma_filter_wf(self.entities@, of_type(EntityType::Wizard));
        }
        while k < wizards.len()
            invariant
                0 <= k <= wizards.len(),
                self.wf(),
                wizards@ == self.spec_wizards(),
                registry_wf(wizards@),
                actions.len() == k,
                magic_left == self.spec_budget_after(k as int),
                forall|j: int|
                    0 <= j < k ==> (#[trigger] actions[j]) == self.spec_action(
                        wizards@[j],
                        self.spec_budget_after(j),
                    ),
            decreases wizards.len() - k,
        {
            let wizard: Entity = wizards[k];
            let action: Action = self.action_for(&wizard, magic_left);
            proof {
                self.lemma_budget_conserved(k as int);
                self.lemma_budget_conserved(k + 1);
            }
            magic_left = magic_left - action.spent();
            actions.push(action);
            k += 1;
        }
        proof {
            assert(actions@ =~= self.spec_act_turn());
            self.lemma_budget_conserved(wizards.len() as int);
            assert(self.spec_act_turn().take(wizards.len() as int) =~= self.spec_act_turn());
        }
        actions
    }
}

} // verus!
