//! Where to aim, and how hard: destinations and efforts of the three
//! actions.

use vstd::prelude::*;
use crate::collider::{lemma_projection_bound, Body, Collider};
use crate::config::{
    GOAL_SAMPLES, HALF_HEIGHT, HALF_WIDTH, LOOKAHEAD, MAX_POWER, MAX_THRUST, PASS_RANGE,
    SHOT_RANGE, SIGHT_SAMPLES,
};
use crate::entity::{lemma_tracked_projection, Entity, EntityType};
use crate::fixed::{div_trunc, trunc_div, AIM_LIMIT, COORD_LIMIT, SCALE, WORLD_LIMIT};
use crate::queries::spec_other_wizard;
use crate::select::{best, best_index, rank_view, ranks_view, Rank};
use crate::sight::spec_blocked;
use crate::state::{holds_at, holds_id, slot_of, State};
use crate::vector::{lemma_distance_below, lemma_product_fits, Point, Vector2};

verus! {

/// The effort that a distance asks for, capped: the distance in whole
/// units, scaled by friction over mass and rounded toward zero, or `cap`
/// where that is not more.
pub open spec fn spec_effort(distance: int, friction: int, mass: int, cap: int) -> int {
    let needed = trunc_div(distance * friction, SCALE * mass);
    if needed >= cap {
        cap
    } else {
        needed
    }
}

/// The capped effort is never above the cap, and never negative unless the
/// cap is.
pub proof fn lemma_effort_bounds(distance: int, friction: int, mass: int, cap: int)
    requires
        0 <= distance,
        0 <= friction,
        0 < mass,
    ensures
        spec_effort(distance, friction, mass, cap) <= cap,
        cap >= 0 ==> spec_effort(distance, friction, mass, cap) >= 0,
        0 <= trunc_div(distance * friction, SCALE * mass),
{
    assert(0 <= distance * friction) by (nonlinear_arith)
        requires
            0 <= distance,
            0 <= friction,
    ;
    assert(0 < SCALE * mass) by (nonlinear_arith)
        requires
            0 < mass,
    ;
    assert(0 <= (distance * friction) / (SCALE * mass)) by (nonlinear_arith)
        requires
            0 <= distance * friction,
            0 < SCALE * mass,
    ;
}

/// The capped effort to cross from `from` to `dest`.
pub fn effort(from: Vector2, dest: Vector2, friction: i64, mass: i64, cap: i32) -> (e: i32)
    requires
        from.in_range(),
        dest.in_range(),
        0 <= friction,
        0 < mass,
    ensures
        e == spec_effort(from@.distance(dest@), friction as int, mass as int, cap as int),
{
    let d: i64 = from.distance(dest);
    proof {
        lemma_product_fits(d as int, friction as int);
        lemma_distance_below(from@, dest@, 0);
        lemma_effort_bounds(d as int, friction as int, mass as int, cap as int);
    }
    let needed: i128 = div_trunc((d as i128) * (friction as i128), (SCALE as i128) * (mass as i128));
    if needed >= cap as i128 {
        cap
    } else {
        needed as i32
    }
}

impl State {
    /// How the `i`-th aim point of the target goal ranks as seen from
    /// `from`: by its distance, then by its place from the top pole. A
    /// point without a clear line of sight does not rank.
    pub open spec fn spec_goal_point_rank(&self, from: Point, i: int) -> Rank {
        let p = self.target_goal.spec_point(i, GOAL_SAMPLES as int);
        if !spec_blocked(self.entities@, from, p, SIGHT_SAMPLES as int) {
            Some((from.distance_squared(p), i))
        } else {
            None
        }
    }

    /// The ranks of the standard aim points of the target goal, from the
    /// top pole downward.
    pub open spec fn spec_goal_point_ranks(&self, from: Point) -> Seq<Rank> {
        Seq::new((GOAL_SAMPLES - 1) as nat, |i: int| self.spec_goal_point_rank(from, i))
    }

    /// The aim point of the target goal that is nearest to where `body` is
    /// predicted to be, among those with a clear line of sight from there.
    pub open spec fn spec_open_destination_ahead(&self, body: Body) -> Option<Point> {
        let from = body.destination_turns(LOOKAHEAD as int);
        match best(self.spec_goal_point_ranks(from)) {
            Some(i) => Some(self.target_goal.spec_point(i, GOAL_SAMPLES as int)),
            None => None,
        }
    }

    /// What the open destination is. There is none exactly when every
    /// standard aim point of the target goal is out of sight from where
    /// `body` is predicted to be. Otherwise it is such an aim point in clear
    /// sight, and no aim point in clear sight is nearer.
    pub proof fn lemma_open_destination_ahead(&self, body: Body)
        ensures
            self.spec_open_destination_ahead(body) is None <==> (forall|j: int|
                0 <= j < GOAL_SAMPLES - 1 ==> spec_blocked(
                    self.entities@,
                    body.destination_turns(LOOKAHEAD as int),
                    #[trigger] self.target_goal.spec_point(j, GOAL_SAMPLES as int),
                    SIGHT_SAMPLES as int,
                )),
            self.spec_open_destination_ahead(body) matches Some(p) ==> {
                &&& exists|i: int|
                    0 <= i < GOAL_SAMPLES - 1 && p == #[trigger] self.target_goal.spec_point(
                        i,
                        GOAL_SAMPLES as int,
                    )
                &&& !spec_blocked(
                    self.entities@,
                    body.destination_turns(LOOKAHEAD as int),
                    p,
                    SIGHT_SAMPLES as int,
                )
                &&& forall|j: int|
                    0 <= j < GOAL_SAMPLES - 1 && !spec_blocked(
                        self.entities@,
                        body.destination_turns(LOOKAHEAD as int),
                        #[trigger] self.target_goal.spec_point(j, GOAL_SAMPLES as int),
                        SIGHT_SAMPLES as int,
                    ) ==> body.destination_turns(LOOKAHEAD as int).distance_squared(p)
                        <= body.destination_turns(LOOKAHEAD as int).distance_squared(
                        self.target_goal.spec_point(j, GOAL_SAMPLES as int),
                    )
            },
    {
        let from = body.destination_turns(LOOKAHEAD as int);
        let ranks = self.spec_goal_point_ranks(from);
        crate::select::lemma_best(ranks);
        if best(ranks) is Some {
            let i = best(ranks)->0;
            let p = self.target_goal.spec_point(i, GOAL_SAMPLES as int);
            assert(ranks[i] is Some);
            assert forall|j: int|
                0 <= j < GOAL_SAMPLES - 1 && !spec_blocked(
                    self.entities@,
                    from,
                    #[trigger] self.target_goal.spec_point(j, GOAL_SAMPLES as int),
                    SIGHT_SAMPLES as int,
                ) implies from.distance_squared(p) <= from.distance_squared(
                self.target_goal.spec_point(j, GOAL_SAMPLES as int),
            ) by {
                assert(ranks[j] is Some);
                assert(!crate::select::rank_before(ranks[j]->0, ranks[i]->0));
            }
        } else {
            assert forall|j: int| 0 <= j < GOAL_SAMPLES - 1 implies spec_blocked(
                self.entities@,
                from,
                #[trigger] self.target_goal.spec_point(j, GOAL_SAMPLES as int),
                SIGHT_SAMPLES as int,
            ) by {
                assert(ranks[j] is None);
            }
        }
        if forall|j: int|
            0 <= j < GOAL_SAMPLES - 1 ==> spec_blocked(
                self.entities@,
                from,
                #[trigger] self.target_goal.spec_point(j, GOAL_SAMPLES as int),
                SIGHT_SAMPLES as int,
            ) {
            assert forall|j: int| 0 <= j < ranks.len() implies (#[trigger] ranks[j]) is None by {
                assert(spec_blocked(
                    self.entities@,
                    from,
                    self.target_goal.spec_point(j, GOAL_SAMPLES as int),
                    SIGHT_SAMPLES as int,
                ));
            }
        }
    }

    /// Where a pass from `wizard` goes, if one is worth it: to the predicted
    /// position of the teammate, where that is within passing range of the
    /// wizard's own predicted position, nearer to the goal, and in clear
    /// sight.
    pub open spec fn spec_pass(&self, wizard: Entity) -> Option<Point> {
        let ahead = wizard.collider@.future_turns(LOOKAHEAD as int);
        let center = self.target_goal.spec_center();
        match spec_other_wizard(self.entities@, wizard.id) {
            Some(mate) => {
                let at = mate.collider@.destination_turns(LOOKAHEAD as int);
                if at.distance(ahead.pos) < PASS_RANGE && at.distance_squared(center)
                    < ahead.pos.distance_squared(center) && !spec_blocked(
                    self.entities@,
                    ahead.pos,
                    at,
                    SIGHT_SAMPLES as int,
                ) {
                    Some(at)
                } else {
                    None
                }
            },
            None => None,
        }
    }

    /// Where `wizard` throws, judged on the wizard as it is predicted to be
    /// after the look-ahead. Within shooting range of the goal: behind the
    /// goal. Otherwise a pass, where one is worth it; otherwise the open
    /// destination ahead of the predicted wizard; otherwise behind the goal.
    /// The predicted velocity of the wizard is taken off the aim.
    pub open spec fn spec_throw_destination(&self, wizard: Entity) -> Point {
        let ahead = wizard.collider@.future_turns(LOOKAHEAD as int);
        let center = self.target_goal.spec_center();
        let behind = self.target_goal.spec_behind_goal();
        let aim = if ahead.pos.distance(center) < SHOT_RANGE {
            behind
        } else {
            match self.spec_pass(wizard) {
                Some(p) => p,
                None => match self.spec_open_destination_ahead(ahead) {
                    Some(p) => p,
                    None => behind,
                },
            }
        };
        aim.add(ahead.vel.negate())
    }

    /// The power of a throw by `wizard` to `dest`: what the distance from
    /// its predicted position asks of a snaffle, at most `MAX_POWER`.
    pub open spec fn spec_throw_power(wizard: Entity, dest: Point) -> int {
        spec_effort(
            wizard.collider@.destination_turns(LOOKAHEAD as int).distance(dest),
            EntityType::Snaffle.spec_friction(),
            EntityType::Snaffle.spec_mass(),
            MAX_POWER as int,
        )
    }

    /// How the own wizard in slot `i` ranks as the receiver of `ball`: only
    /// if it is predicted nearer to the goal than the ball, then by its
    /// predicted distance from the ball; of two at the same distance the
    /// later one.
    pub open spec fn spec_receiver_rank(&self, ball: Body, i: int) -> Rank {
        let e = self.entities@[i];
        let at = e.collider@.destination_turns(LOOKAHEAD as int);
        let center = self.target_goal.spec_center();
        if e.entity_type == EntityType::Wizard && at.distance_squared(center)
            < ball.pos.distance_squared(center) {
            Some((at.distance_squared(ball.pos), -i))
        } else {
            None
        }
    }

    /// The ranks of all tracked objects as receivers of `ball`, in
    /// registry order.
    pub open spec fn spec_receiver_ranks(&self, ball: Body) -> Seq<Rank> {
        Seq::new(self.entities@.len(), |i: int| self.spec_receiver_rank(ball, i))
    }

    /// The predicted position of the own wizard that is best placed to
    /// receive `ball`.
    pub open spec fn spec_receiver(&self, ball: Body) -> Option<Point> {
        match best(self.spec_receiver_ranks(ball)) {
            Some(i) => Some(self.entities@[i].collider@.destination_turns(LOOKAHEAD as int)),
            None => None,
        }
    }

    /// Where a spell sends `target`, judged on the target as it is
    /// predicted to be after the look-ahead. Within half the map of the
    /// goal: behind the goal. Otherwise the open destination ahead of the
    /// predicted target; otherwise the best placed own wizard; otherwise
    /// behind the goal. The predicted velocity of the target is taken off
    /// the aim.
    pub open spec fn spec_magic_destination(&self, target: Entity) -> Point {
        let ball = target.collider@.future_turns(LOOKAHEAD as int);
        let center = self.target_goal.spec_center();
        let behind = self.target_goal.spec_behind_goal();
        let aim = if ball.pos.distance(center) < HALF_WIDTH {
            behind
        } else {
            match self.spec_open_destination_ahead(ball) {
                Some(p) => p,
                None => match self.spec_receiver(ball) {
                    Some(p) => p,
                    None => behind,
                },
            }
        };
        aim.add(ball.vel.negate())
    }

    /// The magic of a spell that sends `target` to `dest`: what the distance
    /// from its predicted position asks of it, at most what is left.
    pub open spec fn spec_magic_power(target: Entity, dest: Point, magic_left: int) -> int {
        spec_effort(
            target.collider@.destination_turns(LOOKAHEAD as int).distance(dest),
            target.collider.friction as int,
            target.collider.mass as int,
            magic_left,
        )
    }

    /// Where `wizard` moves: to the predicted position of its target, less
    /// its own velocity; to the middle of the map where it has no target or
    /// the target is not tracked.
    pub open spec fn spec_move_destination(&self, wizard: Entity) -> Point {
        if wizard.target is Some && holds_id(self.entities@, wizard.target->0) {
            let target = self.entities@[slot_of(self.entities@, wizard.target->0)];
            target.collider@.destination_turns(LOOKAHEAD as int).add(wizard.collider.vel@.negate())
        } else {
            Point { x: HALF_WIDTH as int, y: HALF_HEIGHT as int }
        }
    }

    /// The thrust of a move by `wizard` to `dest`: what the distance from
    /// its predicted position asks of it, at most `MAX_THRUST`.
    pub open spec fn spec_move_thrust(wizard: Entity, dest: Point) -> int {
        spec_effort(
            wizard.collider@.destination_turns(LOOKAHEAD as int).distance(dest),
            wizard.collider.friction as int,
            wizard.collider.mass as int,
            MAX_THRUST as int,
        )
    }

    /// The nearest aim point of the target goal in clear sight of the place
    /// where `target` is predicted to be.
    pub fn open_destination_ahead(&self, target: &Entity) -> (open: Option<Vector2>)
        requires
            self.wf(),
            target.collider.wf(),
            target.collider@.destination_turns(LOOKAHEAD as int).within(COORD_LIMIT as int),
        ensures
            open matches Some(p) ==> self.spec_open_destination_ahead(target.collider@) == Some(p@)
                && p@.within(6 * WORLD_LIMIT),
            open is None ==> self.spec_open_destination_ahead(target.collider@) is None,
    {
        let from: Vector2 = target.collider.destination_turns(LOOKAHEAD);
        let points: Vec<Vector2> = self.target_goal.points_inside_goal(GOAL_SAMPLES);
        let mut ranks: Vec<Option<(i128, i128)>> = Vec::new();
        let mut i: usize = 0;
        while i < points.len()
            invariant
                0 <= i <= points.len(),
                points.len() == GOAL_SAMPLES - 1,
                self.wf(),
                from.in_range(),
                ranks.len() == i,
                forall|j: int|
                    0 <= j < points.len() ==> (#[trigger] points[j])@
                        == self.target_goal.spec_point(j, GOAL_SAMPLES as int)
                        && points[j].in_range(),
                forall|j: int|
                    0 <= j < i ==> rank_view(#[trigger] ranks[j]) == self.spec_goal_point_rank(
                        from@,
                        j,
                    ),
            decreases points.len() - i,
        {
            if !self.is_obstacles_in_between(&from, &points[i]) {
                let d: i128 = from.distance_squared(points[i]);
                ranks.push(Some((d, i as i128)));
            } else {
                ranks.push(None);
            }
            i += 1;
        }
        proof {
            assert(ranks_view(ranks@) =~= self.spec_goal_point_ranks(from@));
        }
        match best_index(&ranks) {
            Some(slot) => Some(points[slot]),
            None => None,
        }
    }

    /// Where `wizard` throws the snaffle that it carries.
    pub fn throw_destination(&self, wizard: &Entity) -> (dest: Vector2)
        requires
            self.wf(),
            wizard.wf(),
        ensures
            dest@ == self.spec_throw_destination(*wizard),
            dest@.within(AIM_LIMIT as int),
    {
        proof {
            lemma_tracked_projection(*wizard, LOOKAHEAD as int);
        }
        let ahead: Entity = wizard.future_turns(LOOKAHEAD);
        let center: Vector2 = self.target_goal.center();
        let behind: Vector2 = self.target_goal.behind_goal();
        proof {
            lemma_projection_bound(ahead.collider@, LOOKAHEAD as int, WORLD_LIMIT as int);
        }
        let aim: Vector2 = if ahead.collider.pos.distance(center) < SHOT_RANGE {
            behind
        } else {
            match self.pass_destination(wizard) {
                Some(p) => p,
                None => match self.open_destination_ahead(&ahead) {
                    Some(p) => p,
                    None => behind,
                },
            }
        };
        aim.add(ahead.collider.vel.negate())
    }

    /// Where a pass from `wizard` goes, if one is worth it.
    pub fn pass_destination(&self, wizard: &Entity) -> (pass: Option<Vector2>)
        requires
            self.wf(),
            wizard.wf(),
        ensures
            pass matches Some(p) ==> self.spec_pass(*wizard) == Some(p@) && p@.within(
                4 * WORLD_LIMIT,
            ),
            pass is None ==> self.spec_pass(*wizard) is None,
    {
        proof {
            lemma_tracked_projection(*wizard, LOOKAHEAD as int);
        }
        let from: Vector2 = wizard.collider.destination_turns(LOOKAHEAD);
        let center: Vector2 = self.target_goal.center();
        match self.other_wizard(wizard) {
            Some(mate) => {
                proof {
                    let k = choose|k: int| 0 <= k < self.entities@.len() && self.entities@[k] == mate;
                    assert(self.entities@[k].wf());
                    lemma_tracked_projection(mate, LOOKAHEAD as int);
                }
                let at: Vector2 = mate.collider.destination_turns(LOOKAHEAD);
                if at.distance(from) < PASS_RANGE && at.distance_squared(center)
                    < from.distance_squared(center) && !self.is_obstacles_in_between(&from, &at) {
                    Some(at)
                } else {
                    None
                }
            },
            None => None,
        }
    }

    /// The power of a throw by `wizard` to `dest`.
    pub fn throw_power(&self, wizard: &Entity, dest: &Vector2) -> (power: i32)
        requires
            wizard.wf(),
            dest.in_range(),
        ensures
            power == Self::spec_throw_power(*wizard, dest@),
            0 <= power <= MAX_POWER,
    {
        proof {
            lemma_tracked_projection(*wizard, LOOKAHEAD as int);
            lemma_distance_below(wizard.collider@.destination_turns(LOOKAHEAD as int), dest@, 0);
            lemma_effort_bounds(
                wizard.collider@.destination_turns(LOOKAHEAD as int).distance(dest@),
                EntityType::Snaffle.spec_friction(),
                EntityType::Snaffle.spec_mass(),
                MAX_POWER as int,
            );
        }
        effort(
            wizard.collider.destination_turns(LOOKAHEAD),
            *dest,
            EntityType::Snaffle.friction(),
            EntityType::Snaffle.mass(),
            MAX_POWER,
        )
    }

    /// The predicted position of the own wizard that is best placed to
    /// receive `ball`.
    pub fn receiver(&self, ball: &Collider) -> (found: Option<Vector2>)
        requires
            self.wf(),
            ball.pos.in_range(),
        ensures
            found matches Some(p) ==> self.spec_receiver(ball@) == Some(p@) && p@.within(
                4 * WORLD_LIMIT,
            ),
            found is None ==> self.spec_receiver(ball@) is None,
    {
        let center: Vector2 = self.target_goal.center();
        let reach: i128 = ball.pos.distance_squared(center);
        let mut ranks: Vec<Option<(i128, i128)>> = Vec::new();
        let mut i: usize = 0;
        while i < self.entities.len()
            invariant
                0 <= i <= self.entities.len(),
                self.wf(),
                ball.pos.in_range(),
                center@ == self.target_goal.spec_center(),
                center.in_range(),
                reach == ball@.pos.distance_squared(center@),
                ranks.len() == i,
                forall|j: int|
                    0 <= j < i ==> rank_view(#[trigger] ranks[j]) == self.spec_receiver_rank(
                        ball@,
                        j,
                    ),
            decreases self.entities.len() - i,
        {
            let e: Entity = self.entities[i];
            if e.entity_type == EntityType::Wizard {
                proof {
                    lemma_tracked_projection(e, LOOKAHEAD as int);
                }
                let at: Vector2 = e.collider.destination_turns(LOOKAHEAD);
                if at.distance_squared(center) < reach {
                    let d: i128 = at.distance_squared(ball.pos);
                    ranks.push(Some((d, -(i as i128))));
                } else {
                    ranks.push(None);
                }
            } else {
                ranks.push(None);
            }
            i += 1;
        }
        proof {
            assert(ranks_view(ranks@) =~= self.spec_receiver_ranks(ball@));
        }
        match best_index(&ranks) {
            Some(slot) => {
                proof {
                    lemma_tracked_projection(self.entities@[slot as int], LOOKAHEAD as int);
                }
                Some(self.entities[slot].collider.destination_turns(LOOKAHEAD))
            },
            None => None,
        }
    }

    /// Where a spell sends `target`.
    pub fn magic_destination(&self, target: &Entity) -> (dest: Vector2)
        requires
            self.wf(),
            target.wf(),
        ensures
            dest@ == self.spec_magic_destination(*target),
            dest@.within(AIM_LIMIT as int),
    {
        proof {
            lemma_tracked_projection(*target, LOOKAHEAD as int);
        }
        let ball: Entity = target.future_turns(LOOKAHEAD);
        let center: Vector2 = self.target_goal.center();
        let behind: Vector2 = self.target_goal.behind_goal();
        proof {
            lemma_projection_bound(ball.collider@, LOOKAHEAD as int, WORLD_LIMIT as int);
        }
        let aim: Vector2 = if ball.collider.pos.distance(center) < HALF_WIDTH {
            behind
        } else {
            match self.open_destination_ahead(&ball) {
                Some(p) => p,
                None => match self.receiver(&ball.collider) {
                    Some(p) => p,
                    None => behind,
                },
            }
        };
        aim.add(ball.collider.vel.negate())
    }

    /// The magic of a spell that sends `target` to `dest`, at most
    /// `magic_left`.
    pub fn magic_power(&self, target: &Entity, dest: &Vector2, magic_left: i32) -> (amount: i32)
        requires
            target.wf(),
            dest.in_range(),
        ensures
            amount == Self::spec_magic_power(*target, dest@, magic_left as int),
            amount <= magic_left,
            magic_left >= 0 ==> amount >= 0,
    {
        proof {
            lemma_tracked_projection(*target, LOOKAHEAD as int);
            lemma_distance_below(target.collider@.destination_turns(LOOKAHEAD as int), dest@, 0);
            lemma_effort_bounds(
                target.collider@.destination_turns(LOOKAHEAD as int).distance(dest@),
                target.collider.friction as int,
                target.collider.mass as int,
                magic_left as int,
            );
        }
        effort(
            target.collider.destination_turns(LOOKAHEAD),
            *dest,
            target.collider.friction,
            target.collider.mass,
            magic_left,
        )
    }

    /// Where `wizard` moves.
    pub fn move_destination(&self, wizard: &Entity) -> (dest: Vector2)
        requires
            self.wf(),
            wizard.wf(),
        ensures
            dest@ == self.spec_move_destination(*wizard),
            dest@.within(AIM_LIMIT as int),
    {
        let found: Option<usize> = match wizard.target {
            Some(id) => self.find_index(id),
            None => None,
        };
        match found {
            Some(slot) => {
                proof {
                    assert(holds_at(self.entities@, wizard.target->0, slot as int));
                    lemma_tracked_projection(self.entities@[slot as int], LOOKAHEAD as int);
                }
                let at: Vector2 = self.entities[slot].collider.destination_turns(LOOKAHEAD);
                at.add(wizard.collider.vel.negate())
            },
            None => Vector2::new(HALF_WIDTH, HALF_HEIGHT),
        }
    }

    /// The thrust of a move by `wizard` to `dest`.
    pub fn move_thrust(&self, wizard: &Entity, dest: &Vector2) -> (thrust: i32)
        requires
            wizard.wf(),
            dest.in_range(),
        ensures
            thrust == Self::spec_move_thrust(*wizard, dest@),
            0 <= thrust <= MAX_THRUST,
    {
        proof {
            lemma_tracked_projection(*wizard, LOOKAHEAD as int);
            lemma_distance_below(wizard.collider@.destination_turns(LOOKAHEAD as int), dest@, 0);
            lemma_effort_bounds(
                wizard.collider@.destination_turns(LOOKAHEAD as int).distance(dest@),
                wizard.collider.friction as int,
                wizard.collider.mass as int,
                MAX_THRUST as int,
            );
        }
        effort(
            wizard.collider.destination_turns(LOOKAHEAD),
            *dest,
            wizard.collider.friction,
            wizard.collider.mass,
            MAX_THRUST,
        )
    }
}

} // verus!
