//! Goals: two immovable poles, and the aim points between and behind them.

use vstd::prelude::*;
use crate::collider::{Body, Collider};
use crate::config::{
    BEHIND_GOAL, BOTTOM_POLE_Y, GOAL_CENTER_Y, GOAL_SAMPLES, LOOKAHEAD, POLE_CLEARANCE,
    POLE_MASS, POLE_RADIUS, RIGHT_GOAL_X, TOP_POLE_Y,
};
use crate::entity::Entity;
use crate::fixed::{div_trunc, trunc_div, COORD_LIMIT, WORLD_LIMIT};
use crate::vector::{
    lemma_distance_within, lemma_trunc_share_bound, Point, Vector2,
};

verus! {

/// A goal, given by its two poles.
#[derive(Clone, Copy, Debug, PartialEq, Eq, Structural)]
pub struct Goal {
    pub pole_top: Collider,
    pub pole_bottom: Collider,
}

impl Goal {
    /// The body can be a goal pole: it is immovable, with no velocity and
    /// no friction; it stands where a report in whole 32-bit units could
    /// place it; and it has a positive mass and a positive radius that is no
    /// larger than that range.
    pub open spec fn spec_is_pole(pole: Collider) -> bool {
        &&& pole.pos@.within(WORLD_LIMIT as int)
        &&& pole.vel.x == 0
        &&& pole.vel.y == 0
        &&& pole.friction == 0
        &&& 0 < pole.mass
        &&& 0 < pole.radius <= WORLD_LIMIT
    }

    /// Both poles are well-formed goal poles.
    pub open spec fn wf(&self) -> bool {
        &&& Goal::spec_is_pole(self.pole_top)
        &&& Goal::spec_is_pole(self.pole_bottom)
    }

    /// An immovable pole at `(x, y)`.
    pub open spec fn spec_pole(x: i64, y: i64) -> Collider {
        Collider {
            pos: Vector2 { x, y },
            vel: Vector2 { x: 0, y: 0 },
            friction: 0,
            mass: POLE_MASS,
            radius: POLE_RADIUS,
        }
    }

    /// The goal in which team `team_id` scores: the right one for team 0,
    /// the left one for any other.
    pub open spec fn spec_new(team_id: int) -> Goal {
        let x = if team_id == 0 { RIGHT_GOAL_X } else { 0i64 };
        Goal {
            pole_top: Goal::spec_pole(x, TOP_POLE_Y),
            pole_bottom: Goal::spec_pole(x, BOTTOM_POLE_Y),
        }
    }

    /// The middle of the goal line.
    pub open spec fn spec_center(&self) -> Point {
        Point { x: self.pole_bottom.pos.x as int, y: GOAL_CENTER_Y as int }
    }

    /// The aim point of a direct shot: behind the middle of the goal line,
    /// to the left of a goal on the left edge and to the right of any other.
    pub open spec fn spec_behind_goal(&self) -> Point {
        let c = self.spec_center();
        Point { x: c.x + if c.x == 0 { -BEHIND_GOAL } else { BEHIND_GOAL as int }, y: c.y }
    }

    /// The free height between the poles: the distance of their centres
    /// less the top pole's diameter.
    pub open spec fn spec_opening(&self) -> int {
        self.pole_top.pos@.distance(self.pole_bottom.pos@) - 2 * self.pole_top.radius
    }

    /// The `i`-th aim point when the opening is divided into `num` parts:
    /// on the goal line, below the top pole by its radius, the clearance,
    /// and `i` parts of the opening.
    pub open spec fn spec_point(&self, i: int, num: int) -> Point {
        Point {
            x: self.pole_bottom.pos.x as int,
            y: self.pole_top.pos.y + self.pole_top.radius + POLE_CLEARANCE + trunc_div(
                i * self.spec_opening(),
                num,
            ),
        }
    }

    /// The `i`-th of the standard aim points is closer than `limit` to the
    /// place where `body` is predicted to be.
    pub open spec fn spec_point_is_close(&self, body: Body, limit: int, i: int) -> bool {
        body.destination_turns(LOOKAHEAD as int).distance(self.spec_point(i, GOAL_SAMPLES as int))
            < limit
    }

    /// Some standard aim point is closer than `limit` to the place where
    /// `body` is predicted to be.
    pub open spec fn spec_destination_is_close(&self, body: Body, limit: int) -> bool {
        exists|i: int|
            0 <= i < GOAL_SAMPLES - 1 && #[trigger] self.spec_point_is_close(body, limit, i)
    }

    /// For the goal of any team, the middle of the goal line is the point
    /// half way between the poles.
    pub proof fn lemma_center_is_midpoint(team_id: int)
        ensures
            ({
                let g = Goal::spec_new(team_id);
                2 * g.spec_center().x == g.pole_top.pos.x + g.pole_bottom.pos.x && 2
                    * g.spec_center().y == g.pole_top.pos.y + g.pole_bottom.pos.y
            }),
    {
    }

    /// Whether the body can be a goal pole.
    pub fn is_pole(pole: &Collider) -> (ok: bool)
        ensures
            ok == Goal::spec_is_pole(*pole),
    {
        -WORLD_LIMIT <= pole.pos.x && pole.pos.x <= WORLD_LIMIT && -WORLD_LIMIT <= pole.pos.y
            && pole.pos.y <= WORLD_LIMIT && pole.vel.x == 0 && pole.vel.y == 0 && pole.friction
            == 0 && 0 < pole.mass && 0 < pole.radius && pole.radius <= WORLD_LIMIT
    }

    /// Whether the goal is well formed.
    pub fn is_valid(&self) -> (ok: bool)
        ensures
            ok == self.wf(),
    {
        Goal::is_pole(&self.pole_top) && Goal::is_pole(&self.pole_bottom)
    }

    /// The goal in which team `team_id` scores.
    pub fn new(team_id: i32) -> (g: Goal)
        ensures
            g == Goal::spec_new(team_id as int),
            g.wf(),
            g.pole_top.wf(),
            g.pole_bottom.wf(),
    {
        let x: i64 = if team_id == 0 { RIGHT_GOAL_X } else { 0 };
        Goal {
            pole_top: Collider::new(
                Vector2::new(x, TOP_POLE_Y),
                Vector2::new(0, 0),
                0,
                POLE_MASS,
                POLE_RADIUS,
            ),
            pole_bottom: Collider::new(
                Vector2::new(x, BOTTOM_POLE_Y),
                Vector2::new(0, 0),
                0,
                POLE_MASS,
                POLE_RADIUS,
            ),
        }
    }

    /// Whether the object is predicted to come closer than
    /// `close_to_limit` to one of the standard aim points.
    pub fn destination_is_close(&self, entity: &Entity, close_to_limit: i64) -> (close: bool)
        requires
            self.wf(),
            entity.collider.wf(),
            entity.collider@.destination_turns(LOOKAHEAD as int).within(COORD_LIMIT as int),
        ensures
            close == self.spec_destination_is_close(entity.collider@, close_to_limit as int),
    {
        let points: Vec<Vector2> = self.points_inside_goal(GOAL_SAMPLES);
        let dest: Vector2 = entity.collider.destination_turns(LOOKAHEAD);
        let mut i: usize = 0;
        while i < points.len()
            invariant
                0 <= i <= points.len(),
                points.len() == GOAL_SAMPLES - 1,
                dest.in_range(),
                dest@ == entity.collider@.destination_turns(LOOKAHEAD as int),
                forall|j: int|
                    0 <= j < points.len() ==> (#[trigger] points[j])@ == self.spec_point(
                        j,
                        GOAL_SAMPLES as int,
                    ) && points[j].in_range(),
                forall|j: int|
                    0 <= j < i ==> !#[trigger] self.spec_point_is_close(
                        entity.collider@,
                        close_to_limit as int,
                        j,
                    ),
            decreases points.len() - i,
        {
            if dest.distance(points[i]) < close_to_limit {
                assert(self.spec_point_is_close(entity.collider@, close_to_limit as int, i as int));
                return true;
            }
            i += 1;
        }
        false
    }

    /// The aim points for a division of the opening into `num` parts, from
    /// the top pole downward.
    pub fn points_inside_goal(&self, num: usize) -> (points: Vec<Vector2>)
        requires
            self.wf(),
            num >= 1,
        ensures
            points.len() == num - 1,
            forall|i: int|
                0 <= i < points.len() ==> (#[trigger] points[i])@ == self.spec_point(i, num as int),
            forall|i: int|
                0 <= i < points.len() ==> (#[trigger] points[i])@.within(6 * WORLD_LIMIT)
                    && points[i].in_range(),
    {
        let mut points: Vec<Vector2> = Vec::new();
        let d: i64 = self.pole_top.pos.distance(self.pole_bottom.pos);
        proof {
            lemma_distance_within(self.pole_top.pos@, self.pole_bottom.pos@, WORLD_LIMIT as int);
        }
        let opening: i64 = d - 2 * self.pole_top.radius;
        let base: i64 = self.pole_top.pos.y + self.pole_top.radius + POLE_CLEARANCE;
        let mut i: usize = 0;
        while i < num - 1
            invariant
                self.wf(),
                num >= 1,
                0 <= i <= num - 1,
                points.len() == i,
                opening == self.spec_opening(),
                -2 * WORLD_LIMIT <= opening <= 3 * WORLD_LIMIT,
                base == self.pole_top.pos.y + self.pole_top.radius + POLE_CLEARANCE,
                forall|j: int|
                    0 <= j < i ==> (#[trigger] points[j])@ == self.spec_point(j, num as int),
                forall|j: int|
                    0 <= j < i ==> (#[trigger] points[j])@.within(6 * WORLD_LIMIT)
                        && points[j].in_range(),
            decreases num - 1 - i,
        {
            proof {
                lemma_trunc_share_bound(opening as int, i as int, num as int);
                assert(-0x1_0000_0000_0000_0000 * (3 * WORLD_LIMIT) <= (i as int) * (opening as int)
                    <= 0x1_0000_0000_0000_0000 * (3 * WORLD_LIMIT)) by (nonlinear_arith)
                    requires
                        0 <= i < 0x1_0000_0000_0000_0000,
                        -2 * WORLD_LIMIT <= opening <= 3 * WORLD_LIMIT,
                ;
                assert((i as int) * (opening as int) == (opening as int) * (i as int))
                    by (nonlinear_arith);
            }
            let share: i128 = div_trunc((i as i128) * (opening as i128), num as i128);
            let y: i128 = (base as i128) + share;
            points.push(Vector2::new(self.pole_bottom.pos.x, y as i64));
            i += 1;
        }
        points
    }

    /// The middle of the goal line.
    pub fn center(&self) -> (c: Vector2)
        ensures
            c@ == self.spec_center(),
            self.wf() ==> c@.within(WORLD_LIMIT as int),
    {
        Vector2::new(self.pole_bottom.pos.x, GOAL_CENTER_Y)
    }

    /// The aim point of a direct shot, behind the middle of the goal line.
    pub fn behind_goal(&self) -> (p: Vector2)
        requires
            self.wf(),
        ensures
            p@ == self.spec_behind_goal(),
            p@.within(2 * WORLD_LIMIT),
    {
        let center: Vector2 = self.center();
        let shift: i64 = if center.x == 0 { -BEHIND_GOAL } else { BEHIND_GOAL };
        Vector2::new(center.x + shift, center.y)
    }
}

} // verus!
