//! Physical body model: a moving circle whose velocity decays by friction.

use vstd::prelude::*;
use crate::fixed::{COORD_LIMIT, SCALE};
use crate::vector::{
    lemma_distance_below, lemma_product_fits, lemma_trunc_share_bound, Point, Vector2,
};

verus! {

/// How friction enters a projection over several turns.
#[derive(Clone, Copy, Debug, PartialEq, Eq, Structural)]
pub enum Decay {
    /// Every turn adds the velocity as friction leaves it after one turn.
    /// This is the rule of `destination_turns` and `velocity_turns`, and the
    /// one that every prediction of the engine uses.
    Flat,
    /// Friction acts anew every turn: the `k`-th turn adds the velocity
    /// decayed `k` times, each time rounded to the grid.
    Compounding,
}

/// The mathematical value of a `Collider`.
pub struct Body {
    pub pos: Point,
    pub vel: Point,
    pub friction: int,
    pub mass: int,
    pub radius: int,
}

impl Body {
    /// The velocity after friction has acted once.
    pub open spec fn decayed_velocity(self) -> Point {
        self.vel.mul_num(self.friction)
    }

    /// Position after `turns` turns. Every turn adds the same once-decayed
    /// velocity: the decay does not compound from turn to turn.
    pub open spec fn destination_turns(self, turns: int) -> Point {
        if turns <= 0 {
            self.pos
        } else {
            Point {
                x: self.pos.x + turns * self.decayed_velocity().x,
                y: self.pos.y + turns * self.decayed_velocity().y,
            }
        }
    }

    /// Velocity after `turns` turns under the same rule: the once-decayed
    /// velocity as soon as one turn has passed.
    pub open spec fn velocity_turns(self, turns: int) -> Point {
        if turns <= 0 {
            self.vel
        } else {
            self.decayed_velocity()
        }
    }

    /// Velocity after friction has acted `turns` times, rounded to the grid
    /// each time.
    pub open spec fn compounded_velocity(self, turns: int) -> Point
        decreases turns,
    {
        if turns <= 0 {
            self.vel
        } else {
            self.compounded_velocity(turns - 1).mul_num(self.friction)
        }
    }

    /// Position after `turns` turns when friction acts anew every turn: the
    /// sum of the position and the first `turns` compounded velocities.
    pub open spec fn compounded_destination(self, turns: int) -> Point
        decreases turns,
    {
        if turns <= 0 {
            self.pos
        } else {
            self.compounded_destination(turns - 1).add(self.compounded_velocity(turns))
        }
    }

    /// Position after `turns` turns under the given rule.
    pub open spec fn destination_under(self, decay: Decay, turns: int) -> Point {
        match decay {
            Decay::Flat => self.destination_turns(turns),
            Decay::Compounding => self.compounded_destination(turns),
        }
    }

    /// Velocity after `turns` turns under the given rule.
    pub open spec fn velocity_under(self, decay: Decay, turns: int) -> Point {
        match decay {
            Decay::Flat => self.velocity_turns(turns),
            Decay::Compounding => self.compounded_velocity(turns),
        }
    }

    /// The body as it is predicted to be `turns` turns ahead.
    pub open spec fn future_turns(self, turns: int) -> Body {
        Body {
            pos: self.destination_turns(turns),
            vel: self.velocity_turns(turns),
            friction: self.friction,
            mass: self.mass,
            radius: self.radius,
        }
    }

    /// The two circles overlap: their centres are closer than the sum of
    /// their radii.
    pub open spec fn collides(self, other: Body) -> bool {
        self.pos.distance(other.pos) < self.radius + other.radius
    }
}

/// Friction between zero and one never lengthens a velocity component.
pub proof fn lemma_decay_bound(b: Body)
    requires
        0 <= b.friction <= SCALE,
    ensures
        b.vel.x >= 0 ==> 0 <= b.decayed_velocity().x <= b.vel.x,
        b.vel.x <= 0 ==> b.vel.x <= b.decayed_velocity().x <= 0,
        b.vel.y >= 0 ==> 0 <= b.decayed_velocity().y <= b.vel.y,
        b.vel.y <= 0 ==> b.vel.y <= b.decayed_velocity().y <= 0,
{
    lemma_trunc_share_bound(b.vel.x, b.friction, SCALE as int);
    lemma_trunc_share_bound(b.vel.y, b.friction, SCALE as int);
}

/// Under the flat rule every turn adds the same step: the position after
/// one more turn is the position after `turns` turns plus the once-decayed
/// velocity, and over no turns nothing moves.
pub proof fn lemma_flat_step(b: Body, turns: int)
    requires
        0 <= turns,
    ensures
        b.destination_turns(0) == b.pos,
        b.destination_turns(turns + 1) == b.destination_turns(turns).add(b.decayed_velocity()),
        b.velocity_turns(turns + 1) == b.decayed_velocity(),
{
    let s = b.decayed_velocity();
    assert((turns + 1) * s.x == turns * s.x + s.x) by (nonlinear_arith);
    assert((turns + 1) * s.y == turns * s.y + s.y) by (nonlinear_arith);
}

/// A projection over `turns` turns moves each coordinate by at most `turns`
/// times the magnitude of the velocity component.
pub proof fn lemma_projection_bound(b: Body, turns: int, speed: int)
    requires
        0 <= b.friction <= SCALE,
        b.vel.within(speed),
        0 <= turns,
    ensures
        b.destination_turns(turns).x - b.pos.x <= turns * speed,
        b.pos.x - b.destination_turns(turns).x <= turns * speed,
        b.destination_turns(turns).y - b.pos.y <= turns * speed,
        b.pos.y - b.destination_turns(turns).y <= turns * speed,
        b.velocity_turns(turns).within(speed),
{
    lemma_decay_bound(b);
    let s = b.decayed_velocity();
    assert(-(turns * speed) <= turns * s.x <= turns * speed) by (nonlinear_arith)
        requires
            0 <= turns,
            -speed <= s.x <= speed,
    ;
    assert(-(turns * speed) <= turns * s.y <= turns * speed) by (nonlinear_arith)
        requires
            0 <= turns,
            -speed <= s.y <= speed,
    ;
}

/// Compounded friction never lengthens a velocity component, nor turns it
/// round.
pub proof fn lemma_compounded_velocity_bound(b: Body, turns: int)
    requires
        0 <= b.friction <= SCALE,
    ensures
        b.vel.x >= 0 ==> 0 <= b.compounded_velocity(turns).x <= b.vel.x,
        b.vel.x <= 0 ==> b.vel.x <= b.compounded_velocity(turns).x <= 0,
        b.vel.y >= 0 ==> 0 <= b.compounded_velocity(turns).y <= b.vel.y,
        b.vel.y <= 0 ==> b.vel.y <= b.compounded_velocity(turns).y <= 0,
    decreases turns,
{
    if turns > 0 {
        lemma_compounded_velocity_bound(b, turns - 1);
        let v = b.compounded_velocity(turns - 1);
        lemma_trunc_share_bound(v.x, b.friction, SCALE as int);
        lemma_trunc_share_bound(v.y, b.friction, SCALE as int);
    }
}

/// Under compounding friction a body never turns round: on each axis, where
/// it is after `j` turns lies between where it starts and where it is after
/// any `n >= j` turns.
pub proof fn lemma_compounded_destination_between(b: Body, j: int, n: int)
    requires
        0 <= b.friction <= SCALE,
        0 <= j <= n,
    ensures
        b.vel.x >= 0 ==> b.pos.x <= b.compounded_destination(j).x <= b.compounded_destination(n).x,
        b.vel.x <= 0 ==> b.compounded_destination(n).x <= b.compounded_destination(j).x <= b.pos.x,
        b.vel.y >= 0 ==> b.pos.y <= b.compounded_destination(j).y <= b.compounded_destination(n).y,
        b.vel.y <= 0 ==> b.compounded_destination(n).y <= b.compounded_destination(j).y <= b.pos.y,
    decreases n,
{
    if n > 0 {
        lemma_compounded_velocity_bound(b, n);
        if j < n {
            lemma_compounded_destination_between(b, j, n - 1);
        } else {
            lemma_compounded_destination_between(b, n - 1, n - 1);
        }
    }
}

/// The collision test is strict and exact: two circles overlap exactly when
/// the squared distance of their centres is below the square of the sum of
/// their radii. Centres exactly one radius sum apart do not collide.
pub proof fn lemma_collision_threshold(a: Body, b: Body)
    ensures
        a.collides(b) <==> (a.radius + b.radius > 0 && a.pos.distance_squared(b.pos) < (a.radius
            + b.radius) * (a.radius + b.radius)),
        a.collides(b) == b.collides(a),
{
    lemma_distance_below(a.pos, b.pos, a.radius + b.radius);
    crate::vector::lemma_distance_symmetric(a.pos, b.pos);
}

/// A circle with a position, a velocity, and the constants of its kind.
/// Friction and mass count thousandths; the radius is a length on the grid.
#[derive(Clone, Copy, Debug, PartialEq, Eq, Structural)]
pub struct Collider {
    pub pos: Vector2,
    pub vel: Vector2,
    pub friction: i64,
    pub mass: i64,
    pub radius: i64,
}

impl View for Collider {
    type V = Body;

    open spec fn view(&self) -> Body {
        Body {
            pos: self.pos@,
            vel: self.vel@,
            friction: self.friction as int,
            mass: self.mass as int,
            radius: self.radius as int,
        }
    }
}

impl Collider {
    /// Position and velocity are in range, friction lies between zero and
    /// one, and both mass and radius are positive.
    pub open spec fn wf(&self) -> bool {
        &&& self.pos.in_range()
        &&& self.vel.in_range()
        &&& 0 <= self.friction <= SCALE
        &&& 0 < self.mass
        &&& 0 < self.radius
    }

    /// Whether the body is well formed.
    pub fn is_valid(&self) -> (ok: bool)
        ensures
            ok == self.wf(),
    {
        self.pos.is_in_range() && self.vel.is_in_range() && 0 <= self.friction && self.friction
            <= SCALE && 0 < self.mass && 0 < self.radius
    }

    /// A body with the given position, velocity and constants.
    pub fn new(pos: Vector2, vel: Vector2, friction: i64, mass: i64, radius: i64) -> (c: Collider)
        ensures
            c.pos == pos,
            c.vel == vel,
            c.friction == friction,
            c.mass == mass,
            c.radius == radius,
    {
        Collider { pos, vel, friction, mass, radius }
    }

    /// Whether the two circles overlap. The comparison is strict.
    pub fn collides(&self, other: &Collider) -> (hit: bool)
        requires
            self.pos.in_range(),
            other.pos.in_range(),
        ensures
            hit == self@.collides(other@),
    {
        let d: i64 = self.pos.distance(other.pos);
        (d as i128) < (self.radius as i128) + (other.radius as i128)
    }

    /// The velocity after friction has acted once.
    pub fn decayed_velocity(&self) -> (v: Vector2)
        requires
            self.wf(),
        ensures
            v@ == self@.decayed_velocity(),
            v.in_range(),
    {
        proof {
            lemma_decay_bound(self@);
        }
        self.vel.mul_num(self.friction)
    }

    /// Position after `turns` turns; the position itself where `turns` is
    /// not positive.
    pub fn destination_turns(&self, turns: i32) -> (p: Vector2)
        requires
            self.wf(),
            self@.destination_turns(turns as int).within(COORD_LIMIT as int),
        ensures
            p@ == self@.destination_turns(turns as int),
            p.in_range(),
    {
        if turns <= 0 {
            return self.pos;
        }
        let step: Vector2 = self.decayed_velocity();
        proof {
            lemma_product_fits(turns as int, step.x as int);
            lemma_product_fits(turns as int, step.y as int);
        }
        let x: i128 = (self.pos.x as i128) + (turns as i128) * (step.x as i128);
        let y: i128 = (self.pos.y as i128) + (turns as i128) * (step.y as i128);
        Vector2 { x: x as i64, y: y as i64 }
    }

    /// Velocity after `turns` turns; the velocity itself where `turns` is
    /// not positive.
    pub fn velocity_turns(&self, turns: i32) -> (v: Vector2)
        requires
            self.wf(),
        ensures
            v@ == self@.velocity_turns(turns as int),
            v.in_range(),
    {
        if turns <= 0 {
            self.vel
        } else {
            self.decayed_velocity()
        }
    }

    /// Position after `turns` turns under the given rule.
    pub fn destination_under(&self, decay: Decay, turns: i32) -> (p: Vector2)
        requires
            self.wf(),
            self@.destination_under(decay, turns as int).within(COORD_LIMIT as int),
        ensures
            p@ == self@.destination_under(decay, turns as int),
            p.in_range(),
    {
        match decay {
            Decay::Flat => self.destination_turns(turns),
            Decay::Compounding => {
                let mut at: Vector2 = self.pos;
                let mut speed: Vector2 = self.vel;
                let mut done: i32 = 0;
                while done < turns
                    invariant
                        0 <= done,
                        turns >= 0 ==> done <= turns,
                        turns < 0 ==> done == 0,
                        self.wf(),
                        self@.compounded_destination(turns as int).within(COORD_LIMIT as int),
                        at@ == self@.compounded_destination(done as int),
                        speed@ == self@.compounded_velocity(done as int),
                    decreases turns - done,
                {
                    proof {
                        lemma_compounded_velocity_bound(self@, done as int);
                        lemma_compounded_velocity_bound(self@, done + 1);
                        lemma_compounded_destination_between(self@, done + 1, turns as int);
                        lemma_compounded_destination_between(self@, done as int, turns as int);
                    }
                    speed = speed.mul_num(self.friction);
                    at = at.add(speed);
                    done += 1;
                }
                at
            },
        }
    }

    /// Velocity after `turns` turns under the given rule.
    pub fn velocity_under(&self, decay: Decay, turns: i32) -> (v: Vector2)
        requires
            self.wf(),
        ensures
            v@ == self@.velocity_under(decay, turns as int),
            v.in_range(),
    {
        match decay {
            Decay::Flat => self.velocity_turns(turns),
            Decay::Compounding => {
                let mut speed: Vector2 = self.vel;
                let mut done: i32 = 0;
                while done < turns
                    invariant
                        0 <= done,
                        turns >= 0 ==> done <= turns,
                        turns < 0 ==> done == 0,
                        self.wf(),
                        speed@ == self@.compounded_velocity(done as int),
                    decreases turns - done,
                {
                    proof {
                        lemma_compounded_velocity_bound(self@, done as int);
                        lemma_compounded_velocity_bound(self@, done + 1);
                    }
                    speed = speed.mul_num(self.friction);
                    done += 1;
                }
                proof {
                    lemma_compounded_velocity_bound(self@, done as int);
                }
                speed
            },
        }
    }

    /// The body as it is predicted to be `turns` turns ahead.
    pub fn future_turns(&self, turns: i32) -> (c: Collider)
        requires
            self.wf(),
            self@.destination_turns(turns as int).within(COORD_LIMIT as int),
        ensures
            c@ == self@.future_turns(turns as int),
            c.wf(),
    {
        Collider {
            pos: self.destination_turns(turns),
            vel: self.velocity_turns(turns),
            friction: self.friction,
            mass: self.mass,
            radius: self.radius,
        }
    }
}

} // verus!
