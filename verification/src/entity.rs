//! Tracked game objects: their kinds, and the constants each kind carries.

use vstd::prelude::*;
use crate::collider::Collider;
use crate::fixed::{COORD_LIMIT, SCALE, WORLD_LIMIT};
use crate::vector::{Point, Vector2};

verus! {

/// The role of a tracked object.
#[derive(Clone, Copy, Debug, PartialEq, Eq, Structural)]
pub enum EntityType {
    /// The ball that wizards carry and throw.
    Snaffle,
    /// A wizard of the own team.
    Wizard,
    /// A wizard of the opposing team.
    Opponent,
    /// A moving hazard.
    Bludger,
}

impl EntityType {
    /// Friction of the kind, in thousandths.
    pub open spec fn spec_friction(self) -> int {
        match self {
            EntityType::Bludger => 900,
            _ => 750,
        }
    }

    /// Mass of the kind, in thousandths.
    pub open spec fn spec_mass(self) -> int {
        match self {
            EntityType::Snaffle => 500,
            EntityType::Bludger => 8000,
            _ => 1000,
        }
    }

    /// Radius of the kind, on the grid.
    pub open spec fn spec_radius(self) -> int {
        match self {
            EntityType::Snaffle => 150_000,
            EntityType::Bludger => 200_000,
            _ => 400_000,
        }
    }

    /// The kind can block a line of sight: an opposing wizard or a bludger.
    pub open spec fn spec_is_obstacle(self) -> bool {
        self == EntityType::Opponent || self == EntityType::Bludger
    }

    /// The kind that a tag of the turn feed names.
    pub open spec fn spec_from_tag(tag: Seq<char>) -> Option<EntityType> {
        if tag == "WIZARD"@ {
            Some(EntityType::Wizard)
        } else if tag == "OPPONENT_WIZARD"@ {
            Some(EntityType::Opponent)
        } else if tag == "SNAFFLE"@ {
            Some(EntityType::Snaffle)
        } else if tag == "BLUDGER"@ {
            Some(EntityType::Bludger)
        } else {
            None
        }
    }

    /// The kind that a tag of the turn feed names; `None` for any other
    /// text.
    pub fn from_tag(tag: &str) -> (kind: Option<EntityType>)
        ensures
            kind == Self::spec_from_tag(tag@),
    {
        let text: String = tag.to_owned();
        if text == "WIZARD".to_owned() {
            Some(EntityType::Wizard)
        } else if text == "OPPONENT_WIZARD".to_owned() {
            Some(EntityType::Opponent)
        } else if text == "SNAFFLE".to_owned() {
            Some(EntityType::Snaffle)
        } else if text == "BLUDGER".to_owned() {
            Some(EntityType::Bludger)
        } else {
            None
        }
    }

    /// Friction of the kind, in thousandths.
    pub fn friction(&self) -> (f: i64)
        ensures
            f == self.spec_friction(),
    {
        match self {
            EntityType::Bludger => 900,
            _ => 750,
        }
    }

    /// Mass of the kind, in thousandths.
    pub fn mass(&self) -> (m: i64)
        ensures
            m == self.spec_mass(),
    {
        match self {
            EntityType::Snaffle => 500,
            EntityType::Bludger => 8000,
            _ => 1000,
        }
    }

    /// Radius of the kind, on the grid.
    pub fn radius(&self) -> (r: i64)
        ensures
            r == self.spec_radius(),
    {
        match self {
            EntityType::Snaffle => 150_000,
            EntityType::Bludger => 200_000,
            _ => 400_000,
        }
    }

    /// Whether the kind can block a line of sight.
    pub fn is_obstacle(&self) -> (b: bool)
        ensures
            b == self.spec_is_obstacle(),
    {
        match self {
            EntityType::Opponent => true,
            EntityType::Bludger => true,
            _ => false,
        }
    }
}

/// The grid coordinate of a whole-unit coordinate.
pub open spec fn to_grid(units: int) -> int {
    units * SCALE
}

/// The point of the grid at `(x, y)` in whole units.
pub open spec fn grid_point(x: i32, y: i32) -> Vector2 {
    Vector2 { x: (x * SCALE) as i64, y: (y * SCALE) as i64 }
}

/// A point reported in whole units lies on the grid where it should, within
/// the limit for tracked objects.
pub proof fn lemma_grid_point(x: i32, y: i32)
    ensures
        grid_point(x, y)@ == (Point { x: to_grid(x as int), y: to_grid(y as int) }),
        grid_point(x, y)@.within(WORLD_LIMIT as int),
{
}

/// A tracked object.
#[derive(Clone, Copy, Debug, PartialEq, Eq)]
pub struct Entity {
    pub id: i32,
    pub entity_type: EntityType,
    pub collider: Collider,
    /// A wizard holds a snaffle; a snaffle is held.
    pub has_snaffle: bool,
    /// Identifier of the object that a wizard moves toward.
    pub target: Option<i32>,
}

impl Entity {
    /// The object carries the constants of its kind, its position and
    /// velocity are what a report in whole 32-bit units can give, and it
    /// holds no target unless it is an own wizard.
    pub open spec fn wf(&self) -> bool {
        &&& self.collider.pos@.within(WORLD_LIMIT as int)
        &&& self.collider.vel@.within(WORLD_LIMIT as int)
        &&& self.collider.friction == self.entity_type.spec_friction()
        &&& self.collider.mass == self.entity_type.spec_mass()
        &&& self.collider.radius == self.entity_type.spec_radius()
        &&& self.entity_type != EntityType::Wizard ==> self.target is None
    }

    /// The object as first reported: at `(x, y)` with velocity `(vx, vy)`,
    /// in whole units, with the constants of `kind` and no target.
    pub open spec fn spec_spawn(
        id: i32,
        kind: EntityType,
        x: i32,
        y: i32,
        vx: i32,
        vy: i32,
        has_snaffle: bool,
    ) -> Entity {
        Entity {
            id,
            entity_type: kind,
            collider: Collider {
                pos: grid_point(x, y),
                vel: grid_point(vx, vy),
                friction: kind.spec_friction() as i64,
                mass: kind.spec_mass() as i64,
                radius: kind.spec_radius() as i64,
            },
            has_snaffle,
            target: None,
        }
    }

    /// The object after a report of a new position and velocity, in whole
    /// units: identity, kind, constants and target stay.
    pub open spec fn spec_update(self, x: i32, y: i32, vx: i32, vy: i32, has_snaffle: bool) -> Entity {
        Entity {
            collider: Collider { pos: grid_point(x, y), vel: grid_point(vx, vy), ..self.collider },
            has_snaffle,
            ..self
        }
    }

    /// The object with another target.
    pub open spec fn spec_set_target(self, target: Option<i32>) -> Entity {
        Entity { target, ..self }
    }

    /// Whether the object is well formed.
    pub fn is_valid(&self) -> (ok: bool)
        ensures
            ok == self.wf(),
    {
        let c = &self.collider;
        -WORLD_LIMIT <= c.pos.x && c.pos.x <= WORLD_LIMIT && -WORLD_LIMIT <= c.pos.y && c.pos.y
            <= WORLD_LIMIT && -WORLD_LIMIT <= c.vel.x && c.vel.x <= WORLD_LIMIT && -WORLD_LIMIT
            <= c.vel.y && c.vel.y <= WORLD_LIMIT && c.friction == self.entity_type.friction()
            && c.mass == self.entity_type.mass() && c.radius == self.entity_type.radius() && (
        self.entity_type == EntityType::Wizard || self.target.is_none())
    }

    /// An object with the given body and no target.
    pub fn new(id: i32, entity_type: EntityType, collider: Collider, has_snaffle: bool) -> (e: Entity)
        ensures
            e == (Entity { id, entity_type, collider, has_snaffle, target: None }),
    {
        Entity { id, entity_type, collider, has_snaffle, target: None }
    }

    /// A newly observed object of the given kind, with the constants that
    /// the kind fixes.
    pub fn spawn(
        id: i32,
        kind: EntityType,
        x: i32,
        y: i32,
        vx: i32,
        vy: i32,
        has_snaffle: bool,
    ) -> (e: Entity)
        ensures
            e == Entity::spec_spawn(id, kind, x, y, vx, vy, has_snaffle),
            e.wf(),
            e.collider.pos@ == (Point { x: to_grid(x as int), y: to_grid(y as int) }),
            e.collider.vel@ == (Point { x: to_grid(vx as int), y: to_grid(vy as int) }),
    {
        Entity {
            id,
            entity_type: kind,
            collider: Collider {
                pos: Vector2 { x: (x as i64) * SCALE, y: (y as i64) * SCALE },
                vel: Vector2 { x: (vx as i64) * SCALE, y: (vy as i64) * SCALE },
                friction: kind.friction(),
                mass: kind.mass(),
                radius: kind.radius(),
            },
            has_snaffle,
            target: None,
        }
    }

    /// Takes over a newly reported position, velocity and carrying flag.
    pub fn update(&mut self, x: i32, y: i32, vx: i32, vy: i32, has_snaffle: bool)
        ensures
            *final(self) == old(self).spec_update(x, y, vx, vy, has_snaffle),
            final(self).collider.pos@ == (Point { x: to_grid(x as int), y: to_grid(y as int) }),
            final(self).collider.vel@ == (Point { x: to_grid(vx as int), y: to_grid(vy as int) }),
            old(self).wf() ==> final(self).wf(),
    {
        self.collider.pos.x = (x as i64) * SCALE;
        self.collider.pos.y = (y as i64) * SCALE;
        self.collider.vel.x = (vx as i64) * SCALE;
        self.collider.vel.y = (vy as i64) * SCALE;
        self.has_snaffle = has_snaffle;
    }

    /// Replaces the target.
    pub fn set_target(&mut self, target: Option<i32>)
        ensures
            *final(self) == old(self).spec_set_target(target),
    {
        self.target = target;
    }

    /// The object as it is predicted to be `turns` turns ahead.
    pub fn future_turns(&self, turns: i32) -> (e: Entity)
        requires
            self.collider.wf(),
            self.collider@.destination_turns(turns as int).within(COORD_LIMIT as int),
        ensures
            e.collider@ == self.collider@.future_turns(turns as int),
            e.collider.wf(),
            e.id == self.id,
            e.entity_type == self.entity_type,
            e.has_snaffle == self.has_snaffle,
            e.target == self.target,
    {
        Entity {
            id: self.id,
            entity_type: self.entity_type,
            collider: self.collider.future_turns(turns),
            has_snaffle: self.has_snaffle,
            target: self.target,
        }
    }
}

/// Friction acts without rounding on an object as it was reported: a
/// velocity in whole units, decayed once, is the exact product of velocity
/// and friction, so the predictions of a reported object are exact.
pub proof fn lemma_reported_decay_exact(e: Entity, x: i32, y: i32, vx: i32, vy: i32, flag: bool)
    requires
        e.collider.friction == e.entity_type.spec_friction(),
    ensures
        e.spec_update(x, y, vx, vy, flag).collider@.decayed_velocity() == (Point {
            x: vx * e.entity_type.spec_friction(),
            y: vy * e.entity_type.spec_friction(),
        }),
{
    lemma_grid_point(vx, vy);
    let f = e.entity_type.spec_friction();
    assert(f == 750 || f == 900);
    assert((vx * SCALE) * f == (vx * f) * SCALE) by (nonlinear_arith);
    assert((vy * SCALE) * f == (vy * f) * SCALE) by (nonlinear_arith);
    assert(-((vx * f) * SCALE) == (-(vx * f)) * SCALE) by (nonlinear_arith);
    assert(-((vy * f) * SCALE) == (-(vy * f)) * SCALE) by (nonlinear_arith);
}

/// A tracked object's prediction a few turns ahead stays far inside the
/// range of the geometry kernel.
pub proof fn lemma_tracked_projection(e: Entity, turns: int)
    requires
        e.wf(),
        0 <= turns <= 16,
    ensures
        e.collider.wf(),
        e.collider@.destination_turns(turns).within((turns + 1) * WORLD_LIMIT),
        e.collider@.velocity_turns(turns).within(WORLD_LIMIT as int),
        e.collider@.destination_turns(turns).within(COORD_LIMIT as int),
{
    crate::collider::lemma_projection_bound(e.collider@, turns, WORLD_LIMIT as int);
    assert((turns + 1) * WORLD_LIMIT == turns * WORLD_LIMIT + WORLD_LIMIT) by (nonlinear_arith);
    assert(turns * WORLD_LIMIT <= 16 * WORLD_LIMIT) by (nonlinear_arith)
        requires
            turns <= 16,
    ;
}

} // verus!
