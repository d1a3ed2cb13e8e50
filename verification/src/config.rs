//! Constants of the game and of the policy.

use vstd::prelude::*;

verus! {

/// Width of the map, in whole units.
pub const WIDTH: i32 = 16001;

/// Height of the map, in whole units.
pub const HEIGHT: i32 = 7501;

/// Largest thrust of a move command.
pub const MAX_THRUST: i32 = 150;

/// Largest power of a throw command.
pub const MAX_POWER: i32 = 500;

/// Largest magic that a team can hold.
pub const MAX_MAGIC: i32 = 100;

/// Number of turns that predictions look ahead.
pub const LOOKAHEAD: i32 = 3;

/// Half the width of the map, on the grid.
pub const HALF_WIDTH: i64 = 8_000_500;

/// Half the height of the map, on the grid.
pub const HALF_HEIGHT: i64 = 3_750_500;

/// Number of parts into which a line of sight is divided; the probes sit on
/// the interior division points.
pub const SIGHT_SAMPLES: i32 = 10;

/// Number of parts into which the opening of a goal is divided.
pub const GOAL_SAMPLES: usize = 10;

/// Radius of the probe circle of a line-of-sight test: that of a snaffle.
pub const PROBE_RADIUS: i64 = 150_000;

/// A wizard that is predicted to be closer than this to the middle of the
/// goal line shoots straight at the goal.
pub const SHOT_RANGE: i64 = 4_000_000;

/// A teammate must be predicted closer than this for a pass.
pub const PASS_RANGE: i64 = 1_500_000;

/// A snaffle that is predicted to come closer than this to an aim point of
/// a goal is a chance to score, or a danger of conceding.
pub const CLOSE_TO_GOAL: i64 = 2_500_000;

/// Magic that must be exceeded before a chance or a danger is acted on.
pub const MAGIC_FLOOR: i32 = 15;

/// Magic above which a spell is cast whatever the situation.
pub const MAGIC_HIGH_WATER: i32 = 50;

/// Height of the middle of both goals, on the grid.
pub const GOAL_CENTER_Y: i64 = 3_750_000;

/// How far behind the goal line the aim point of a direct shot lies.
pub const BEHIND_GOAL: i64 = 2_000_000;

/// Clearance that the first aim point keeps from the top pole.
pub const POLE_CLEARANCE: i64 = 200_000;

/// Radius of a goal pole.
pub const POLE_RADIUS: i64 = 300_000;

/// Mass of a goal pole, in thousandths. A pole never moves, and nothing in
/// the engine weighs it: like every body it has a positive mass.
pub const POLE_MASS: i64 = 1000;

/// Horizontal position of the right goal line.
pub const RIGHT_GOAL_X: i64 = 16_000_000;

/// Height of the top pole of both goals.
pub const TOP_POLE_Y: i64 = 1_750_000;

/// Height of the bottom pole of both goals.
pub const BOTTOM_POLE_Y: i64 = 5_750_000;

/// How the derived constants follow from the primary ones.
pub proof fn lemma_derived_constants()
    ensures
        2 * HALF_WIDTH == WIDTH * 1000,
        2 * HALF_HEIGHT == HEIGHT * 1000,
        2 * MAGIC_HIGH_WATER == MAX_MAGIC,
        2 * GOAL_CENTER_Y == TOP_POLE_Y + BOTTOM_POLE_Y,
        RIGHT_GOAL_X == (WIDTH - 1) * 1000,
{
}

} // verus!
