//! Line of sight: probing a straight path for predicted obstacles.

use vstd::prelude::*;
use crate::collider::{Body, Collider};
use crate::config::{LOOKAHEAD, PROBE_RADIUS, SIGHT_SAMPLES};
use crate::entity::{lemma_tracked_projection, Entity};
use crate::fixed::div_trunc;
use crate::state::{registry_wf, State};
use crate::vector::{lemma_distance_symmetric, lemma_trunc_share_bound, Point, Vector2};

verus! {

/// The `i`-th division point of the segment from `start` to `end` when it
/// is divided into `num` equal parts.
pub open spec fn spec_sample(start: Point, end: Point, num: int, i: int) -> Point {
    start.add(start.heading(end).fraction(i, num))
}

/// The interior division points of the segment, from `start` toward `end`:
/// `num - 1` of them, none where `num` is below two.
pub open spec fn spec_in_between_points(start: Point, end: Point, num: int) -> Seq<Point> {
    Seq::new(
        if num >= 1 {
            (num - 1) as nat
        } else {
            0nat
        },
        |k: int| spec_sample(start, end, num, k + 1),
    )
}

/// The probe circle at a point: a resting body of the size of a snaffle.
pub open spec fn spec_probe(at: Point) -> Body {
    Body { pos: at, vel: Point { x: 0, y: 0 }, friction: 750, mass: 500, radius: PROBE_RADIUS as int }
}

/// The object in slot `k` can block a line of sight and, where it is
/// predicted to be, overlaps the probe at the `i`-th interior division
/// point.
pub open spec fn spec_hits(
    entities: Seq<Entity>,
    start: Point,
    end: Point,
    num: int,
    i: int,
    k: int,
) -> bool {
    &&& 1 <= i < num
    &&& 0 <= k < entities.len()
    &&& entities[k].entity_type.spec_is_obstacle()
    &&& entities[k].collider@.future_turns(LOOKAHEAD as int).collides(
        spec_probe(spec_sample(start, end, num, i)),
    )
}

/// Some probe on the path from `start` to `end` overlaps some predicted
/// obstacle.
pub open spec fn spec_blocked(entities: Seq<Entity>, start: Point, end: Point, num: int) -> bool {
    exists|i: int, k: int| spec_hits(entities, start, end, num, i, k)
}

/// A division point lies between the ends of its segment.
pub proof fn lemma_sample_between(start: Point, end: Point, num: int, i: int)
    requires
        0 <= i <= num,
        0 < num,
    ensures
        start.x <= end.x ==> start.x <= spec_sample(start, end, num, i).x <= end.x,
        start.x >= end.x ==> end.x <= spec_sample(start, end, num, i).x <= start.x,
        start.y <= end.y ==> start.y <= spec_sample(start, end, num, i).y <= end.y,
        start.y >= end.y ==> end.y <= spec_sample(start, end, num, i).y <= start.y,
{
    lemma_trunc_share_bound(end.x - start.x, i, num);
    lemma_trunc_share_bound(end.y - start.y, i, num);
}

/// Where nothing that can block a line of sight is tracked, no path is
/// blocked.
pub proof fn lemma_no_obstacle_clear(entities: Seq<Entity>, start: Point, end: Point, num: int)
    requires
        forall|k: int|
            0 <= k < entities.len() ==> !(#[trigger] entities[k]).entity_type.spec_is_obstacle(),
    ensures
        !spec_blocked(entities, start, end, num),
{
    assert forall|i: int, k: int| !spec_hits(entities, start, end, num, i, k) by {
        if 0 <= k < entities.len() {
            assert(!entities[k].entity_type.spec_is_obstacle());
        }
    }
}

/// An obstacle that is predicted to sit exactly on an interior division
/// point blocks the path.
pub proof fn lemma_obstacle_on_sample_blocks(
    entities: Seq<Entity>,
    start: Point,
    end: Point,
    num: int,
    i: int,
    k: int,
)
    requires
        1 <= i < num,
        0 <= k < entities.len(),
        entities[k].entity_type.spec_is_obstacle(),
        entities[k].collider.radius >= 0,
        entities[k].collider@.destination_turns(LOOKAHEAD as int) == spec_sample(start, end, num, i),
    ensures
        spec_blocked(entities, start, end, num),
{
    let at = spec_sample(start, end, num, i);
    lemma_distance_symmetric(at, at);
    assert(spec_hits(entities, start, end, num, i, k));
}

/// Adding an obstacle that is predicted to sit exactly on an interior
/// division point blocks the path, whatever was tracked before.
pub proof fn lemma_added_obstacle_blocks(
    entities: Seq<Entity>,
    extra: Entity,
    start: Point,
    end: Point,
    num: int,
    i: int,
)
    requires
        1 <= i < num,
        extra.entity_type.spec_is_obstacle(),
        extra.collider.radius >= 0,
        extra.collider@.destination_turns(LOOKAHEAD as int) == spec_sample(start, end, num, i),
    ensures
        spec_blocked(entities.push(extra), start, end, num),
{
    lemma_obstacle_on_sample_blocks(entities.push(extra), start, end, num, i, entities.len() as int);
}

/// Tracking one more object never clears a blocked path.
pub proof fn lemma_blocked_monotone(
    entities: Seq<Entity>,
    extra: Entity,
    start: Point,
    end: Point,
    num: int,
)
    requires
        spec_blocked(entities, start, end, num),
    ensures
        spec_blocked(entities.push(extra), start, end, num),
{
    let (i, k) = choose|i: int, k: int| spec_hits(entities, start, end, num, i, k);
    assert(entities.push(extra)[k] == entities[k]);
    assert(spec_hits(entities.push(extra), start, end, num, i, k));
}

impl State {
    /// The interior division points of the segment from `start` to `end`
    /// when it is divided into `num` equal parts, from `start` toward `end`.
    pub fn in_between_points(&self, start: &Vector2, end: &Vector2, num: i32) -> (points: Vec<Vector2>)
        requires
            start.in_range(),
            end.in_range(),
        ensures
            points@.len() == spec_in_between_points(start@, end@, num as int).len(),
            forall|k: int|
                0 <= k < points.len() ==> (#[trigger] points[k])@ == spec_sample(
                    start@,
                    end@,
                    num as int,
                    k + 1,
                ),
            forall|k: int| 0 <= k < points.len() ==> (#[trigger] points[k]).in_range(),
    {
        let mut points: Vec<Vector2> = Vec::new();
        let hx: i128 = end.x as i128 - start.x as i128;
        let hy: i128 = end.y as i128 - start.y as i128;
        let mut i: i32 = 1;
        while i < num
            invariant
                1 <= i,
                num >= 1 ==> i <= num,
                num < 1 ==> i == 1,
                start.in_range(),
                end.in_range(),
                hx == end.x - start.x,
                hy == end.y - start.y,
                points.len() == i - 1,
                forall|k: int|
                    0 <= k < points.len() ==> (#[trigger] points[k])@ == spec_sample(
                        start@,
                        end@,
                        num as int,
                        k + 1,
                    ),
                forall|k: int| 0 <= k < points.len() ==> (#[trigger] points[k]).in_range(),
            decreases num - i,
        {
            proof {
                lemma_sample_between(start@, end@, num as int, i as int);
                assert(-0x2000_0000_0000_0000 * 0x8000_0000 <= hx * i <= 0x2000_0000_0000_0000
                    * 0x8000_0000) by (nonlinear_arith)
                    requires
                        -0x2000_0000_0000_0000 <= hx <= 0x2000_0000_0000_0000,
                        0 <= i <= 0x8000_0000,
                ;
                assert(-0x2000_0000_0000_0000 * 0x8000_0000 <= hy * i <= 0x2000_0000_0000_0000
                    * 0x8000_0000) by (nonlinear_arith)
                    requires
                        -0x2000_0000_0000_0000 <= hy <= 0x2000_0000_0000_0000,
                        0 <= i <= 0x8000_0000,
                ;
            }
            let sx: i128 = div_trunc(hx * (i as i128), num as i128);
            let sy: i128 = div_trunc(hy * (i as i128), num as i128);
            let x: i128 = start.x as i128 + sx;
            let y: i128 = start.y as i128 + sy;
            points.push(Vector2::new(x as i64, y as i64));
            i += 1;
        }
        points
    }

    /// Probe circles at the interior division points of the segment.
    pub fn in_between_colliders(&self, start: &Vector2, end: &Vector2, num: i32) -> (probes: Vec<
        Collider,
    >)
        requires
            start.in_range(),
            end.in_range(),
        ensures
            probes@.len() == spec_in_between_points(start@, end@, num as int).len(),
            forall|k: int|
                0 <= k < probes.len() ==> (#[trigger] probes[k])@ == spec_probe(
                    spec_sample(start@, end@, num as int, k + 1),
                ),
            forall|k: int| 0 <= k < probes.len() ==> (#[trigger] probes[k]).pos.in_range(),
    {
        let points: Vec<Vector2> = self.in_between_points(start, end, num);
        let mut probes: Vec<Collider> = Vec::new();
        let mut k: usize = 0;
        while k < points.len()
            invariant
                0 <= k <= points.len(),
                probes.len() == k,
                forall|j: int|
                    0 <= j < points.len() ==> (#[trigger] points[j])@ == spec_sample(
                        start@,
                        end@,
                        num as int,
                        j + 1,
                    ),
                forall|j: int| 0 <= j < points.len() ==> (#[trigger] points[j]).in_range(),
                forall|j: int|
                    0 <= j < k ==> (#[trigger] probes[j])@ == spec_probe(
                        spec_sample(start@, end@, num as int, j + 1),
                    ),
                forall|j: int| 0 <= j < k ==> (#[trigger] probes[j]).pos.in_range(),
            decreases points.len() - k,
        {
            probes.push(Collider::new(points[k], Vector2::new(0, 0), 750, 500, PROBE_RADIUS));
            k += 1;
        }
        probes
    }

    /// Whether a predicted obstacle overlaps one of the probes that divide
    /// the path from `start` to `end` into `num` parts.
    pub fn is_path_blocked(&self, start: &Vector2, end: &Vector2, num: i32) -> (blocked: bool)
        requires
            registry_wf(self.entities@),
            start.in_range(),
            end.in_range(),
        ensures
            blocked == spec_blocked(self.entities@, start@, end@, num as int),
    {
        let probes: Vec<Collider> = self.in_between_colliders(start, end, num);
        let mut k: usize = 0;
        while k < self.entities.len()
            invariant
                0 <= k <= self.entities.len(),
                registry_wf(self.entities@),
                probes@.len() == spec_in_between_points(start@, end@, num as int).len(),
                forall|j: int|
                    0 <= j < probes.len() ==> (#[trigger] probes[j])@ == spec_probe(
                        spec_sample(start@, end@, num as int, j + 1),
                    ),
                forall|j: int| 0 <= j < probes.len() ==> (#[trigger] probes[j]).pos.in_range(),
                forall|i: int, j: int|
                    0 <= j < k ==> !spec_hits(self.entities@, start@, end@, num as int, i, j),
            decreases self.entities.len() - k,
        {
            let e: Entity = self.entities[k];
            if e.entity_type.is_obstacle() {
                proof {
                    lemma_tracked_projection(e, LOOKAHEAD as int);
                }
                let ahead: Collider = e.collider.future_turns(LOOKAHEAD);
                let mut p: usize = 0;
                while p < probes.len()
                    invariant
                        0 <= p <= probes.len(),
                        0 <= k < self.entities.len(),
                        e == self.entities@[k as int],
                        e.entity_type.spec_is_obstacle(),
                        ahead@ == e.collider@.future_turns(LOOKAHEAD as int),
                        ahead.pos.in_range(),
                        probes@.len() == spec_in_between_points(start@, end@, num as int).len(),
                        forall|j: int|
                            0 <= j < probes.len() ==> (#[trigger] probes[j])@ == spec_probe(
                                spec_sample(start@, end@, num as int, j + 1),
                            ),
                        forall|j: int|
                            0 <= j < probes.len() ==> (#[trigger] probes[j]).pos.in_range(),
                        forall|i: int|
                            1 <= i < p + 1 ==> !spec_hits(
                                self.entities@,
                                start@,
                                end@,
                                num as int,
                                i,
                                k as int,
                            ),
                    decreases probes.len() - p,
                {
                    if ahead.collides(&probes[p]) {
                        assert(spec_hits(
                            self.entities@,
                            start@,
                            end@,
                            num as int,
                            p as int + 1,
                            k as int,
                        ));
                        return true;
                    }
                    p += 1;
                }
            }
            k += 1;
        }
        false
    }

    /// Whether the straight path from `start` to `end` is blocked by a
    /// predicted obstacle, at the standard number of probes.
    pub fn is_obstacles_in_between(&self, start: &Vector2, end: &Vector2) -> (blocked: bool)
        requires
            registry_wf(self.entities@),
            start.in_range(),
            end.in_range(),
        ensures
            blocked == spec_blocked(self.entities@, start@, end@, SIGHT_SAMPLES as int),
    {
        self.is_path_blocked(start, end, SIGHT_SAMPLES)
    }
}

} // verus!
