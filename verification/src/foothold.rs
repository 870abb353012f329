//! Choosing where a foot should come down, among the places where rays cast
//! at the ground have hit it.

use crate::arith::div_floor;
use crate::frame::BodyFrame;
use crate::vec3::{Vector3, COORD_MAX, V3};
use vstd::prelude::*;

verus! {

/// A ground hit is accepted when the square of its distance to the place
/// aimed at is below this: five square world units.
pub const STEP_TOLERANCE_SQ: u64 = 5_000_000;

/// The largest difference in one coordinate that a hit within the tolerance
/// can have.
pub const STEP_TOLERANCE_REACH: i64 = 2236;

/// How many rays probe the ground around a place.
pub const PROBE_COUNT: usize = 5;

/// A ray has hit the ground at a supported position that is close enough to
/// `desired`.
pub open spec fn usable(desired: V3, hit: Option<Vector3>) -> bool {
    &&& hit is Some
    &&& hit->0.in_range()
    &&& hit->0@.dist_sq(desired) < STEP_TOLERANCE_SQ
}

/// The `i`-th hit is the foothold: it is usable, no usable hit is nearer to
/// `desired`, and every usable hit before it is farther away.
pub open spec fn is_nearest(desired: V3, hits: Seq<Option<Vector3>>, i: int) -> bool {
    &&& 0 <= i < hits.len()
    &&& usable(desired, hits[i])
    &&& forall|j: int|
        0 <= j < hits.len() && usable(desired, #[trigger] hits[j]) ==> hits[i]->0@.dist_sq(desired)
            <= hits[j]->0@.dist_sq(desired)
    &&& forall|j: int|
        0 <= j < i && usable(desired, #[trigger] hits[j]) ==> hits[i]->0@.dist_sq(desired)
            < hits[j]->0@.dist_sq(desired)
}

/// The foothold among `hits`: the usable hit nearest to `desired`, the
/// earliest of them where several are equally near; `None` where no hit is
/// usable.
pub open spec fn nearest_hit(desired: V3, hits: Seq<Option<Vector3>>) -> Option<Vector3> {
    if exists|i: int| is_nearest(desired, hits, i) {
        hits[choose|i: int| is_nearest(desired, hits, i)]
    } else {
        None
    }
}

/// At most one hit is the foothold.
pub proof fn lemma_nearest_unique(desired: V3, hits: Seq<Option<Vector3>>, i: int, j: int)
    requires
        is_nearest(desired, hits, i),
        is_nearest(desired, hits, j),
    ensures
        i == j,
{
    if i < j {
        assert(usable(desired, hits[i]));
    } else if j < i {
        assert(usable(desired, hits[j]));
    }
}

/// There is a foothold exactly when some hit is usable; it is usable
/// itself, and no usable hit is nearer to the place aimed at.
pub proof fn lemma_nearest_hit(desired: V3, hits: Seq<Option<Vector3>>)
    ensures
        nearest_hit(desired, hits) is None <==> forall|j: int|
            0 <= j < hits.len() ==> !usable(desired, #[trigger] hits[j]),
        nearest_hit(desired, hits) is Some ==> usable(desired, nearest_hit(desired, hits)),
        nearest_hit(desired, hits) is Some ==> forall|j: int|
            0 <= j < hits.len() && usable(desired, #[trigger] hits[j]) ==> nearest_hit(
                desired,
                hits,
            )->0@.dist_sq(desired) <= hits[j]->0@.dist_sq(desired),
{
    if exists|i: int| is_nearest(desired, hits, i) {
        let i = choose|i: int| is_nearest(desired, hits, i);
        assert(usable(desired, hits[i]));
    } else {
        if exists|j: int| 0 <= j < hits.len() && usable(desired, #[trigger] hits[j]) {
            let j = choose|j: int| 0 <= j < hits.len() && usable(desired, #[trigger] hits[j]);
            let k = lemma_nearest_exists(desired, hits, j);
            assert(false);
        }
    }
}

/// Where a hit is usable, some hit is the foothold.
pub proof fn lemma_nearest_exists(desired: V3, hits: Seq<Option<Vector3>>, j: int) -> (i: int)
    requires
        0 <= j < hits.len(),
        usable(desired, hits[j]),
    ensures
        is_nearest(desired, hits, i),
{
    assert(hits.take(hits.len() as int) =~= hits);
    lemma_nearest_in_prefix(desired, hits, hits.len() as int, j)
}

proof fn lemma_nearest_in_prefix(desired: V3, hits: Seq<Option<Vector3>>, n: int, j: int) -> (i: int)
    requires
        0 <= j < n <= hits.len(),
        usable(desired, hits[j]),
    ensures
        is_nearest(desired, hits.take(n), i),
    decreases n,
{
    let last = n - 1;
    let front = hits.take(n);
    if exists|k: int| 0 <= k < last && usable(desired, #[trigger] hits[k]) {
        let k = choose|k: int| 0 <= k < last && usable(desired, #[trigger] hits[k]);
        let b = lemma_nearest_in_prefix(desired, hits, last, k);
        let shorter = hits.take(last);
        assert(shorter[b] == hits[b]);
        let best = if usable(desired, hits[last]) && hits[last]->0@.dist_sq(desired)
            < hits[b]->0@.dist_sq(desired) {
            last
        } else {
            b
        };
        assert forall|m: int| 0 <= m < front.len() && usable(desired, #[trigger] front[m]) implies
            front[best]->0@.dist_sq(desired) <= front[m]->0@.dist_sq(desired) by {
            if m < last {
                assert(shorter[m] == hits[m]);
            }
        }
        assert forall|m: int| 0 <= m < best && usable(desired, #[trigger] front[m]) implies
            front[best]->0@.dist_sq(desired) < front[m]->0@.dist_sq(desired) by {
            assert(shorter[m] == hits[m]);
        }
        best
    } else {
        assert(j == last);
        last
    }
}

/// The squared distance between a hit and the place aimed at, where it is
/// below the tolerance.
fn nearness(desired: &Vector3, hit: &Vector3) -> (r: Option<u64>)
    ensures
        r is Some <==> hit@.dist_sq(desired@) < STEP_TOLERANCE_SQ,
        r is Some ==> r->0 == hit@.dist_sq(desired@),
{
    let dx: i128 = hit.x as i128 - desired.x as i128;
    let dy: i128 = hit.y as i128 - desired.y as i128;
    let dz: i128 = hit.z as i128 - desired.z as i128;
    let reach: i128 = STEP_TOLERANCE_REACH as i128;
    proof {
        assert(dx * dx >= 0 && dy * dy >= 0 && dz * dz >= 0) by (nonlinear_arith);
        assert(dx < -2236 || dx > 2236 ==> dx * dx >= 5_000_000) by (nonlinear_arith);
        assert(dy < -2236 || dy > 2236 ==> dy * dy >= 5_000_000) by (nonlinear_arith);
        assert(dz < -2236 || dz > 2236 ==> dz * dz >= 5_000_000) by (nonlinear_arith);
        assert(-2236 <= dx <= 2236 ==> dx * dx <= 5_000_000) by (nonlinear_arith);
        assert(-2236 <= dy <= 2236 ==> dy * dy <= 5_000_000) by (nonlinear_arith);
        assert(-2236 <= dz <= 2236 ==> dz * dz <= 5_000_000) by (nonlinear_arith);
    }
    if dx < -reach || dx > reach || dy < -reach || dy > reach || dz < -reach || dz > reach {
        return None;
    }
    let d: i128 = dx * dx + dy * dy + dz * dz;
    if d < STEP_TOLERANCE_SQ as i128 {
        Some(d as u64)
    } else {
        None
    }
}

/// Picks the foothold among the ground hits of the rays cast around
/// `desired`: [`nearest_hit`].
pub fn find_step(desired: &Vector3, hits: &Vec<Option<Vector3>>) -> (r: Option<Vector3>)
    ensures
        r == nearest_hit(desired@, hits@),
{
    let mut best: Option<Vector3> = None;
    let mut best_d: u64 = 0;
    let ghost mut at: int = -1;
    let mut i: usize = 0;
    while i < hits.len()
        invariant
            i <= hits.len(),
            best is None <==> at == -1,
            best is None ==> forall|j: int| 0 <= j < i ==> !usable(desired@, #[trigger] hits@[j]),
            best is Some ==> is_nearest(desired@, hits@.take(i as int), at) && hits@[at] == best
                && best_d == best->0@.dist_sq(desired@),
        decreases hits.len() - i,
    {
        let ghost front = hits@.take(i as int);
        let ghost longer = hits@.take(i + 1);
        match &hits[i] {
            Some(p) => {
                if p.is_in_range() {
                    match nearness(desired, p) {
                        Some(d) => {
                            if best.is_none() || d < best_d {
                                proof {
                                    assert forall|m: int|
                                        0 <= m < longer.len() && usable(
                                            desired@,
                                            #[trigger] longer[m],
                                        ) implies longer[i as int]->0@.dist_sq(desired@)
                                        <= longer[m]->0@.dist_sq(desired@) by {
                                        if m < i {
                                            assert(front[m] == hits@[m]);
                                        }
                                    }
                                    assert forall|m: int|
                                        0 <= m < i && usable(
                                            desired@,
                                            #[trigger] longer[m],
                                        ) implies longer[i as int]->0@.dist_sq(desired@)
                                        < longer[m]->0@.dist_sq(desired@) by {
                                        assert(front[m] == hits@[m]);
                                    }
                                    at = i as int;
                                }
                                best = Some(*p);
                                best_d = d;
                            }
                        },
                        None => {},
                    }
                }
            },
            None => {},
        }
        proof {
            if best is Some && at < i {
                assert(front[at] == hits@[at]);
                assert forall|m: int|
                    0 <= m < longer.len() && usable(desired@, #[trigger] longer[m]) implies longer[at]->0@.dist_sq(
                    desired@,
                ) <= longer[m]->0@.dist_sq(desired@) by {
                    if m < i {
                        assert(front[m] == hits@[m]);
                    }
                }
                assert forall|m: int|
                    0 <= m < at && usable(desired@, #[trigger] longer[m]) implies longer[at]->0@.dist_sq(
                    desired@,
                ) < longer[m]->0@.dist_sq(desired@) by {
                    assert(front[m] == hits@[m]);
                }
            }
        }
        i = i + 1;
    }
    proof {
        assert(hits@.take(hits.len() as int) =~= hits@);
        if best is Some {
            let c = choose|k: int| is_nearest(desired@, hits@, k);
            lemma_nearest_unique(desired@, hits@, at, c);
        } else {
            if exists|k: int| is_nearest(desired@, hits@, k) {
                let c = choose|k: int| is_nearest(desired@, hits@, k);
                assert(usable(desired@, hits@[c]));
            }
        }
    }
    best
}

/// Where the rays that probe the ground around `desired` start. Each ray
/// points from its start to `desired`. The starts lie one world unit above
/// `desired`: one behind it, one ahead of it, one half a unit to either
/// side, one straight above.
pub open spec fn probe_origins(frame: BodyFrame, desired: V3) -> Seq<V3> {
    seq![
        desired.plus(frame.up@.minus(frame.forward@)),
        desired.plus(frame.up@.plus(frame.forward@)),
        desired.plus(frame.up@.plus(frame.right@.over(2))),
        desired.plus(frame.up@.minus(frame.right@.over(2))),
        desired.plus(frame.up@),
    ]
}

/// A ray to be cast at the ground: where it starts and the displacement
/// along which it points.
#[derive(Copy, Clone, PartialEq, Eq, Structural, Debug)]
pub struct Ray {
    pub origin: Vector3,
    pub direction: Vector3,
}

/// The ray from `origin` to `desired`.
fn ray_to(desired: &Vector3, origin: Vector3) -> (r: Ray)
    requires
        desired.in_range(),
        origin@.within(2 * COORD_MAX),
    ensures
        r.origin == origin,
        r.direction@ == desired@.minus(origin@),
{
    Ray { origin, direction: desired.minus(&origin) }
}

/// The rays that probe the ground around `desired`: they start at
/// [`probe_origins`] and point to `desired`.
pub fn probe_rays(frame: &BodyFrame, desired: &Vector3) -> (r: Vec<Ray>)
    requires
        frame.wf(),
        desired.in_range(),
    ensures
        r@.len() == PROBE_COUNT,
        forall|i: int|
            0 <= i < PROBE_COUNT ==> (#[trigger] r@[i]).origin@ == probe_origins(*frame, desired@)[i]
                && r@[i].direction@ == desired@.minus(r@[i].origin@),
{
    let up: Vector3 = frame.up;
    let forward: Vector3 = frame.forward;
    let half: Vector3 = Vector3 {
        x: div_floor(frame.right.x as i128, 2) as i64,
        y: div_floor(frame.right.y as i128, 2) as i64,
        z: div_floor(frame.right.z as i128, 2) as i64,
    };
    let mut rays: Vec<Ray> = Vec::new();
    rays.push(ray_to(desired, desired.plus(&up.minus(&forward))));
    rays.push(ray_to(desired, desired.plus(&up.plus(&forward))));
    rays.push(ray_to(desired, desired.plus(&up.plus(&half))));
    rays.push(ray_to(desired, desired.plus(&up.minus(&half))));
    rays.push(ray_to(desired, desired.plus(&up)));
    rays
}

} // verus!
