//! Estimating how a body should stand from where its feet are: the planes
//! through every three feet give its up direction and its resting place.

use crate::arith::{div_floor, lemma_div_between};
use crate::creature::{LegCreature, Limb};
use crate::vec3::{
    lemma_cross_bound, lemma_product_bound, Vector3, COORD_MAX, DIR_MAX, UNIT, V3,
};
use itertools::Itertools;
use vstd::prelude::*;

verus! {

/// The largest number of limbs for which the planes through the feet are
/// enumerated.
pub const MAX_LIMBS: usize = 256;

/// Three indices below `n`, in increasing order.
pub open spec fn is_triple(n: int, t: (usize, usize, usize)) -> bool {
    t.0 < t.1 && t.1 < t.2 && t.2 < n
}

/// `a` comes before `b` in the dictionary order.
pub open spec fn triple_before(a: (usize, usize, usize), b: (usize, usize, usize)) -> bool {
    a.0 < b.0 || (a.0 == b.0 && (a.1 < b.1 || (a.1 == b.1 && a.2 < b.2)))
}

/// `s` lists every choice of three increasing indices below `n` once, in
/// dictionary order.
pub open spec fn lists_triples(n: int, s: Seq<(usize, usize, usize)>) -> bool {
    &&& forall|i: int| 0 <= i < s.len() ==> is_triple(n, #[trigger] s[i])
    &&& forall|i: int, j: int| 0 <= i < j < s.len() ==> triple_before(#[trigger] s[i], #[trigger] s[j])
    &&& forall|a: usize, b: usize, c: usize| #[trigger]
        is_triple(n, (a, b, c)) ==> exists|i: int| 0 <= i < s.len() && s[i] == (a, b, c)
}

/// The choices of three among `n`, as [`lists_triples`] describes them.
pub open spec fn triples(n: int) -> Seq<(usize, usize, usize)> {
    choose|s: Seq<(usize, usize, usize)>| lists_triples(n, s)
}

/// Two listings of the choices of three among `n` agree up to any index
/// that both have.
proof fn lemma_listings_agree(
    n: int,
    s: Seq<(usize, usize, usize)>,
    t: Seq<(usize, usize, usize)>,
    i: int,
)
    requires
        lists_triples(n, s),
        lists_triples(n, t),
        0 <= i < s.len(),
        i < t.len(),
    ensures
        s[i] == t[i],
    decreases i,
{
    assert forall|j: int| 0 <= j < i implies s[j] == t[j] by {
        lemma_listings_agree(n, s, t, j);
    }
    let x = s[i];
    assert(is_triple(n, (x.0, x.1, x.2)));
    let m = choose|m: int| 0 <= m < t.len() && t[m] == (x.0, x.1, x.2);
    if m < i {
        assert(s[m] == t[m]);
        assert(triple_before(s[m], s[i]));
    }
    let y = t[i];
    assert(is_triple(n, (y.0, y.1, y.2)));
    let l = choose|l: int| 0 <= l < s.len() && s[l] == (y.0, y.1, y.2);
    if l < i {
        assert(s[l] == t[l]);
        assert(triple_before(t[l], t[i]));
    }
    if m > i {
        assert(triple_before(t[i], t[m]));
    }
    if l > i {
        assert(triple_before(s[i], s[l]));
    }
}

/// There is only one listing of the choices of three among `n`.
pub proof fn lemma_triples_unique(n: int, s: Seq<(usize, usize, usize)>)
    requires
        lists_triples(n, s),
    ensures
        s == triples(n),
{
    let t = triples(n);
    if s.len() < t.len() {
        let y = t[s.len() as int];
        assert(is_triple(n, (y.0, y.1, y.2)));
        let l = choose|l: int| 0 <= l < s.len() && s[l] == (y.0, y.1, y.2);
        lemma_listings_agree(n, s, t, l);
        assert(triple_before(t[l], t[s.len() as int]));
    }
    if t.len() < s.len() {
        let x = s[t.len() as int];
        assert(is_triple(n, (x.0, x.1, x.2)));
        let m = choose|m: int| 0 <= m < t.len() && t[m] == (x.0, x.1, x.2);
        lemma_listings_agree(n, s, t, m);
        assert(triple_before(s[m], s[t.len() as int]));
    }
    assert forall|i: int| 0 <= i < s.len() implies s[i] == t[i] by {
        lemma_listings_agree(n, s, t, i);
    }
    assert(s =~= t);
}

/// Fewer than three indices leave no choice of three, and three leave one.
pub proof fn lemma_triples_of_few(n: int)
    requires
        n <= 3,
    ensures
        n < 3 ==> triples(n) == Seq::<(usize, usize, usize)>::empty(),
        n == 3 ==> triples(n) == seq![(0usize, 1usize, 2usize)],
{
    if n < 3 {
        lemma_triples_unique(n, Seq::<(usize, usize, usize)>::empty());
    } else {
        let s = seq![(0usize, 1usize, 2usize)];
        assert forall|a: usize, b: usize, c: usize| #[trigger] is_triple(n, (a, b, c)) implies exists|
            i: int,
        | 0 <= i < s.len() && s[i] == (a, b, c) by {
            assert(s[0] == (a, b, c));
        }
        lemma_triples_unique(n, s);
    }
}

/// Lists the choices of three indices below `n` with
/// `itertools::Itertools::combinations` on the range from zero to `n`. That
/// adaptor starts at the three smallest indices and moves to the next
/// combination in dictionary order until none is left, so it yields every
/// increasing triple once and in that order. Nothing of this is proved here.
#[verifier::external_body]
fn index_triples(n: usize) -> (r: Vec<(usize, usize, usize)>)
    requires
        n <= MAX_LIMBS,
    ensures
        lists_triples(n as int, r@),
{
    (0..n).combinations(3).map(|c| (c[0], c[1], c[2])).collect()
}

/// A plane: a direction at right angles to it and a point on it.
#[derive(Copy, Clone, PartialEq, Eq, Structural, Debug)]
pub struct Plane {
    pub normal: Vector3,
    pub point: Vector3,
}

/// A vector at right angles to the plane through three points; zero where
/// the points lie on one line.
pub open spec fn plane_normal(a: V3, b: V3, c: V3) -> V3 {
    b.minus(a).cross(c.minus(a))
}

/// The plane through three feet: its normal follows the order of the points
/// as a right-handed screw does, its point is their centre. There is no such
/// plane where a foot is missing or the feet lie on one line, as they do
/// when two of them coincide.
pub open spec fn plane_through(a: Option<Vector3>, b: Option<Vector3>, c: Option<Vector3>) -> Option<
    Plane,
> {
    if a is Some && b is Some && c is Some && plane_normal(a->0@, b->0@, c->0@) != V3::zero() {
        Some(
            Plane {
                normal: plane_normal(a->0@, b->0@, c->0@).unit().narrowed(),
                point: a->0@.plus(b->0@).plus(c->0@).over(3).narrowed(),
            },
        )
    } else {
        None
    }
}

/// Three points of which two coincide span no plane.
pub proof fn lemma_coincident_points(a: V3, b: V3, c: V3)
    requires
        a == b || b == c || a == c,
    ensures
        plane_normal(a, b, c) == V3::zero(),
{
    let u = b.minus(a);
    let v = c.minus(a);
    if b == c {
        assert(u.y * v.z == u.z * v.y && u.z * v.x == u.x * v.z && u.x * v.y == u.y * v.x)
            by (nonlinear_arith)
            requires
                u.x == v.x,
                u.y == v.y,
                u.z == v.z,
        ;
    } else if a == b {
        assert(0 * v.z == 0 && 0 * v.y == 0 && 0 * v.x == 0) by (nonlinear_arith);
    } else {
        assert(u.z * 0 == 0 && u.y * 0 == 0 && u.x * 0 == 0) by (nonlinear_arith);
    }
}

/// Sums over the planes through the feet.
pub struct PlaneSums {
    /// Sum of the normals.
    pub normal: V3,
    /// Sum of the points.
    pub point: V3,
    /// Number of planes.
    pub count: int,
}

impl PlaneSums {
    pub open spec fn none() -> PlaneSums {
        PlaneSums { normal: V3::zero(), point: V3::zero(), count: 0 }
    }

    /// These sums and one more plane; the same sums where there is no plane.
    pub open spec fn with(self, plane: Option<Plane>) -> PlaneSums {
        match plane {
            Some(p) => PlaneSums {
                normal: self.normal.plus(p.normal@),
                point: self.point.plus(p.point@),
                count: self.count + 1,
            },
            None => self,
        }
    }
}

/// The foot at index `i`; none where there is no such index.
pub open spec fn foot(feet: Seq<Option<Vector3>>, i: usize) -> Option<Vector3> {
    if i < feet.len() {
        feet[i as int]
    } else {
        None
    }
}

/// The plane through the feet that a triple of indices names.
pub open spec fn plane_at(feet: Seq<Option<Vector3>>, t: (usize, usize, usize)) -> Option<Plane> {
    plane_through(foot(feet, t.0), foot(feet, t.1), foot(feet, t.2))
}

/// The sums over the planes that the first `m` of `list` name.
pub open spec fn plane_sums(
    feet: Seq<Option<Vector3>>,
    list: Seq<(usize, usize, usize)>,
    m: nat,
) -> PlaneSums
    decreases m,
{
    if m == 0 {
        PlaneSums::none()
    } else {
        plane_sums(feet, list, (m - 1) as nat).with(plane_at(feet, list[m - 1]))
    }
}

/// A triple of feet that spans no plane leaves the sums as they are.
pub proof fn lemma_degenerate_triple_ignored(
    feet: Seq<Option<Vector3>>,
    list: Seq<(usize, usize, usize)>,
    m: nat,
)
    requires
        0 < m <= list.len(),
        ({
            let a = foot(feet, list[m - 1].0);
            let b = foot(feet, list[m - 1].1);
            let c = foot(feet, list[m - 1].2);
            a is None || b is None || c is None || a == b || b == c || a == c
        }),
    ensures
        plane_sums(feet, list, m) == plane_sums(feet, list, (m - 1) as nat),
{
    let a = foot(feet, list[m - 1].0);
    let b = foot(feet, list[m - 1].1);
    let c = foot(feet, list[m - 1].2);
    if a is Some && b is Some && c is Some {
        lemma_coincident_points(a->0@, b->0@, c->0@);
    }
}

impl LegCreature {
    /// The foot of the limb that the `k`-th entry of `legs_info` names; none
    /// where the handle names no limb or the foot is outside the supported
    /// range.
    pub open spec fn foot_of(self, limbs: Seq<Limb>, k: int) -> Option<Vector3> {
        let h = self.legs_info@[k].0 as int;
        if h < limbs.len() && limbs[h].arm.target.in_range() {
            Some(limbs[h].arm.target)
        } else {
            None
        }
    }

    /// The feet of the creature, in the order of `legs_info`.
    pub open spec fn feet(self, limbs: Seq<Limb>) -> Seq<Option<Vector3>> {
        Seq::new(self.legs_info@.len(), |k: int| self.foot_of(limbs, k))
    }

    /// The sums over the planes through every three feet.
    pub open spec fn foot_planes(self, limbs: Seq<Limb>) -> PlaneSums {
        let list = triples(self.legs_info@.len() as int);
        plane_sums(self.feet(limbs), list, list.len())
    }

    /// The up direction that the feet give: the direction of the average
    /// normal of the planes through them. There is none where no three feet
    /// span a plane or the normals cancel, nor for a creature with more than
    /// [`MAX_LIMBS`] limbs.
    pub open spec fn estimated_up(self, limbs: Seq<Limb>) -> Option<Vector3> {
        let sums = self.foot_planes(limbs);
        if self.legs_info@.len() <= MAX_LIMBS && sums.count > 0 && sums.normal.over(sums.count)
            != V3::zero() {
            Some(sums.normal.over(sums.count).unit().narrowed())
        } else {
            None
        }
    }

    /// The up direction after the feet have been consulted: what they give,
    /// or the previous one where they give none.
    pub open spec fn settled_up(self, limbs: Seq<Limb>) -> Vector3 {
        match self.estimated_up(limbs) {
            Some(u) => u,
            None => self.up,
        }
    }

    /// Where a body at `position` is after one update: the share
    /// [`smoothing`] of the way to its resting place, or where it was, where
    /// there is no such place or `position` is outside the supported range.
    pub open spec fn settled_position(self, limbs: Seq<Limb>, position: Vector3, rate: u64) -> Vector3 {
        match self.resting_place(limbs) {
            Some(p) => if position.in_range() {
                position@.lerp(p@, smoothing(rate), UNIT as int).narrowed()
            } else {
                position
            },
            None => position,
        }
    }

    /// The place where the body should rest: the average point of the planes
    /// through the feet, raised by `target_height` along the settled up
    /// direction. There is none where no three feet span a plane or the
    /// place is outside the supported range, nor for a creature with more
    /// than [`MAX_LIMBS`] limbs.
    pub open spec fn resting_place(self, limbs: Seq<Limb>) -> Option<Vector3> {
        let sums = self.foot_planes(limbs);
        let place = sums.point.over(sums.count).plus(
            self.settled_up(limbs)@.times(self.target_height as int).over(UNIT as int),
        );
        if self.legs_info@.len() <= MAX_LIMBS && sums.count > 0 && place.within(COORD_MAX as int) {
            Some(place.narrowed())
        } else {
            None
        }
    }
}

/// The share of the way to its resting place that a body covers in one
/// update at the rate `rate`, in thousandths: never more than all of it.
pub open spec fn smoothing(rate: u64) -> int {
    if rate < UNIT {
        rate as int
    } else {
        UNIT as int
    }
}

/// The rate, in thousandths, at which a body that settles within
/// `time_constant` covers the way to its resting place in an update that
/// comes `dt` after the last: the elapsed share of the time constant, and
/// all of the way once the time constant has elapsed or where there is
/// none. Updates that come twice as often move the body half as far.
pub open spec fn rate_over(dt: u64, time_constant: u64) -> u64 {
    if dt >= time_constant {
        UNIT as u64
    } else {
        ((dt * UNIT) / (time_constant as int)) as u64
    }
}

/// Computes [`rate_over`].
pub fn smoothing_rate(dt: u64, time_constant: u64) -> (r: u64)
    ensures
        r == rate_over(dt, time_constant),
        r <= UNIT,
{
    if dt >= time_constant {
        return UNIT as u64;
    }
    proof {
        lemma_div_between(dt * UNIT, time_constant as int, 0, UNIT as int);
    }
    ((dt as u128) * (UNIT as u128) / (time_constant as u128)) as u64
}

/// Computes [`plane_through`] for three feet in the supported range.
pub fn fit_plane(a: &Vector3, b: &Vector3, c: &Vector3) -> (r: Option<Plane>)
    requires
        a.in_range(),
        b.in_range(),
        c.in_range(),
    ensures
        r == plane_through(Some(*a), Some(*b), Some(*c)),
        r is Some ==> r->0.normal@.within(UNIT as int) && r->0.point.in_range(),
{
    let u: Vector3 = b.minus(a);
    let v: Vector3 = c.minus(a);
    proof {
        lemma_cross_bound(u@, v@, 2 * COORD_MAX, 2 * COORD_MAX);
        assert(2 * ((2 * COORD_MAX) * (2 * COORD_MAX)) == 0x8_0000_0000_0000) by (nonlinear_arith)
            requires
                COORD_MAX == 16_777_216,
        ;
    }
    let raw: Vector3 = u.cross(&v);
    match raw.normalized() {
        Some(normal) => {
            let sx: i64 = a.x + b.x + c.x;
            let sy: i64 = a.y + b.y + c.y;
            let sz: i64 = a.z + b.z + c.z;
            proof {
                lemma_div_between(sx as int, 3, -(COORD_MAX as int), COORD_MAX as int);
                lemma_div_between(sy as int, 3, -(COORD_MAX as int), COORD_MAX as int);
                lemma_div_between(sz as int, 3, -(COORD_MAX as int), COORD_MAX as int);
            }
            let point: Vector3 = Vector3 {
                x: div_floor(sx as i128, 3) as i64,
                y: div_floor(sy as i128, 3) as i64,
                z: div_floor(sz as i128, 3) as i64,
            };
            Some(Plane { normal, point })
        },
        None => None,
    }
}

/// Every foot that is there is a supported position.
pub open spec fn feet_in_range(feet: Seq<Option<Vector3>>) -> bool {
    forall|i: int| 0 <= i < feet.len() && (#[trigger] feet[i]) is Some ==> feet[i]->0.in_range()
}

/// Collects the feet of a creature: [`LegCreature::feet`].
pub fn gather_feet(creature: &LegCreature, limbs: &Vec<Limb>) -> (r: Vec<Option<Vector3>>)
    ensures
        r@ == creature.feet(limbs@),
        feet_in_range(r@),
{
    let mut feet: Vec<Option<Vector3>> = Vec::new();
    let mut k: usize = 0;
    while k < creature.legs_info.len()
        invariant
            k <= creature.legs_info@.len(),
            feet@.len() == k,
            forall|j: int| 0 <= j < k ==> feet@[j] == creature.foot_of(limbs@, j),
        decreases creature.legs_info@.len() - k,
    {
        let h: usize = creature.legs_info[k].0;
        if h < limbs.len() && limbs[h].arm.target.is_in_range() {
            feet.push(Some(limbs[h].arm.target));
        } else {
            feet.push(None);
        }
        k = k + 1;
    }
    assert(feet@ =~= creature.feet(limbs@));
    feet
}

/// The foot at an index, if there is one.
fn foot_at(feet: &Vec<Option<Vector3>>, i: usize) -> (r: Option<Vector3>)
    ensures
        r == foot(feet@, i),
{
    if i < feet.len() {
        feet[i]
    } else {
        None
    }
}

/// Running sums over planes, with room to spare.
struct Totals {
    normal: (i128, i128, i128),
    point: (i128, i128, i128),
    count: usize,
}

impl Totals {
    spec fn sums(self) -> PlaneSums {
        PlaneSums {
            normal: V3 { x: self.normal.0 as int, y: self.normal.1 as int, z: self.normal.2 as int },
            point: V3 { x: self.point.0 as int, y: self.point.1 as int, z: self.point.2 as int },
            count: self.count as int,
        }
    }

    spec fn bounded(self, m: int) -> bool {
        &&& 0 <= self.count <= m
        &&& self.sums().normal.within(self.count * UNIT)
        &&& self.sums().point.within(self.count * COORD_MAX)
    }
}

/// Adds up the planes through the feet that `list` names.
fn sum_planes(feet: &Vec<Option<Vector3>>, list: &Vec<(usize, usize, usize)>) -> (r: Totals)
    requires
        feet_in_range(feet@),
    ensures
        r.sums() == plane_sums(feet@, list@, list@.len()),
        r.bounded(list@.len() as int),
{
    let mut totals: Totals = Totals { normal: (0, 0, 0), point: (0, 0, 0), count: 0 };
    let mut m: usize = 0;
    while m < list.len()
        invariant
            m <= list@.len(),
            feet_in_range(feet@),
            totals.sums() == plane_sums(feet@, list@, m as nat),
            totals.bounded(m as int),
        decreases list@.len() - m,
    {
        let t: (usize, usize, usize) = list[m];
        let a: Option<Vector3> = foot_at(feet, t.0);
        let b: Option<Vector3> = foot_at(feet, t.1);
        let c: Option<Vector3> = foot_at(feet, t.2);
        let ghost before: Totals = totals;
        let mut found: Option<Plane> = None;
        match (a, b, c) {
            (Some(pa), Some(pb), Some(pc)) => {
                found = fit_plane(&pa, &pb, &pc);
            },
            _ => {},
        }
        assert(found == plane_at(feet@, t));
        match found {
            Some(plane) => {
                proof {
                    assert((before.count + 1) * UNIT == before.count * UNIT + UNIT) by (nonlinear_arith);
                    assert((before.count + 1) * COORD_MAX == before.count * COORD_MAX + COORD_MAX)
                        by (nonlinear_arith);
                    lemma_product_bound(before.count as int, UNIT as int, usize::MAX as int, UNIT as int);
                    lemma_product_bound(
                        before.count as int,
                        COORD_MAX as int,
                        usize::MAX as int,
                        COORD_MAX as int,
                    );
                }
                totals.normal = (
                    totals.normal.0 + plane.normal.x as i128,
                    totals.normal.1 + plane.normal.y as i128,
                    totals.normal.2 + plane.normal.z as i128,
                );
                totals.point = (
                    totals.point.0 + plane.point.x as i128,
                    totals.point.1 + plane.point.y as i128,
                    totals.point.2 + plane.point.z as i128,
                );
                totals.count = totals.count + 1;
            },
            None => {},
        }
        m = m + 1;
    }
    totals
}

/// One update of the body's pose from the feet of its limbs: the creature's
/// up direction becomes [`LegCreature::settled_up`], and the result is the
/// body's new position, [`LegCreature::settled_position`].
pub fn handle_height(creature: &mut LegCreature, limbs: &Vec<Limb>, position: Vector3, rate: u64) -> (r:
    Vector3)
    ensures
        final(creature).up == old(creature).settled_up(limbs@),
        final(creature).current_side == old(creature).current_side,
        final(creature).target_height == old(creature).target_height,
        final(creature).legs_info == old(creature).legs_info,
        final(creature).speed_mult == old(creature).speed_mult,
        final(creature).target_offset == old(creature).target_offset,
        old(creature).up.is_direction() ==> final(creature).up.is_direction(),
        position.in_range() ==> r.in_range(),
        r == old(creature).settled_position(limbs@, position, rate),
{
    if creature.legs_info.len() > MAX_LIMBS {
        return position;
    }
    let feet: Vec<Option<Vector3>> = gather_feet(creature, limbs);
    let list: Vec<(usize, usize, usize)> = index_triples(creature.legs_info.len());
    proof {
        lemma_triples_unique(creature.legs_info@.len() as int, list@);
    }
    let totals: Totals = sum_planes(&feet, &list);
    if totals.count == 0 {
        return position;
    }
    let n: i128 = totals.count as i128;
    proof {
        lemma_div_between(totals.normal.0 as int, n as int, -(UNIT as int), UNIT as int);
        lemma_div_between(totals.normal.1 as int, n as int, -(UNIT as int), UNIT as int);
        lemma_div_between(totals.normal.2 as int, n as int, -(UNIT as int), UNIT as int);
        lemma_div_between(totals.point.0 as int, n as int, -(COORD_MAX as int), COORD_MAX as int);
        lemma_div_between(totals.point.1 as int, n as int, -(COORD_MAX as int), COORD_MAX as int);
        lemma_div_between(totals.point.2 as int, n as int, -(COORD_MAX as int), COORD_MAX as int);
        assert(-(UNIT as int) * n == -(n * UNIT) && UNIT * n == n * UNIT) by (nonlinear_arith);
        assert(-(COORD_MAX as int) * n == -(n * COORD_MAX) && COORD_MAX * n == n * COORD_MAX)
            by (nonlinear_arith);
    }
    let mean: Vector3 = Vector3 {
        x: div_floor(totals.normal.0, n) as i64,
        y: div_floor(totals.normal.1, n) as i64,
        z: div_floor(totals.normal.2, n) as i64,
    };
    match mean.normalized() {
        Some(u) => {
            creature.up = u;
        },
        None => {},
    }
    let up: Vector3 = creature.up;
    let height: i128 = creature.target_height as i128;
    proof {
        let w = 0x8000_0000_0000_0000int;
        lemma_product_bound(up.x as int, height as int, w, w);
        lemma_product_bound(up.y as int, height as int, w, w);
        lemma_product_bound(up.z as int, height as int, w, w);
        assert(w * w == 0x4000_0000_0000_0000_0000_0000_0000_0000) by (nonlinear_arith)
            requires
                w == 0x8000_0000_0000_0000int,
        ;
        lemma_div_between(up.x * height, UNIT as int, -w * w, w * w);
        lemma_div_between(up.y * height, UNIT as int, -w * w, w * w);
        lemma_div_between(up.z * height, UNIT as int, -w * w, w * w);
    }
    let place: Option<Vector3> = Vector3::from_wide(
        div_floor(totals.point.0, n) + div_floor((up.x as i128) * height, UNIT as i128),
        div_floor(totals.point.1, n) + div_floor((up.y as i128) * height, UNIT as i128),
        div_floor(totals.point.2, n) + div_floor((up.z as i128) * height, UNIT as i128),
    );
    if !position.is_in_range() {
        return position;
    }
    match place {
        Some(p) => {
            let share: u64 = if rate < UNIT as u64 {
                rate
            } else {
                UNIT as u64
            };
            position.lerp(&p, share, UNIT as u64)
        },
        None => position,
    }
}

} // verus!
