//! A two-bone limb and the closed-form solver that bends it towards a target.
//!
//! The solver works on joint positions. With the root at `R`, the target at
//! `T` and the bones `l1` and `l2` long, the middle joint lies on the circle
//! in which the sphere of radius `l1` about `R` cuts the sphere of radius
//! `l2` about `T`, on the side to which the pole points. A target that is
//! too far away or too close is answered by the limb stretched out towards
//! it.

use crate::arith::{div_floor, isqrt, lemma_div_between, lemma_div_floor, lemma_sqrt_floor, sqrt_floor};
use crate::reach::{lemma_bent, lemma_stretched};
use crate::vec3::{
    lemma_dot_bound, lemma_norm_sq_sign, lemma_product_bound, lemma_square_root_bound, Vector3,
    COORD_MAX, DIR_MAX, UNIT, V3,
};
use vstd::prelude::*;

verus! {

/// Longest supported bone.
pub const BONE_MAX: i64 = 8_388_608;

/// The middle joint is placed on its circle in steps of one part in this.
pub const FINE: i64 = 4096;

/// What a two-bone limb is asked to do: reach `target`, bending towards `up`.
#[derive(Copy, Clone, PartialEq, Eq, Structural, Debug)]
pub struct IKArm {
    /// The point the end of the limb should reach.
    pub target: Vector3,
    /// The pole direction: the side on which the middle joint bends.
    pub up: Vector3,
}

impl IKArm {
    /// The target is a supported position and the pole a supported direction.
    pub open spec fn wf(self) -> bool {
        self.target.in_range() && self.up.is_direction()
    }

    /// Tells whether the limb's request is well-formed.
    pub fn is_wf(&self) -> (b: bool)
        ensures
            b == self.wf(),
    {
        self.target.is_in_range() && self.up.is_in_direction_range()
    }
}

/// Which of the six keys that steer the pole are held down. Each pulls the
/// pole towards one axis of the world.
#[derive(Copy, Clone, PartialEq, Eq, Structural, Debug)]
pub struct PoleKeys {
    pub plus_x: bool,
    pub minus_x: bool,
    pub plus_z: bool,
    pub minus_z: bool,
    pub plus_y: bool,
    pub minus_y: bool,
}

/// The share of the way to the pulled axis that the pole covers in one
/// update, in tenths.
pub const POLE_RATE: u64 = 1;

/// The axis towards which the keys pull the pole, as a direction of length
/// [`UNIT`]: that of the first key held down, in the order of the fields of
/// [`PoleKeys`].
pub open spec fn pulled_axis(keys: PoleKeys) -> Option<V3> {
    if keys.plus_x {
        Some(V3 { x: UNIT as int, y: 0, z: 0 })
    } else if keys.minus_x {
        Some(V3 { x: -(UNIT as int), y: 0, z: 0 })
    } else if keys.plus_z {
        Some(V3 { x: 0, y: 0, z: UNIT as int })
    } else if keys.minus_z {
        Some(V3 { x: 0, y: 0, z: -(UNIT as int) })
    } else if keys.plus_y {
        Some(V3 { x: 0, y: UNIT as int, z: 0 })
    } else if keys.minus_y {
        Some(V3 { x: 0, y: -(UNIT as int), z: 0 })
    } else {
        None
    }
}

/// The pole after one update: moved a tenth of the way to the pulled axis,
/// where a key is held down, and brought to unit length. A pole that has
/// shrunk to nothing stays as it was.
pub open spec fn steered(up: V3, keys: PoleKeys) -> V3 {
    let moved = match pulled_axis(keys) {
        Some(axis) => up.lerp(axis, POLE_RATE as int, 10),
        None => up,
    };
    if moved == V3::zero() {
        up
    } else {
        moved.unit()
    }
}

/// Computes [`pulled_axis`].
pub fn pull_of(keys: &PoleKeys) -> (r: Option<Vector3>)
    ensures
        r is Some <==> pulled_axis(*keys) is Some,
        r is Some ==> r->0@ == pulled_axis(*keys)->0 && r->0.is_direction(),
{
    if keys.plus_x {
        Some(Vector3 { x: UNIT, y: 0, z: 0 })
    } else if keys.minus_x {
        Some(Vector3 { x: -UNIT, y: 0, z: 0 })
    } else if keys.plus_z {
        Some(Vector3 { x: 0, y: 0, z: UNIT })
    } else if keys.minus_z {
        Some(Vector3 { x: 0, y: 0, z: -UNIT })
    } else if keys.plus_y {
        Some(Vector3 { x: 0, y: UNIT, z: 0 })
    } else if keys.minus_y {
        Some(Vector3 { x: 0, y: -UNIT, z: 0 })
    } else {
        None
    }
}

/// Steers the pole of a limb with the keys: [`steered`]. A pole outside the
/// supported range stays as it is.
pub fn handle_up(arm: &mut IKArm, keys: &PoleKeys)
    ensures
        final(arm).target == old(arm).target,
        old(arm).up.is_direction() ==> final(arm).up@ == steered(old(arm).up@, *keys),
        old(arm).up.is_direction() ==> final(arm).up.is_direction(),
        !old(arm).up.is_direction() ==> final(arm).up == old(arm).up,
{
    if !arm.up.is_in_direction_range() {
        return ;
    }
    let moved: Vector3 = match pull_of(keys) {
        Some(axis) => arm.up.lerp(&axis, POLE_RATE, 10),
        None => arm.up,
    };
    match moved.normalized() {
        Some(u) => {
            arm.up = u;
        },
        None => {},
    }
}

/// Makes a limb reach for the object it follows, where that object has a
/// position in the supported range.
pub fn handle_arm_targets(arm: &mut IKArm, followed: Option<Vector3>)
    ensures
        final(arm).up == old(arm).up,
        final(arm).target == (match followed {
            Some(p) => if p.in_range() {
                p
            } else {
                old(arm).target
            },
            None => old(arm).target,
        }),
{
    match followed {
        Some(p) => {
            if p.is_in_range() {
                arm.target = p;
            }
        },
        None => {},
    }
}

/// The part of `v` that lies in the plane at right angles to `normal`,
/// multiplied by the squared length of `normal`.
pub open spec fn projection_onto_plane(v: V3, normal: V3) -> V3 {
    v.times(normal.norm_sq()).minus(normal.times(v.dot(normal)))
}

/// The dot product is symmetric.
pub proof fn lemma_dot_symmetric(a: V3, b: V3)
    ensures
        a.dot(b) == b.dot(a),
{
    assert(a.x * b.x == b.x * a.x) by (nonlinear_arith);
    assert(a.y * b.y == b.y * a.y) by (nonlinear_arith);
    assert(a.z * b.z == b.z * a.z) by (nonlinear_arith);
}

proof fn lemma_combined_product(a: int, k: int, b: int, m: int, c: int)
    ensures
        (a * k + b * m) * c == k * (a * c) + m * (b * c),
{
    assert((a * k + b * m) * c == (a * k) * c + (b * m) * c) by (nonlinear_arith);
    assert((a * k) * c == k * (a * c)) by (nonlinear_arith);
    assert((b * m) * c == m * (b * c)) by (nonlinear_arith);
}

/// The dot product is linear in its first argument.
pub proof fn lemma_dot_linear(a: V3, k: int, b: V3, m: int, c: V3)
    ensures
        a.times(k).plus(b.times(m)).dot(c) == k * a.dot(c) + m * b.dot(c),
{
    lemma_combined_product(a.x, k, b.x, m, c.x);
    lemma_combined_product(a.y, k, b.y, m, c.y);
    lemma_combined_product(a.z, k, b.z, m, c.z);
    assert(k * a.dot(c) == k * (a.x * c.x) + k * (a.y * c.y) + k * (a.z * c.z)) by (nonlinear_arith)
        requires
            a.dot(c) == a.x * c.x + a.y * c.y + a.z * c.z,
    ;
    assert(m * b.dot(c) == m * (b.x * c.x) + m * (b.y * c.y) + m * (b.z * c.z)) by (nonlinear_arith)
        requires
            b.dot(c) == b.x * c.x + b.y * c.y + b.z * c.z,
    ;
}

/// A projection is a combination of the projected vector and the normal.
proof fn lemma_projection_combined(v: V3, n: V3)
    ensures
        projection_onto_plane(v, n) == v.times(n.norm_sq()).plus(n.times(-v.dot(n))),
{
    let k = v.dot(n);
    assert(n.x * (-k) == -(n.x * k) && n.y * (-k) == -(n.y * k) && n.z * (-k) == -(n.z * k))
        by (nonlinear_arith);
}

/// A projection onto a plane is at right angles to the plane's normal; its
/// dot product with the projected vector and its squared length are what
/// the lengths of the two vectors and their dot product give.
pub proof fn lemma_projection(v: V3, n: V3)
    ensures
        projection_onto_plane(v, n).dot(n) == 0,
        projection_onto_plane(v, n).dot(v) == n.norm_sq() * v.norm_sq() - v.dot(n) * v.dot(n),
        projection_onto_plane(v, n).norm_sq() == n.norm_sq() * projection_onto_plane(v, n).dot(v),
        projection_onto_plane(v, n).dot(v) >= 0,
        projection_onto_plane(v, n) == V3::zero() <==> projection_onto_plane(v, n).dot(v) == 0,
{
    let p = projection_onto_plane(v, n);
    let d = n.norm_sq();
    let k = v.dot(n);
    let u = v.norm_sq();
    let w = p.dot(v);
    lemma_projection_combined(v, n);
    lemma_dot_linear(v, d, n, -k, n);
    lemma_dot_linear(v, d, n, -k, v);
    lemma_dot_linear(v, d, n, -k, p);
    lemma_dot_symmetric(n, v);
    lemma_dot_symmetric(v, p);
    lemma_dot_symmetric(n, p);
    assert(d * k + (-k) * d == 0) by (nonlinear_arith);
    assert((-k) * k == -(k * k)) by (nonlinear_arith);
    assert((-k) * 0 == 0) by (nonlinear_arith);
    assert(p.dot(n) == 0);
    assert(w == d * u - k * k);
    assert(p.norm_sq() == d * w);
    lemma_norm_sq_sign(p);
    lemma_norm_sq_sign(n);
    if d == 0 {
        assert(n == V3::zero());
        assert(k == 0) by (nonlinear_arith)
            requires
                k == v.x * n.x + v.y * n.y + v.z * n.z,
                n.x == 0,
                n.y == 0,
                n.z == 0,
        ;
        assert(d * u == 0 && k * k == 0) by (nonlinear_arith)
            requires
                d == 0,
                k == 0,
        ;
        assert(v.x * d == 0 && v.y * d == 0 && v.z * d == 0 && n.x * k == 0 && n.y * k == 0 && n.z
            * k == 0) by (nonlinear_arith)
            requires
                d == 0,
                k == 0,
        ;
    } else {
        assert(w >= 0 && (w == 0 <==> d * w == 0)) by (nonlinear_arith)
            requires
                d > 0,
                d * w >= 0,
        ;
    }
}

/// The square of a dot product does not exceed the product of the squared
/// lengths.
pub proof fn lemma_dot_sq_bound(a: V3, b: V3)
    ensures
        a.dot(b) * a.dot(b) <= a.norm_sq() * b.norm_sq(),
{
    lemma_projection(a, b);
    assert(b.norm_sq() * a.norm_sq() == a.norm_sq() * b.norm_sq()) by (nonlinear_arith);
}

/// The limb can reach a target at the squared distance `d2` by bending:
/// the target is neither farther away than both bones together nor closer
/// than the difference of their lengths.
pub open spec fn bends(d2: int, l1: int, l2: int) -> bool {
    (l1 - l2) * (l1 - l2) <= d2 <= (l1 + l2) * (l1 + l2)
}

/// The distance to the target along `aim`, multiplied by the length of the
/// whole limb and rounded down.
pub open spec fn stretch(aim: V3, l1: int, l2: int) -> int {
    sqrt_floor(aim.norm_sq() * ((l1 + l2) * (l1 + l2)))
}

/// Where the middle joint of a limb stretched out along `aim` lies, seen
/// from the root: `l1` along `aim`.
pub open spec fn extended_knee(aim: V3, l1: int, l2: int) -> V3 {
    aim.times(l1 * (l1 + l2)).over(stretch(aim, l1, l2))
}

/// Where the end of a limb stretched out along `aim` lies, seen from the
/// root: `l1 + l2` along `aim`.
pub open spec fn extended_tip(aim: V3, l1: int, l2: int) -> V3 {
    aim.times((l1 + l2) * (l1 + l2)).over(stretch(aim, l1, l2))
}

/// Twice the product of the distance to the target and the distance from
/// the root to the centre of the circle on which the middle joint lies.
pub open spec fn along(aim: V3, l1: int, l2: int) -> int {
    l1 * l1 - l2 * l2 + aim.norm_sq()
}

/// The squared radius of the circle on which the middle joint lies,
/// multiplied by four times the squared distance to the target.
pub open spec fn circle(aim: V3, l1: int, l2: int) -> int {
    4 * (aim.norm_sq() * (l1 * l1)) - along(aim, l1, l2) * along(aim, l1, l2)
}

/// How much the pole `up` stands off the line along `aim`: the dot product
/// of the pole with its projection onto the plane across that line. It is
/// zero where the pole points along the line, where there is no pole and
/// where the target is at the root.
pub open spec fn spread(aim: V3, up: V3) -> int {
    projection_onto_plane(up, aim).dot(up)
}

/// The factor that brings the projected pole to the radius of the circle,
/// in parts of [`FINE`] and of twice the squared distance to the target.
pub open spec fn swell(aim: V3, up: V3, l1: int, l2: int) -> int {
    sqrt_floor((circle(aim, l1, l2) * (FINE * FINE)) / spread(aim, up))
}

/// Where the middle joint of a bent limb lies, seen from the root: on the
/// circle in which the spheres about root and target meet, where the
/// projection of the pole points.
pub open spec fn bent_knee(aim: V3, up: V3, l1: int, l2: int) -> V3 {
    aim.times(along(aim, l1, l2) * FINE).plus(
        projection_onto_plane(up, aim).times(swell(aim, up, l1, l2)),
    ).over(2 * (aim.norm_sq() * FINE))
}

/// Where the middle joint lies, seen from the root. There is no answer
/// where the pole does not stand off the line to the target.
pub open spec fn knee_offset(aim: V3, up: V3, l1: int, l2: int) -> Option<V3> {
    if spread(aim, up) == 0 {
        None
    } else if bends(aim.norm_sq(), l1, l2) {
        Some(bent_knee(aim, up, l1, l2))
    } else {
        Some(extended_knee(aim, l1, l2))
    }
}

/// Where the end of the limb lies, seen from the root: at the target where
/// the limb can reach it by bending, at the end of the stretched limb
/// otherwise.
pub open spec fn tip_offset(aim: V3, up: V3, l1: int, l2: int) -> Option<V3> {
    if spread(aim, up) == 0 {
        None
    } else if bends(aim.norm_sq(), l1, l2) {
        Some(aim)
    } else {
        Some(extended_tip(aim, l1, l2))
    }
}

/// Where the middle joint lies in the world; see [`knee_offset`].
pub open spec fn knee_position(root: V3, target: V3, up: V3, l1: int, l2: int) -> Option<V3> {
    match knee_offset(target.minus(root), up, l1, l2) {
        Some(o) => Some(root.plus(o)),
        None => None,
    }
}

/// Where the end of the limb lies in the world; see [`tip_offset`].
pub open spec fn tip_position(root: V3, target: V3, up: V3, l1: int, l2: int) -> Option<V3> {
    match tip_offset(target.minus(root), up, l1, l2) {
        Some(o) => Some(root.plus(o)),
        None => None,
    }
}

/// The joints of a solved limb.
#[derive(Copy, Clone, PartialEq, Eq, Structural, Debug)]
pub struct IkPose {
    /// The middle joint.
    pub knee: Vector3,
    /// The end of the limb.
    pub tip: Vector3,
}

/// Root and target are supported positions, the pole is a supported
/// direction and the bones have supported lengths.
pub open spec fn solvable(root: Vector3, target: Vector3, up: Vector3, l1: i64, l2: i64) -> bool {
    &&& root.in_range()
    &&& target.in_range()
    &&& up.is_direction()
    &&& 0 < l1 <= BONE_MAX
    &&& 0 < l2 <= BONE_MAX
}

/// The middle joint that the solver gives: [`knee_position`], where the
/// limb is [`solvable`].
pub open spec fn solved_knee(root: Vector3, target: Vector3, up: Vector3, l1: i64, l2: i64) -> Option<
    Vector3,
> {
    if solvable(root, target, up, l1, l2) {
        match knee_position(root@, target@, up@, l1 as int, l2 as int) {
            Some(k) => Some(k.narrowed()),
            None => None,
        }
    } else {
        None
    }
}

/// The pose that the solver gives: [`knee_position`] and [`tip_position`],
/// where the limb is [`solvable`].
pub open spec fn solved_pose(root: Vector3, target: Vector3, up: Vector3, l1: i64, l2: i64) -> Option<
    IkPose,
> {
    match solved_knee(root, target, up, l1, l2) {
        Some(knee) => Some(
            IkPose {
                knee,
                tip: tip_position(root@, target@, up@, l1 as int, l2 as int)->0.narrowed(),
            },
        ),
        None => None,
    }
}

/// Computes [`projection_onto_plane`] of a direction onto the plane across
/// a displacement between two supported positions.
pub fn project_onto_plane(v: &Vector3, normal: &Vector3) -> (r: Vector3)
    requires
        v.is_direction(),
        normal@.within(2 * COORD_MAX),
    ensures
        r@ == projection_onto_plane(v@, normal@),
{
    project_within(v, normal, Ghost(2 * COORD_MAX))
}

/// Computes [`projection_onto_plane`] of a direction onto the plane across
/// a vector within `m`.
fn project_within(v: &Vector3, normal: &Vector3, Ghost(m): Ghost<int>) -> (r: Vector3)
    requires
        v.is_direction(),
        normal@.within(m),
        0 <= m <= 2 * COORD_MAX,
    ensures
        r@ == projection_onto_plane(v@, normal@),
        r@.within(6 * (DIR_MAX * (m * m))),
{
    proof {
        lemma_dot_bound(normal@, normal@, m, m);
        lemma_dot_bound(v@, normal@, DIR_MAX as int, m);
        lemma_norm_sq_sign(normal@);
        assert(m * m <= 0x4_0000_0000_0000 && 0 <= DIR_MAX * m <= 0x8_0000_0000) by (nonlinear_arith)
            requires
                0 <= m <= 2 * COORD_MAX,
                COORD_MAX == 16_777_216,
                DIR_MAX == 1024,
        ;
    }
    let d: i128 = normal.norm_sq() as i128;
    let k: i128 = v.dot(normal);
    proof {
        let dm = 3 * (m * m);
        let km = 3 * (DIR_MAX * m);
        lemma_product_bound(v.x as int, d as int, DIR_MAX as int, dm);
        lemma_product_bound(v.y as int, d as int, DIR_MAX as int, dm);
        lemma_product_bound(v.z as int, d as int, DIR_MAX as int, dm);
        lemma_product_bound(normal.x as int, k as int, m, km);
        lemma_product_bound(normal.y as int, k as int, m, km);
        lemma_product_bound(normal.z as int, k as int, m, km);
        assert(DIR_MAX * dm + m * km == 6 * (DIR_MAX * (m * m))) by (nonlinear_arith)
            requires
                dm == 3 * (m * m),
                km == 3 * (DIR_MAX * m),
        ;
        assert(6 * (DIR_MAX * (m * m)) <= 0x6000_0000_0000_0000) by (nonlinear_arith)
            requires
                0 <= m * m <= 0x4_0000_0000_0000,
                DIR_MAX == 1024,
        ;
    }
    Vector3 {
        x: ((v.x as i128) * d - (normal.x as i128) * k) as i64,
        y: ((v.y as i128) * d - (normal.y as i128) * k) as i64,
        z: ((v.z as i128) * d - (normal.z as i128) * k) as i64,
    }
}

/// One coordinate of a joint of a stretched limb, seen from the root.
fn stretched_coordinate(c: i64, num: i128, dl: i128, Ghost(k): Ghost<int>) -> (r: i64)
    requires
        0 < dl,
        0 <= k <= 2 * BONE_MAX,
        -(dl * k) <= c * num <= dl * k,
        -0x1_0000_0000_0000_0000_0000 <= c * num <= 0x1_0000_0000_0000_0000_0000,
    ensures
        r == (c * num) / (dl as int),
        -k <= r <= k,
{
    proof {
        assert(dl * k == k * dl && -(dl * k) == (-k) * dl) by (nonlinear_arith);
        lemma_div_between(c * num, dl as int, -k, k);
    }
    div_floor((c as i128) * num, dl) as i64
}

/// The joints of a limb stretched out along `aim`, seen from the root.
fn stretched(aim: &Vector3, l1: i64, l2: i64) -> (r: (Vector3, Vector3))
    requires
        aim@.within(2 * COORD_MAX),
        aim@ != V3::zero(),
        0 < l1 <= BONE_MAX,
        0 < l2 <= BONE_MAX,
    ensures
        r.0@ == extended_knee(aim@, l1 as int, l2 as int),
        r.1@ == extended_tip(aim@, l1 as int, l2 as int),
        r.0@.within(l1 as int),
        r.1@.within(l1 + l2),
{
    let big: i128 = l1 as i128 + l2 as i128;
    proof {
        lemma_dot_bound(aim@, aim@, 2 * COORD_MAX, 2 * COORD_MAX);
        lemma_norm_sq_sign(aim@);
        lemma_product_bound(big as int, big as int, 2 * BONE_MAX, 2 * BONE_MAX);
        lemma_product_bound(l1 as int, big as int, BONE_MAX as int, 2 * BONE_MAX);
        lemma_product_bound(
            aim@.norm_sq(),
            big * big,
            3 * ((2 * COORD_MAX) * (2 * COORD_MAX)),
            (2 * BONE_MAX) * (2 * BONE_MAX),
        );
        assert(3 * ((2 * COORD_MAX) * (2 * COORD_MAX)) * ((2 * BONE_MAX) * (2 * BONE_MAX))
            <= 0x1_0000_0000_0000_0000_0000_0000_0000) by (nonlinear_arith)
            requires
                COORD_MAX == 16_777_216,
                BONE_MAX == 8_388_608,
        ;
        assert(big * big >= 0) by (nonlinear_arith);
        lemma_stretched(aim@, l1 as int, l2 as int, l1 as int);
        lemma_stretched(aim@, l1 as int, l2 as int, big as int);
        let w = (2 * BONE_MAX) * (2 * BONE_MAX);
        lemma_product_bound(aim.x as int, l1 * big, 2 * COORD_MAX, w);
        lemma_product_bound(aim.y as int, l1 * big, 2 * COORD_MAX, w);
        lemma_product_bound(aim.z as int, l1 * big, 2 * COORD_MAX, w);
        lemma_product_bound(aim.x as int, big * big, 2 * COORD_MAX, w);
        lemma_product_bound(aim.y as int, big * big, 2 * COORD_MAX, w);
        lemma_product_bound(aim.z as int, big * big, 2 * COORD_MAX, w);
        assert((2 * COORD_MAX) * w <= 0x1_0000_0000_0000_0000_0000) by (nonlinear_arith)
            requires
                w == (2 * BONE_MAX) * (2 * BONE_MAX),
                COORD_MAX == 16_777_216,
                BONE_MAX == 8_388_608,
        ;
        assert(l1 * big >= 0) by (nonlinear_arith)
            requires
                l1 > 0,
                big > 0,
        ;
    }
    let d: u128 = aim.norm_sq();
    let span: u128 = (big * big) as u128;
    let dl: i128 = isqrt(d * span) as i128;
    let to_knee: i128 = (l1 as i128) * big;
    let to_tip: i128 = big * big;
    let knee: Vector3 = Vector3 {
        x: stretched_coordinate(aim.x, to_knee, dl, Ghost(l1 as int)),
        y: stretched_coordinate(aim.y, to_knee, dl, Ghost(l1 as int)),
        z: stretched_coordinate(aim.z, to_knee, dl, Ghost(l1 as int)),
    };
    let tip: Vector3 = Vector3 {
        x: stretched_coordinate(aim.x, to_tip, dl, Ghost(big as int)),
        y: stretched_coordinate(aim.y, to_tip, dl, Ghost(big as int)),
        z: stretched_coordinate(aim.z, to_tip, dl, Ghost(big as int)),
    };
    (knee, tip)
}

/// One coordinate of the middle joint of a bent limb, seen from the root.
fn bent_coordinate(c: i64, p: i64, af: i128, s: i128, den: i128, Ghost(l1): Ghost<int>) -> (r: i64)
    requires
        -0x100_0000 <= c <= 0x100_0000,
        -0x1800_0000_0000_0000 <= p <= 0x1800_0000_0000_0000,
        -0x2000_0000_0000_0000 <= af <= 0x2000_0000_0000_0000,
        0 <= s <= 0x1000_0000_0000_0000,
        0 < den,
        0 <= l1 <= BONE_MAX,
        -(den * l1) <= c * af + p * s <= den * l1,
    ensures
        r == (c * af + p * s) / (den as int),
        -l1 <= r <= l1,
{
    proof {
        lemma_product_bound(c as int, af as int, 0x100_0000, 0x2000_0000_0000_0000);
        lemma_product_bound(p as int, s as int, 0x1800_0000_0000_0000, 0x1000_0000_0000_0000);
        assert(0x100_0000 * 0x2000_0000_0000_0000 + 0x1800_0000_0000_0000 * 0x1000_0000_0000_0000
            <= i128::MAX) by (nonlinear_arith);
        assert(den * l1 == l1 * den && -(den * l1) == (-l1) * den) by (nonlinear_arith);
        lemma_div_between(c * af + p * s, den as int, -l1, l1);
    }
    div_floor((c as i128) * af + (p as i128) * s, den) as i64
}

/// The middle joint of a bent limb, seen from the root.
fn bent(aim: &Vector3, up: &Vector3, l1: i64, l2: i64, q: i128) -> (r: Vector3)
    requires
        aim@.within(2 * COORD_MAX),
        up.is_direction(),
        0 < l1 <= BONE_MAX,
        0 < l2 <= BONE_MAX,
        q == spread(aim@, up@),
        q != 0,
        bends(aim@.norm_sq(), l1 as int, l2 as int),
    ensures
        r@ == bent_knee(aim@, up@, l1 as int, l2 as int),
        r@.within(l1 as int),
{
    let ghost d0 = aim@.norm_sq();
    let ghost big = l1 + l2;
    proof {
        lemma_dot_bound(up@, up@, DIR_MAX as int, DIR_MAX as int);
        lemma_norm_sq_sign(aim@);
        assert(4 * (3 * (DIR_MAX * DIR_MAX)) <= FINE * FINE) by (nonlinear_arith)
            requires
                DIR_MAX == 1024,
                FINE == 4096,
        ;
        lemma_bent(aim@, up@, l1 as int, l2 as int);
        lemma_product_bound(big, big, 0x100_0000, 0x100_0000);
        lemma_product_bound(l1 as int, l1 as int, BONE_MAX as int, BONE_MAX as int);
        lemma_product_bound(l2 as int, l2 as int, BONE_MAX as int, BONE_MAX as int);
        assert(0x100_0000 * 0x100_0000 == 0x1_0000_0000_0000 && BONE_MAX * BONE_MAX
            == 0x4000_0000_0000) by (nonlinear_arith)
            requires
                BONE_MAX == 8_388_608,
        ;
        assert(l1 * l1 > 0 && l2 * l2 > 0) by (nonlinear_arith)
            requires
                l1 > 0,
                l2 > 0,
        ;
        assert(aim.x * aim.x >= 0 && aim.y * aim.y >= 0 && aim.z * aim.z >= 0) by (nonlinear_arith);
        assert(0x100_0001 * 0x100_0001 > 0x1_0000_0000_0000) by (nonlinear_arith);
        lemma_square_root_bound(aim.x as int, 0x100_0000);
        lemma_square_root_bound(aim.y as int, 0x100_0000);
        lemma_square_root_bound(aim.z as int, 0x100_0000);
    }
    let d: i128 = aim.norm_sq() as i128;
    let f: i128 = FINE as i128;
    let a: i128 = (l1 as i128) * (l1 as i128) - (l2 as i128) * (l2 as i128) + d;
    proof {
        lemma_product_bound(d as int, l1 * l1, 0x1_0000_0000_0000, 0x4000_0000_0000);
        lemma_product_bound(a as int, a as int, 0x2_0000_0000_0000, 0x2_0000_0000_0000);
        assert(0x1_0000_0000_0000 * 0x4000_0000_0000 == 0x4000_0000_0000_0000_0000_0000
            && 0x2_0000_0000_0000 * 0x2_0000_0000_0000 == 0x4_0000_0000_0000_0000_0000_0000)
            by (nonlinear_arith);
    }
    let c: i128 = 4 * (d * ((l1 as i128) * (l1 as i128))) - a * a;
    proof {
        assert(a * a >= 0) by (nonlinear_arith);
        assert(c == circle(aim@, l1 as int, l2 as int));
        assert(0 <= c <= 0x1_0000_0000_0000_0000_0000_0000);
        lemma_product_bound(c as int, f * f, 0x1_0000_0000_0000_0000_0000_0000, 0x100_0000);
        assert(f * f == 0x100_0000 && 0x1_0000_0000_0000_0000_0000_0000 * 0x100_0000
            == 0x100_0000_0000_0000_0000_0000_0000_0000) by (nonlinear_arith)
            requires
                f == 4096,
        ;
        assert(c * (f * f) >= 0) by (nonlinear_arith)
            requires
                c >= 0,
                f * f == 0x100_0000,
        ;
        lemma_div_floor(c * (f * f), q as int);
        assert(0 <= (c * (f * f)) / (q as int) <= c * (f * f)) by (nonlinear_arith)
            requires
                q >= 1,
                c * (f * f) >= 0,
                ((c * (f * f)) / (q as int)) * q <= c * (f * f),
                c * (f * f) < ((c * (f * f)) / (q as int)) * q + q,
        ;
    }
    let x: i128 = div_floor(c * (f * f), q);
    let s: i128 = isqrt(x as u128) as i128;
    proof {
        assert(s == swell(aim@, up@, l1 as int, l2 as int));
        assert(0x1000_0000_0000_0001 * 0x1000_0000_0000_0001
            > 0x100_0000_0000_0000_0000_0000_0000_0000) by (nonlinear_arith);
        lemma_square_root_bound(s as int, 0x1000_0000_0000_0000);
        lemma_product_bound(a as int, f as int, 0x2_0000_0000_0000, 4096);
        lemma_product_bound(d as int, f as int, 0x1_0000_0000_0000, 4096);
        assert(d * f > 0) by (nonlinear_arith)
            requires
                d > 0,
                f == 4096,
        ;
    }
    let p: Vector3 = project_within(up, aim, Ghost(0x100_0000));
    let af: i128 = a * f;
    let den: i128 = 2 * (d * f);
    proof {
        assert(6 * (DIR_MAX * (0x100_0000int * 0x100_0000int)) == 0x1800_0000_0000_0000)
            by (nonlinear_arith)
            requires
                DIR_MAX == 1024,
        ;
        let v = aim@.times(af as int).plus(p@.times(s as int));
        assert(v.x * v.x >= 0 && v.y * v.y >= 0 && v.z * v.z >= 0) by (nonlinear_arith);
        assert(0 <= den * l1) by (nonlinear_arith)
            requires
                0 < den,
                0 < l1,
        ;
        assert((den * l1 + 1) * (den * l1 + 1) > (den * l1) * (den * l1)) by (nonlinear_arith)
            requires
                0 <= den * l1,
        ;
        lemma_square_root_bound(v.x, den * l1);
        lemma_square_root_bound(v.y, den * l1);
        lemma_square_root_bound(v.z, den * l1);
    }
    Vector3 {
        x: bent_coordinate(aim.x, p.x, af, s, den, Ghost(l1 as int)),
        y: bent_coordinate(aim.y, p.y, af, s, den, Ghost(l1 as int)),
        z: bent_coordinate(aim.z, p.z, af, s, den, Ghost(l1 as int)),
    }
}

/// The joints of the limb, seen from the root: [`knee_offset`] and
/// [`tip_offset`].
fn solve(aim: &Vector3, up: &Vector3, l1: i64, l2: i64) -> (r: Option<IkPose>)
    requires
        aim@.within(2 * COORD_MAX),
        up.is_direction(),
        0 < l1 <= BONE_MAX,
        0 < l2 <= BONE_MAX,
    ensures
        r is Some <==> knee_offset(aim@, up@, l1 as int, l2 as int) is Some,
        r is Some ==> {
            &&& r->0.knee@ == knee_offset(aim@, up@, l1 as int, l2 as int)->0
            &&& r->0.tip@ == tip_offset(aim@, up@, l1 as int, l2 as int)->0
            &&& r->0.knee@.within(l1 as int)
            &&& r->0.tip@.within(2 * COORD_MAX)
        },
{
    proof {
        lemma_projection(up@, aim@);
        lemma_dot_bound(aim@, aim@, 2 * COORD_MAX, 2 * COORD_MAX);
        lemma_dot_bound(up@, up@, DIR_MAX as int, DIR_MAX as int);
        lemma_dot_bound(up@, aim@, DIR_MAX as int, 2 * COORD_MAX);
        lemma_norm_sq_sign(aim@);
        lemma_norm_sq_sign(up@);
        let dm = 3 * ((2 * COORD_MAX) * (2 * COORD_MAX));
        let um = 3 * (DIR_MAX * DIR_MAX);
        let km = 3 * (DIR_MAX * (2 * COORD_MAX));
        lemma_product_bound(aim@.norm_sq(), up@.norm_sq(), dm, um);
        lemma_product_bound(up@.dot(aim@), up@.dot(aim@), km, km);
        assert(dm * um <= 0x1_0000_0000_0000_0000_0000 && km * km <= 0x1_0000_0000_0000_0000_0000)
            by (nonlinear_arith)
            requires
                dm == 3 * ((2 * COORD_MAX) * (2 * COORD_MAX)),
                um == 3 * (DIR_MAX * DIR_MAX),
                km == 3 * (DIR_MAX * (2 * COORD_MAX)),
                COORD_MAX == 16_777_216,
                DIR_MAX == 1024,
        ;
        assert(dm <= 0x1_0000_0000_0000_0000 && um <= 0x1_0000_0000) by (nonlinear_arith)
            requires
                dm == 3 * ((2 * COORD_MAX) * (2 * COORD_MAX)),
                um == 3 * (DIR_MAX * DIR_MAX),
                COORD_MAX == 16_777_216,
                DIR_MAX == 1024,
        ;
    }
    let d: i128 = aim.norm_sq() as i128;
    let u: i128 = up.norm_sq() as i128;
    let k: i128 = up.dot(aim);
    let q: i128 = d * u - k * k;
    if q == 0 {
        return None;
    }
    let sum: i128 = l1 as i128 + l2 as i128;
    let diff: i128 = l1 as i128 - l2 as i128;
    proof {
        lemma_product_bound(sum as int, sum as int, 2 * BONE_MAX, 2 * BONE_MAX);
        lemma_product_bound(diff as int, diff as int, BONE_MAX as int, BONE_MAX as int);
        assert((2 * BONE_MAX) * (2 * BONE_MAX) <= 0x1_0000_0000_0000 && BONE_MAX * BONE_MAX
            <= 0x1_0000_0000_0000) by (nonlinear_arith)
            requires
                BONE_MAX == 8_388_608,
        ;
    }
    if diff * diff <= d && d <= sum * sum {
        let knee: Vector3 = bent(aim, up, l1, l2, q);
        Some(IkPose { knee, tip: *aim })
    } else {
        proof {
            if aim@ == V3::zero() {
                assert(d * u == 0) by (nonlinear_arith)
                    requires
                        d == 0,
                ;
                assert(k * k >= 0) by (nonlinear_arith);
            }
        }
        let joints: (Vector3, Vector3) = stretched(aim, l1, l2);
        Some(IkPose { knee: joints.0, tip: joints.1 })
    }
}

/// Tells whether a limb is [`solvable`].
pub fn is_solvable(root: &Vector3, target: &Vector3, up: &Vector3, l1: i64, l2: i64) -> (b: bool)
    ensures
        b == solvable(*root, *target, *up, l1, l2),
{
    root.is_in_range() && target.is_in_range() && up.is_in_direction_range() && 0 < l1 && l1
        <= BONE_MAX && 0 < l2 && l2 <= BONE_MAX
}

/// Places the middle joint of a two-bone limb between `root` and `target`:
/// [`solved_knee`]. There is no answer where the pole `up` does not stand
/// off the line from root to target, as when it points along that line or
/// the target is at the root, nor where the limb is not [`solvable`].
pub fn get_knee_position(root: &Vector3, target: &Vector3, up: &Vector3, l1: i64, l2: i64) -> (r:
    Option<Vector3>)
    ensures
        r == solved_knee(*root, *target, *up, l1, l2),
        r is Some ==> r->0@ == knee_position(root@, target@, up@, l1 as int, l2 as int)->0,
{
    if !is_solvable(root, target, up, l1, l2) {
        return None;
    }
    let aim: Vector3 = target.minus(root);
    match solve(&aim, up, l1, l2) {
        Some(joints) => Some(root.plus(&joints.knee)),
        None => None,
    }
}

/// Solves a two-bone limb: [`solved_pose`]. The pose keeps the lengths of
/// the bones up to a few steps and ends at the target where the limb can
/// reach it. There is no pose where [`get_knee_position`] has no answer; the
/// limb then keeps the pose it had.
pub fn handle_ik(arm: &IKArm, root: &Vector3, l1: i64, l2: i64) -> (r: Option<IkPose>)
    ensures
        r == solved_pose(*root, arm.target, arm.up, l1, l2),
        r is Some ==> {
            &&& r->0.knee@ == knee_position(root@, arm.target@, arm.up@, l1 as int, l2 as int)->0
            &&& r->0.tip@ == tip_position(root@, arm.target@, arm.up@, l1 as int, l2 as int)->0
        },
{
    if !is_solvable(root, &arm.target, &arm.up, l1, l2) {
        return None;
    }
    let aim: Vector3 = arm.target.minus(root);
    match solve(&aim, &arm.up, l1, l2) {
        Some(joints) => Some(IkPose { knee: root.plus(&joints.knee), tip: root.plus(&joints.tip) }),
        None => None,
    }
}

} // verus!
