//! Three-dimensional vectors with integer coordinates.
//!
//! Positions and displacements are measured in thousandths of a world unit
//! ([`UNIT`] steps per world unit); a direction of length one therefore has
//! length [`UNIT`]. The mathematical model of a vector is [`V3`], whose
//! coordinates are unbounded integers.

use crate::arith::{div_floor, isqrt, lemma_div_between, lemma_sqrt_floor, sqrt_floor};
use vstd::prelude::*;

verus! {

/// Fixed-point steps per world unit, and the length of a unit direction.
pub const UNIT: i64 = 1000;

/// Largest magnitude of a coordinate of a position.
pub const COORD_MAX: i64 = 16_777_216;

/// Largest magnitude of a coordinate of a direction.
pub const DIR_MAX: i64 = 1024;

/// Largest magnitude of a coordinate of a vector that can be brought to unit
/// length.
pub const UNIT_ARG_MAX: i64 = 0x8_0000_0000_0000;

/// Largest magnitude of a coordinate for which dot products are computed.
pub const DOT_MAX: i64 = 0x4000_0000_0000_0000;

/// A vector of three unbounded integers: the model of [`Vector3`].
pub struct V3 {
    pub x: int,
    pub y: int,
    pub z: int,
}

impl V3 {
    pub open spec fn zero() -> V3 {
        V3 { x: 0, y: 0, z: 0 }
    }

    pub open spec fn plus(self, o: V3) -> V3 {
        V3 { x: self.x + o.x, y: self.y + o.y, z: self.z + o.z }
    }

    pub open spec fn minus(self, o: V3) -> V3 {
        V3 { x: self.x - o.x, y: self.y - o.y, z: self.z - o.z }
    }

    /// Every coordinate multiplied by `k`.
    pub open spec fn times(self, k: int) -> V3 {
        V3 { x: self.x * k, y: self.y * k, z: self.z * k }
    }

    /// Every coordinate divided by `d`, rounded towards minus infinity.
    pub open spec fn over(self, d: int) -> V3 {
        V3 { x: self.x / d, y: self.y / d, z: self.z / d }
    }

    pub open spec fn dot(self, o: V3) -> int {
        self.x * o.x + self.y * o.y + self.z * o.z
    }

    pub open spec fn cross(self, o: V3) -> V3 {
        V3 {
            x: self.y * o.z - self.z * o.y,
            y: self.z * o.x - self.x * o.z,
            z: self.x * o.y - self.y * o.x,
        }
    }

    /// The squared length.
    pub open spec fn norm_sq(self) -> int {
        self.dot(self)
    }

    /// The squared distance to `o`.
    pub open spec fn dist_sq(self, o: V3) -> int {
        self.minus(o).norm_sq()
    }

    /// No coordinate exceeds `limit` in magnitude.
    pub open spec fn within(self, limit: int) -> bool {
        &&& -limit <= self.x <= limit
        &&& -limit <= self.y <= limit
        &&& -limit <= self.z <= limit
    }

    /// The point `num / den` of the way from here to `to`.
    pub open spec fn lerp(self, to: V3, num: int, den: int) -> V3 {
        self.plus(to.minus(self).times(num).over(den))
    }

    /// The length of this vector in millionths of a step, rounded down.
    pub open spec fn scaled_length(self) -> int {
        sqrt_floor(self.norm_sq() * (UNIT * UNIT))
    }

    /// The direction of this vector: the vector shrunk or stretched to the
    /// length [`UNIT`], every coordinate rounded down. The zero vector has
    /// no direction.
    pub open spec fn unit(self) -> V3 {
        self.times(UNIT * UNIT).over(self.scaled_length())
    }

    /// The vector with these coordinates, where they can be stored.
    pub open spec fn narrowed(self) -> Vector3 {
        Vector3 { x: self.x as i64, y: self.y as i64, z: self.z as i64 }
    }

    /// Every coordinate can be stored in an `i64`.
    pub open spec fn fits(self) -> bool {
        &&& i64::MIN <= self.x <= i64::MAX
        &&& i64::MIN <= self.y <= i64::MAX
        &&& i64::MIN <= self.z <= i64::MAX
    }
}

/// The product of two bounded numbers is bounded by the product of the bounds.
pub proof fn lemma_product_bound(a: int, b: int, la: int, lb: int)
    requires
        -la <= a <= la,
        -lb <= b <= lb,
    ensures
        -(la * lb) <= a * b <= la * lb,
{
    assert(-(la * lb) <= a * b <= la * lb) by (nonlinear_arith)
        requires
            -la <= a <= la,
            -lb <= b <= lb,
    ;
}

/// The dot product of two bounded vectors is bounded.
pub proof fn lemma_dot_bound(a: V3, b: V3, la: int, lb: int)
    requires
        a.within(la),
        b.within(lb),
    ensures
        -(3 * (la * lb)) <= a.dot(b) <= 3 * (la * lb),
{
    lemma_product_bound(a.x, b.x, la, lb);
    lemma_product_bound(a.y, b.y, la, lb);
    lemma_product_bound(a.z, b.z, la, lb);
}

/// The cross product of two bounded vectors is bounded.
pub proof fn lemma_cross_bound(a: V3, b: V3, la: int, lb: int)
    requires
        a.within(la),
        b.within(lb),
    ensures
        a.cross(b).within(2 * (la * lb)),
{
    lemma_product_bound(a.y, b.z, la, lb);
    lemma_product_bound(a.z, b.y, la, lb);
    lemma_product_bound(a.z, b.x, la, lb);
    lemma_product_bound(a.x, b.z, la, lb);
    lemma_product_bound(a.x, b.y, la, lb);
    lemma_product_bound(a.y, b.x, la, lb);
}

/// A squared length is never negative, and it is zero for the zero vector
/// only.
pub proof fn lemma_norm_sq_sign(a: V3)
    ensures
        a.norm_sq() >= 0,
        a.norm_sq() == 0 <==> a == V3::zero(),
{
    assert(a.x * a.x >= 0 && (a.x * a.x == 0 <==> a.x == 0)) by (nonlinear_arith);
    assert(a.y * a.y >= 0 && (a.y * a.y == 0 <==> a.y == 0)) by (nonlinear_arith);
    assert(a.z * a.z >= 0 && (a.z * a.z == 0 <==> a.z == 0)) by (nonlinear_arith);
}

/// A square bounded by a square bounds its root.
pub proof fn lemma_square_root_bound(a: int, b: int)
    requires
        0 <= b,
        a * a < (b + 1) * (b + 1),
    ensures
        -b <= a <= b,
{
    assert(-b <= a <= b) by (nonlinear_arith)
        requires
            0 <= b,
            a * a < (b + 1) * (b + 1),
    ;
}

/// No coordinate of a direction of a non-zero vector exceeds [`UNIT`] in
/// magnitude.
pub proof fn lemma_unit_bound(v: V3)
    requires
        v != V3::zero(),
    ensures
        v.scaled_length() >= UNIT,
        v.unit().within(UNIT as int),
{
    lemma_norm_sq_sign(v);
    let u = UNIT as int;
    let n = v.norm_sq();
    let m = v.scaled_length();
    assert(n * (u * u) >= u * u) by (nonlinear_arith)
        requires
            n >= 1,
            u == 1000,
    ;
    lemma_sqrt_floor(n * (u * u));
    assert(m >= u) by (nonlinear_arith)
        requires
            0 <= m,
            (m + 1) * (m + 1) > n * (u * u),
            n * (u * u) >= u * u,
            u == 1000,
    ;
    assert(v.x * v.x >= 0 && v.y * v.y >= 0 && v.z * v.z >= 0) by (nonlinear_arith);
    lemma_unit_coordinate(v.x, n, m);
    lemma_unit_coordinate(v.y, n, m);
    lemma_unit_coordinate(v.z, n, m);
}

proof fn lemma_unit_coordinate(c: int, n: int, m: int)
    requires
        c * c <= n,
        0 < m,
        n * (UNIT * UNIT) < (m + 1) * (m + 1),
    ensures
        -UNIT <= (c * (UNIT * UNIT)) / m <= UNIT,
{
    let u = UNIT as int;
    assert((c * u) * (c * u) < (m + 1) * (m + 1)) by (nonlinear_arith)
        requires
            c * c <= n,
            n * (u * u) < (m + 1) * (m + 1),
            u == 1000,
    ;
    lemma_square_root_bound(c * u, m);
    assert(c * (u * u) == (c * u) * u) by (nonlinear_arith);
    assert(-u * m <= (c * u) * u <= u * m) by (nonlinear_arith)
        requires
            -m <= c * u <= m,
            u == 1000,
    ;
    lemma_div_between(c * (u * u), m, -u, u);
}

/// A vector with coordinates in thousandths of a world unit.
#[derive(Copy, Clone, PartialEq, Eq, Structural, Debug)]
pub struct Vector3 {
    pub x: i64,
    pub y: i64,
    pub z: i64,
}

impl View for Vector3 {
    type V = V3;

    open spec fn view(&self) -> V3 {
        V3 { x: self.x as int, y: self.y as int, z: self.z as int }
    }
}

impl Vector3 {
    /// A position lies in the supported range.
    pub open spec fn in_range(self) -> bool {
        self@.within(COORD_MAX as int)
    }

    /// A direction lies in the supported range.
    pub open spec fn is_direction(self) -> bool {
        self@.within(DIR_MAX as int)
    }

    pub fn new(x: i64, y: i64, z: i64) -> (r: Vector3)
        ensures
            r == (Vector3 { x, y, z }),
    {
        Vector3 { x, y, z }
    }

    pub fn zero() -> (r: Vector3)
        ensures
            r@ == V3::zero(),
    {
        Vector3 { x: 0, y: 0, z: 0 }
    }

    /// Tells whether this is a position in the supported range.
    pub fn is_in_range(&self) -> (b: bool)
        ensures
            b == self.in_range(),
    {
        self.is_within(COORD_MAX)
    }

    /// Tells whether this is a direction in the supported range.
    pub fn is_in_direction_range(&self) -> (b: bool)
        ensures
            b == self.is_direction(),
    {
        self.is_within(DIR_MAX)
    }

    /// Narrows three wide coordinates to a position, if they are in the
    /// supported range.
    pub fn from_wide(x: i128, y: i128, z: i128) -> (r: Option<Vector3>)
        ensures
            r is Some <==> (V3 { x: x as int, y: y as int, z: z as int }).within(COORD_MAX as int),
            r is Some ==> r->0 == (V3 { x: x as int, y: y as int, z: z as int }).narrowed(),
            r is Some ==> r->0@ == (V3 { x: x as int, y: y as int, z: z as int }),
    {
        let m: i128 = COORD_MAX as i128;
        if -m <= x && x <= m && -m <= y && y <= m && -m <= z && z <= m {
            Some(Vector3 { x: x as i64, y: y as i64, z: z as i64 })
        } else {
            None
        }
    }

    /// Tells whether no coordinate exceeds `limit` in magnitude.
    pub fn is_within(&self, limit: i64) -> (b: bool)
        requires
            0 <= limit,
        ensures
            b == self@.within(limit as int),
    {
        -limit <= self.x && self.x <= limit && -limit <= self.y && self.y <= limit && -limit
            <= self.z && self.z <= limit
    }

    pub fn plus(&self, o: &Vector3) -> (r: Vector3)
        requires
            self@.plus(o@).fits(),
        ensures
            r@ == self@.plus(o@),
    {
        Vector3 { x: self.x + o.x, y: self.y + o.y, z: self.z + o.z }
    }

    pub fn minus(&self, o: &Vector3) -> (r: Vector3)
        requires
            self@.minus(o@).fits(),
        ensures
            r@ == self@.minus(o@),
    {
        Vector3 { x: self.x - o.x, y: self.y - o.y, z: self.z - o.z }
    }

    pub fn dot(&self, o: &Vector3) -> (r: i128)
        requires
            self@.within(DOT_MAX as int),
            o@.within(DOT_MAX as int),
        ensures
            r == self@.dot(o@),
    {
        proof {
            lemma_product_bound(self.x as int, o.x as int, DOT_MAX as int, DOT_MAX as int);
            lemma_product_bound(self.y as int, o.y as int, DOT_MAX as int, DOT_MAX as int);
            lemma_product_bound(self.z as int, o.z as int, DOT_MAX as int, DOT_MAX as int);
            assert(3 * (DOT_MAX * DOT_MAX) <= i128::MAX) by (nonlinear_arith)
                requires
                    DOT_MAX == 0x4000_0000_0000_0000,
            ;
        }
        let a: i128 = (self.x as i128) * (o.x as i128);
        let b: i128 = (self.y as i128) * (o.y as i128);
        let c: i128 = (self.z as i128) * (o.z as i128);
        a + b + c
    }

    pub fn norm_sq(&self) -> (r: u128)
        requires
            self@.within(DOT_MAX as int),
        ensures
            r == self@.norm_sq(),
    {
        proof {
            lemma_norm_sq_sign(self@);
        }
        let d: i128 = self.dot(self);
        d as u128
    }

    pub fn dist_sq(&self, o: &Vector3) -> (r: u128)
        requires
            self@.minus(o@).within(DOT_MAX as int),
        ensures
            r == self@.dist_sq(o@),
    {
        let d: Vector3 = self.minus(o);
        d.norm_sq()
    }

    /// Computes [`V3::lerp`] between two supported positions.
    pub fn lerp(&self, to: &Vector3, num: u64, den: u64) -> (r: Vector3)
        requires
            self.in_range(),
            to.in_range(),
            num <= den,
            0 < den,
        ensures
            r@ == self@.lerp(to@, num as int, den as int),
            r.in_range(),
    {
        Vector3 {
            x: lerp_coordinate(self.x, to.x, num, den),
            y: lerp_coordinate(self.y, to.y, num, den),
            z: lerp_coordinate(self.z, to.z, num, den),
        }
    }

    /// Computes [`V3::unit`]; `None` for the zero vector.
    pub fn normalized(&self) -> (r: Option<Vector3>)
        requires
            self@.within(UNIT_ARG_MAX as int),
        ensures
            r is None <==> self@ == V3::zero(),
            r is Some ==> r->0@ == self@.unit() && r->0@.within(UNIT as int),
    {
        if self.x == 0 && self.y == 0 && self.z == 0 {
            return None;
        }
        proof {
            lemma_norm_sq_sign(self@);
            lemma_unit_bound(self@);
            lemma_dot_bound(self@, self@, UNIT_ARG_MAX as int, UNIT_ARG_MAX as int);
            assert(3 * (UNIT_ARG_MAX * UNIT_ARG_MAX) * (UNIT * UNIT) <= i128::MAX) by (nonlinear_arith)
                requires
                    UNIT_ARG_MAX == 0x8_0000_0000_0000,
                    UNIT == 1000,
            ;
            assert(self@.norm_sq() * (UNIT * UNIT) <= 3 * (UNIT_ARG_MAX * UNIT_ARG_MAX) * (UNIT
                * UNIT)) by (nonlinear_arith)
                requires
                    self@.norm_sq() <= 3 * (UNIT_ARG_MAX * UNIT_ARG_MAX),
                    UNIT == 1000,
            ;
        }
        let scale: u128 = (UNIT as u128) * (UNIT as u128);
        let n: u128 = self.norm_sq();
        let m: u128 = isqrt(n * scale);
        let wide: i128 = scale as i128;
        let len: i128 = m as i128;
        Some(
            Vector3 {
                x: div_floor((self.x as i128) * wide, len) as i64,
                y: div_floor((self.y as i128) * wide, len) as i64,
                z: div_floor((self.z as i128) * wide, len) as i64,
            },
        )
    }

    pub fn cross(&self, o: &Vector3) -> (r: Vector3)
        requires
            self@.within(i64::MAX as int),
            o@.within(i64::MAX as int),
            self@.cross(o@).fits(),
        ensures
            r@ == self@.cross(o@),
    {
        proof {
            let m = i64::MAX as int;
            lemma_product_bound(self.y as int, o.z as int, m, m);
            lemma_product_bound(self.z as int, o.y as int, m, m);
            lemma_product_bound(self.z as int, o.x as int, m, m);
            lemma_product_bound(self.x as int, o.z as int, m, m);
            lemma_product_bound(self.x as int, o.y as int, m, m);
            lemma_product_bound(self.y as int, o.x as int, m, m);
            assert(2 * (i64::MAX * i64::MAX) <= i128::MAX) by (nonlinear_arith);
        }
        let x: i128 = (self.y as i128) * (o.z as i128) - (self.z as i128) * (o.y as i128);
        let y: i128 = (self.z as i128) * (o.x as i128) - (self.x as i128) * (o.z as i128);
        let z: i128 = (self.x as i128) * (o.y as i128) - (self.y as i128) * (o.x as i128);
        Vector3 { x: x as i64, y: y as i64, z: z as i64 }
    }
}

/// One coordinate of [`V3::lerp`].
fn lerp_coordinate(from: i64, to: i64, num: u64, den: u64) -> (r: i64)
    requires
        -COORD_MAX <= from <= COORD_MAX,
        -COORD_MAX <= to <= COORD_MAX,
        num <= den,
        0 < den,
    ensures
        r == from + ((to - from) * num) / (den as int),
        -COORD_MAX <= r <= COORD_MAX,
{
    let span: i128 = to as i128 - from as i128;
    proof {
        lemma_product_bound(span as int, num as int, 2 * COORD_MAX, u64::MAX as int);
        if span >= 0 {
            assert(0 <= span * num <= span * den) by (nonlinear_arith)
                requires
                    0 <= span,
                    0 <= num <= den,
            ;
            lemma_div_between(span * num, den as int, 0, span as int);
        } else {
            assert(span * den <= span * num <= 0) by (nonlinear_arith)
                requires
                    span < 0,
                    0 <= num <= den,
            ;
            lemma_div_between(span * num, den as int, span as int, 0);
        }
    }
    let along: i128 = div_floor(span * (num as i128), den as i128);
    (from as i128 + along) as i64
}

} // verus!
