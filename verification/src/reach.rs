//! How closely the joints computed on whole steps keep the lengths of the
//! bones.

use crate::arith::{
    lemma_div_between, lemma_div_floor, lemma_sqrt_floor, lemma_square_monotone, sqrt_floor,
};
use crate::ik_arm::{
    along, bends, bent_knee, circle, knee_offset, knee_position, lemma_dot_linear,
    lemma_dot_sq_bound, lemma_dot_symmetric, lemma_projection, projection_onto_plane, solved_knee,
    solved_pose, spread, stretch, swell, tip_offset, tip_position, FINE,
};
use crate::vec3::{
    lemma_dot_bound, lemma_norm_sq_sign, lemma_square_root_bound, lemma_unit_bound, Vector3,
    DIR_MAX, UNIT, V3,
};
use vstd::prelude::*;

verus! {

/// By how many steps a distance between two joints may differ from the
/// length it should have.
pub const SLACK: i64 = 5;

/// A squared distance belongs to a distance that differs from `len` by no
/// more than [`SLACK`].
pub open spec fn near_length(dist_sq: int, len: int) -> bool {
    &&& dist_sq <= (len + SLACK) * (len + SLACK)
    &&& len >= SLACK ==> (len - SLACK) * (len - SLACK) <= dist_sq
}

/// Among non-negative numbers, the order of the squares is the order of the
/// numbers.
pub proof fn lemma_square_order(a: int, b: int)
    requires
        0 <= b,
        a * a <= b * b,
    ensures
        a <= b,
{
    assert(a <= b) by (nonlinear_arith)
        requires
            0 <= b,
            a * a <= b * b,
    ;
}

/// The square of a dot product does not exceed the product of the squared
/// lengths, so the dot product of a vector no longer than `p` with one no
/// longer than `q` lies between `-p * q` and `p * q`.
pub proof fn lemma_dot_within(a: V3, b: V3, p: int, q: int)
    requires
        0 <= p,
        0 <= q,
        a.norm_sq() <= p * p,
        b.norm_sq() <= q * q,
    ensures
        -(p * q) <= a.dot(b) <= p * q,
{
    lemma_dot_sq_bound(a, b);
    lemma_norm_sq_sign(a);
    lemma_norm_sq_sign(b);
    let d = a.dot(b);
    let x = a.norm_sq();
    let y = b.norm_sq();
    assert(x * y <= (p * p) * (q * q)) by (nonlinear_arith)
        requires
            0 <= x <= p * p,
            0 <= y <= q * q,
    ;
    assert((p * p) * (q * q) == (p * q) * (p * q)) by (nonlinear_arith);
    assert(0 <= p * q) by (nonlinear_arith)
        requires
            0 <= p,
            0 <= q,
    ;
    lemma_square_order(d, p * q);
    assert((-d) * (-d) == d * d) by (nonlinear_arith);
    lemma_square_order(-d, p * q);
}

/// A vector `w` that is `v` divided by `den`, up to a remainder below `den`
/// in every coordinate, is nearly `len` long where `v` is nearly
/// `den * len` long.
pub proof fn lemma_near_after_division(v: V3, w: V3, rem: V3, den: int, len: int)
    requires
        0 < den,
        1 <= len,
        v == w.times(den).plus(rem),
        rem.within(den - 1),
        v.norm_sq() <= (den * (len + 1)) * (den * (len + 1)),
        v.norm_sq() >= (den * den) * (len * len - len),
    ensures
        near_length(w.norm_sq(), len),
{
    let dd = den * den;
    let ww = w.norm_sq();
    let vv = v.norm_sq();
    let rr = rem.norm_sq();
    let wr = w.dot(rem);
    let vr = v.dot(rem);
    lemma_norm_sq_sign(w);
    lemma_norm_sq_sign(rem);
    assert(0 < dd) by (nonlinear_arith)
        requires
            0 < den,
            dd == den * den,
    ;
    // v is den * w + rem, so |v|^2 = den^2 |w|^2 + 2 den (w . rem) + |rem|^2
    // and v . rem = den (w . rem) + |rem|^2.
    lemma_dot_linear(w, den, rem, 1, v);
    lemma_dot_linear(w, den, rem, 1, w);
    lemma_dot_linear(w, den, rem, 1, rem);
    assert(rem.times(1) == rem);
    lemma_dot_symmetric(w, v);
    lemma_dot_symmetric(rem, v);
    lemma_dot_symmetric(rem, w);
    assert(v.dot(w) == den * ww + wr);
    assert(vr == den * wr + rr);
    assert(vv == den * (den * ww + wr) + vr);
    assert(den * (den * ww + wr) == dd * ww + den * wr) by (nonlinear_arith)
        requires
            dd == den * den,
    ;
    // dd * ww = vv - 2 vr + rr
    assert(dd * ww == vv - 2 * vr + rr);
    // bounds on rr and vr
    assert(rem.x * rem.x <= dd && rem.y * rem.y <= dd && rem.z * rem.z <= dd) by (nonlinear_arith)
        requires
            rem.within(den - 1),
            0 < den,
            dd == den * den,
    ;
    assert(rr <= 3 * dd);
    assert(3 * dd <= (2 * den) * (2 * den)) by (nonlinear_arith)
        requires
            dd == den * den,
    ;
    assert(0 <= den * (len + 1)) by (nonlinear_arith)
        requires
            0 < den,
            1 <= len,
    ;
    lemma_dot_within(v, rem, den * (len + 1), 2 * den);
    let b = (den * (len + 1)) * (2 * den);
    assert(b == 2 * (dd * (len + 1))) by (nonlinear_arith)
        requires
            b == (den * (len + 1)) * (2 * den),
            dd == den * den,
    ;
    assert((den * (len + 1)) * (den * (len + 1)) == dd * ((len + 1) * (len + 1))) by (nonlinear_arith)
        requires
            dd == den * den,
    ;
    // upper bound
    assert(dd * ww <= dd * ((len + 1) * (len + 1)) + 4 * (dd * (len + 1)) + 3 * dd);
    assert(dd * ((len + 1) * (len + 1)) + 4 * (dd * (len + 1)) + 3 * dd <= dd * ((len + 5) * (len + 5)))
        by (nonlinear_arith)
        requires
            0 < dd,
            1 <= len,
    ;
    assert(ww <= (len + 5) * (len + 5)) by (nonlinear_arith)
        requires
            0 < dd,
            dd * ww <= dd * ((len + 5) * (len + 5)),
    ;
    // lower bound
    if len >= 6 {
        assert(dd * ww >= dd * (len * len - len) - 4 * (dd * (len + 1)));
        assert(dd * (len * len - len) - 4 * (dd * (len + 1)) >= dd * ((len - 5) * (len - 5)))
            by (nonlinear_arith)
            requires
                0 < dd,
                6 <= len,
        ;
        assert(ww >= (len - 5) * (len - 5)) by (nonlinear_arith)
            requires
                0 < dd,
                dd * ww >= dd * ((len - 5) * (len - 5)),
        ;
    } else if len == 5 {
        assert((len - 5) * (len - 5) == 0);
    }
}

/// A direction is nearly [`UNIT`] long.
pub proof fn lemma_unit_length(v: V3)
    requires
        v != V3::zero(),
    ensures
        near_length(v.unit().norm_sq(), UNIT as int),
{
    let u = UNIT as int;
    let n = v.norm_sq();
    let m = v.scaled_length();
    let uu = u * u;
    let big = v.times(uu);
    lemma_norm_sq_sign(v);
    lemma_unit_bound(v);
    lemma_sqrt_floor(n * uu);
    assert((v.x * uu) * (v.x * uu) == (uu * uu) * (v.x * v.x)) by (nonlinear_arith);
    assert((v.y * uu) * (v.y * uu) == (uu * uu) * (v.y * v.y)) by (nonlinear_arith);
    assert((v.z * uu) * (v.z * uu) == (uu * uu) * (v.z * v.z)) by (nonlinear_arith);
    assert((uu * uu) * n == (uu * uu) * (v.x * v.x) + (uu * uu) * (v.y * v.y) + (uu * uu) * (v.z
        * v.z)) by (nonlinear_arith)
        requires
            n == v.x * v.x + v.y * v.y + v.z * v.z,
    ;
    assert(big.norm_sq() == uu * (n * uu)) by (nonlinear_arith)
        requires
            big.norm_sq() == (uu * uu) * n,
    ;
    assert(uu * (n * uu) >= uu * (m * m) && uu * (n * uu) <= uu * ((m + 1) * (m + 1)))
        by (nonlinear_arith)
        requires
            m * m <= n * uu,
            n * uu < (m + 1) * (m + 1),
            uu == 1_000_000,
    ;
    assert(uu * ((m + 1) * (m + 1)) == (u * (m + 1)) * (u * (m + 1))) by (nonlinear_arith)
        requires
            uu == u * u,
    ;
    assert(0 <= u * (m + 1) <= m * (u + 1)) by (nonlinear_arith)
        requires
            u == 1000,
            u <= m,
    ;
    lemma_square_monotone(u * (m + 1), m * (u + 1));
    assert(uu * (m * m) >= (m * m) * (u * u - u)) by (nonlinear_arith)
        requires
            uu == u * u,
            u == 1000,
    ;
    lemma_quotient(big, m);
    lemma_near_after_division(big, v.unit(), remainder(big, m), m, u);
}

/// The length of the vector that places a joint `k` along `aim` in a
/// stretched limb, before it is divided by [`stretch`].
pub proof fn lemma_stretched(aim: V3, l1: int, l2: int, k: int)
    requires
        aim != V3::zero(),
        1 <= l1,
        1 <= l2,
        1 <= k <= l1 + l2,
    ensures
        stretch(aim, l1, l2) >= l1 + l2,
        aim.times(k * (l1 + l2)).within(stretch(aim, l1, l2) * k),
        aim.times(k * (l1 + l2)).norm_sq() <= (stretch(aim, l1, l2) * (k + 1)) * (
        stretch(aim, l1, l2) * (k + 1)),
        aim.times(k * (l1 + l2)).norm_sq() >= (stretch(aim, l1, l2)
            * stretch(aim, l1, l2)) * (k * k - k),
{
    let big = l1 + l2;
    let d = aim.norm_sq();
    let m = d * (big * big);
    let dl = stretch(aim, l1, l2);
    let v = aim.times(k * big);
    lemma_norm_sq_sign(aim);
    assert(m >= big * big) by (nonlinear_arith)
        requires
            d >= 1,
            m == d * (big * big),
    ;
    assert(big * big >= 0) by (nonlinear_arith);
    lemma_sqrt_floor(m);
    assert(dl >= big) by (nonlinear_arith)
        requires
            0 <= dl,
            (dl + 1) * (dl + 1) > m,
            m >= big * big,
            big >= 2,
    ;
    // |v|^2 = k^2 m
    let kb = k * big;
    assert((aim.x * kb) * (aim.x * kb) == (kb * kb) * (aim.x * aim.x)) by (nonlinear_arith);
    assert((aim.y * kb) * (aim.y * kb) == (kb * kb) * (aim.y * aim.y)) by (nonlinear_arith);
    assert((aim.z * kb) * (aim.z * kb) == (kb * kb) * (aim.z * aim.z)) by (nonlinear_arith);
    assert((kb * kb) * d == (kb * kb) * (aim.x * aim.x) + (kb * kb) * (aim.y * aim.y) + (kb * kb)
        * (aim.z * aim.z)) by (nonlinear_arith)
        requires
            d == aim.x * aim.x + aim.y * aim.y + aim.z * aim.z,
    ;
    assert(v.norm_sq() == (kb * kb) * d);
    assert((kb * kb) * d == (k * k) * m) by (nonlinear_arith)
        requires
            kb == k * big,
            m == d * (big * big),
    ;
    assert((k * k) * m >= (k * k) * (dl * dl) && (k * k) * m <= (k * k) * ((dl + 1) * (dl + 1)))
        by (nonlinear_arith)
        requires
            dl * dl <= m,
            m < (dl + 1) * (dl + 1),
    ;
    assert((k * k) * ((dl + 1) * (dl + 1)) == (k * (dl + 1)) * (k * (dl + 1))) by (nonlinear_arith);
    assert(k * (dl + 1) <= dl * (k + 1) && 0 <= k * (dl + 1)) by (nonlinear_arith)
        requires
            1 <= k <= dl,
    ;
    lemma_square_monotone(k * (dl + 1), dl * (k + 1));
    assert((k * k) * (dl * dl) >= (dl * dl) * (k * k - k)) by (nonlinear_arith)
        requires
            1 <= k,
    ;
    // coordinates
    assert(aim.x * aim.x >= 0 && aim.y * aim.y >= 0 && aim.z * aim.z >= 0) by (nonlinear_arith);
    lemma_stretched_coordinate(aim.x, d, big, m, dl, k);
    lemma_stretched_coordinate(aim.y, d, big, m, dl, k);
    lemma_stretched_coordinate(aim.z, d, big, m, dl, k);
}

proof fn lemma_stretched_coordinate(c: int, d: int, big: int, m: int, dl: int, k: int)
    requires
        c * c <= d,
        m == d * (big * big),
        0 <= dl,
        m < (dl + 1) * (dl + 1),
        1 <= k,
    ensures
        -(dl * k) <= c * (k * big) <= dl * k,
{
    assert((c * big) * (c * big) <= m) by (nonlinear_arith)
        requires
            c * c <= d,
            m == d * (big * big),
    ;
    lemma_square_root_bound(c * big, dl);
    assert(c * (k * big) == (c * big) * k) by (nonlinear_arith);
    assert(-(dl * k) <= (c * big) * k <= dl * k) by (nonlinear_arith)
        requires
            -dl <= c * big <= dl,
            1 <= k,
    ;
}

/// The scalar heart of the bent limb. With the squared distance `d` to the
/// target, the circle term `c`, the offset `b` of the circle's plane from
/// one end of the limb and the bone `l` at that end, so that
/// `b * b + c == 4 * d * l * l`: the squared length `vv` of the vector that
/// places the middle joint is close below the square of `2 * d * f * l`.
pub proof fn lemma_bent_scalars(d: int, f: int, q: int, c: int, b: int, l: int, s: int, vv: int)
    requires
        0 < d,
        0 < f,
        0 < q,
        4 * q <= d * (f * f),
        0 <= c,
        1 <= l,
        b * b + c == 4 * (d * (l * l)),
        s == sqrt_floor((c * (f * f)) / q),
        vv == d * ((f * f) * (b * b) + (s * s) * q),
    ensures
        vv <= ((2 * (d * f)) * l) * ((2 * (d * f)) * l),
        vv >= ((2 * (d * f)) * (2 * (d * f))) * (l * l - l),
{
    let ff = f * f;
    let bb = b * b;
    let ll = l * l;
    let cf = c * ff;
    let x = cf / q;
    let sq = (s * s) * q;
    let den = 2 * (d * f);
    assert(0 < ff) by (nonlinear_arith)
        requires
            0 < f,
            ff == f * f,
    ;
    assert(0 <= cf) by (nonlinear_arith)
        requires
            0 <= c,
            0 < ff,
            cf == c * ff,
    ;
    lemma_div_floor(cf, q);
    assert(0 <= x) by (nonlinear_arith)
        requires
            0 < q,
            0 <= cf,
            cf < x * q + q,
    ;
    lemma_sqrt_floor(x);
    // s^2 q <= c f^2 < (s + 1)^2 q
    assert(sq <= x * q) by (nonlinear_arith)
        requires
            sq == (s * s) * q,
            s * s <= x,
            0 < q,
    ;
    assert(((s + 1) * (s + 1)) * q >= (x + 1) * q) by (nonlinear_arith)
        requires
            (s + 1) * (s + 1) >= x + 1,
            0 < q,
    ;
    assert((x + 1) * q == x * q + q) by (nonlinear_arith);
    assert(((s + 1) * (s + 1)) * q == sq + (2 * s + 1) * q) by (nonlinear_arith)
        requires
            sq == (s * s) * q,
    ;
    assert(sq <= cf);
    assert(sq + (2 * s + 1) * q > cf);
    // the upper bound
    let dd = d * d;
    assert(ff * bb + cf == ff * (4 * (d * ll))) by (nonlinear_arith)
        requires
            bb + c == 4 * (d * ll),
            cf == c * ff,
    ;
    assert(d * (ff * (4 * (d * ll))) == (den * l) * (den * l)) by (nonlinear_arith)
        requires
            den == 2 * (d * f),
            ff == f * f,
            ll == l * l,
    ;
    assert(vv <= d * (ff * bb + cf)) by (nonlinear_arith)
        requires
            vv == d * (ff * bb + sq),
            sq <= cf,
            0 < d,
    ;
    // the lower bound
    let t = s * q;
    assert(0 <= t) by (nonlinear_arith)
        requires
            0 <= s,
            0 < q,
            t == s * q,
    ;
    assert(t * t == sq * q) by (nonlinear_arith)
        requires
            t == s * q,
            sq == (s * s) * q,
    ;
    assert(0 <= bb) by (nonlinear_arith)
        requires
            bb == b * b,
    ;
    assert(c <= 4 * (d * ll));
    let g = d * ff;
    assert(sq * q <= cf * q) by (nonlinear_arith)
        requires
            sq <= cf,
            0 < q,
    ;
    assert(cf * q <= (d * ll) * (ff * (4 * q))) by (nonlinear_arith)
        requires
            cf == c * ff,
            0 <= c <= 4 * (d * ll),
            0 < ff,
            0 < q,
    ;
    assert(0 <= d * ll && 0 < g) by (nonlinear_arith)
        requires
            0 < d,
            ll == l * l,
            0 < ff,
            g == d * ff,
    ;
    assert((d * ll) * (ff * (4 * q)) <= (d * ll) * (ff * g)) by (nonlinear_arith)
        requires
            4 * q <= g,
            0 <= d * ll,
            0 < ff,
    ;
    assert((d * ll) * (ff * g) == (g * l) * (g * l)) by (nonlinear_arith)
        requires
            g == d * ff,
            ll == l * l,
    ;
    assert(0 <= g * l) by (nonlinear_arith)
        requires
            0 < g,
            1 <= l,
    ;
    lemma_square_order(t, g * l);
    assert(q <= g * l) by (nonlinear_arith)
        requires
            4 * q <= g,
            0 < q,
            1 <= l,
    ;
    assert((2 * s + 1) * q == 2 * t + q) by (nonlinear_arith)
        requires
            t == s * q,
    ;
    assert((2 * s + 1) * q <= 3 * (g * l));
    assert(d * (3 * (g * l)) <= (den * den) * l) by (nonlinear_arith)
        requires
            g == d * (f * f),
            den == 2 * (d * f),
            0 < d,
            0 < f,
            1 <= l,
    ;
    assert(vv >= d * (ff * bb + cf) - d * ((2 * s + 1) * q)) by (nonlinear_arith)
        requires
            vv == d * (ff * bb + sq),
            sq + (2 * s + 1) * q > cf,
            0 < d,
    ;
    assert(d * ((2 * s + 1) * q) <= d * (3 * (g * l))) by (nonlinear_arith)
        requires
            (2 * s + 1) * q <= 3 * (g * l),
            0 < d,
    ;
    assert((den * l) * (den * l) - (den * den) * l == (den * den) * (l * l - l)) by (nonlinear_arith);
}

/// The circle term is not negative where the limb can reach the target by
/// bending, and it completes the square of either offset to four times the
/// squared product of the distance and the bone at that end.
pub proof fn lemma_circle(aim: V3, l1: int, l2: int)
    requires
        bends(aim.norm_sq(), l1, l2),
    ensures
        circle(aim, l1, l2) >= 0,
        along(aim, l1, l2) * along(aim, l1, l2) + circle(aim, l1, l2) == 4 * (aim.norm_sq() * (l1
            * l1)),
        (2 * aim.norm_sq() - along(aim, l1, l2)) * (2 * aim.norm_sq() - along(aim, l1, l2))
            + circle(aim, l1, l2) == 4 * (aim.norm_sq() * (l2 * l2)),
{
    let d = aim.norm_sq();
    let a = l1 * l1;
    let b = l2 * l2;
    let g = 2 * (l1 * l2);
    let big = (l1 + l2) * (l1 + l2);
    let small = (l1 - l2) * (l1 - l2);
    let al = along(aim, l1, l2);
    let c = circle(aim, l1, l2);
    assert(big == a + b + g && small == a + b - g) by (nonlinear_arith)
        requires
            a == l1 * l1,
            b == l2 * l2,
            g == 2 * (l1 * l2),
            big == (l1 + l2) * (l1 + l2),
            small == (l1 - l2) * (l1 - l2),
    ;
    assert(g * g == 4 * (a * b)) by (nonlinear_arith)
        requires
            a == l1 * l1,
            b == l2 * l2,
            g == 2 * (l1 * l2),
    ;
    assert((big - d) * (d - small) >= 0) by (nonlinear_arith)
        requires
            small <= d <= big,
    ;
    assert((big - d) * (d - small) == g * g - (d - (a + b)) * (d - (a + b))) by (nonlinear_arith)
        requires
            big == a + b + g,
            small == a + b - g,
    ;
    assert(c == 4 * (a * b) - (d - (a + b)) * (d - (a + b))) by (nonlinear_arith)
        requires
            c == 4 * (d * a) - al * al,
            al == a - b + d,
    ;
    assert((2 * d - al) * (2 * d - al) + c == 4 * (d * b)) by (nonlinear_arith)
        requires
            c == 4 * (d * a) - al * al,
            al == a - b + d,
    ;
}

/// The squared length of a combination of two vectors at right angles.
proof fn lemma_combination(aim: V3, p: V3, a: int, s: int, d: int, q: int)
    requires
        aim.norm_sq() == d,
        p.dot(aim) == 0,
        p.norm_sq() == d * q,
    ensures
        aim.times(a).plus(p.times(s)).norm_sq() == d * (a * a + (s * s) * q),
{
    let v = aim.times(a).plus(p.times(s));
    lemma_dot_linear(aim, a, p, s, v);
    lemma_dot_linear(aim, a, p, s, aim);
    lemma_dot_linear(aim, a, p, s, p);
    lemma_dot_symmetric(aim, v);
    lemma_dot_symmetric(p, v);
    lemma_dot_symmetric(aim, p);
    assert(s * 0 == 0 && a * 0 == 0) by (nonlinear_arith);
    assert(v.dot(aim) == a * d);
    assert(v.dot(p) == s * (d * q));
    assert(a * (a * d) + s * (s * (d * q)) == d * (a * a + (s * s) * q)) by (nonlinear_arith);
}

/// The two vectors that place the middle joint of a bent limb, seen from
/// the root and seen from the target, before they are divided: their
/// lengths are close below those of the bones, multiplied by the divisor.
pub proof fn lemma_bent(aim: V3, up: V3, l1: int, l2: int)
    requires
        1 <= l1,
        1 <= l2,
        spread(aim, up) != 0,
        4 * up.norm_sq() <= FINE * FINE,
        bends(aim.norm_sq(), l1, l2),
    ensures
        aim.norm_sq() > 0,
        spread(aim, up) > 0,
        circle(aim, l1, l2) >= 0,
        ({
            let den = 2 * (aim.norm_sq() * FINE);
            let v = aim.times(along(aim, l1, l2) * FINE).plus(
                projection_onto_plane(up, aim).times(swell(aim, up, l1, l2)),
            );
            let back = aim.times((2 * aim.norm_sq() - along(aim, l1, l2)) * FINE).plus(
                projection_onto_plane(up, aim).times(-swell(aim, up, l1, l2)),
            );
            &&& v.norm_sq() <= (den * l1) * (den * l1)
            &&& v.norm_sq() >= (den * den) * (l1 * l1 - l1)
            &&& back.norm_sq() <= (den * l2) * (den * l2)
            &&& back.norm_sq() >= (den * den) * (l2 * l2 - l2)
            &&& back == aim.times(den).minus(v)
        }),
{
    let d = aim.norm_sq();
    let f = FINE as int;
    let p = projection_onto_plane(up, aim);
    let q = spread(aim, up);
    let c = circle(aim, l1, l2);
    let a = along(aim, l1, l2);
    let b = 2 * d - a;
    let s = swell(aim, up, l1, l2);
    let den = 2 * (d * f);
    let v = aim.times(a * f).plus(p.times(s));
    let back = aim.times(b * f).plus(p.times(-s));
    lemma_projection(up, aim);
    lemma_norm_sq_sign(aim);
    lemma_norm_sq_sign(up);
    if d == 0 {
        assert(d * up.norm_sq() == 0) by (nonlinear_arith)
            requires
                d == 0,
        ;
        assert(up.dot(aim) * up.dot(aim) >= 0) by (nonlinear_arith);
        assert(false);
    }
    lemma_circle(aim, l1, l2);
    // the pole is short enough
    let k = up.dot(aim);
    assert(k * k >= 0) by (nonlinear_arith);
    assert(4 * q <= d * (f * f)) by (nonlinear_arith)
        requires
            q <= d * up.norm_sq(),
            4 * up.norm_sq() <= f * f,
            0 < d,
    ;
    lemma_combination(aim, p, a * f, s, d, q);
    lemma_combination(aim, p, b * f, -s, d, q);
    assert((a * f) * (a * f) == (f * f) * (a * a)) by (nonlinear_arith);
    assert((b * f) * (b * f) == (f * f) * (b * b)) by (nonlinear_arith);
    assert((-s) * (-s) == s * s) by (nonlinear_arith);
    lemma_bent_scalars(d, f, q, c, a, l1, s, v.norm_sq());
    lemma_bent_scalars(d, f, q, c, b, l2, s, back.norm_sq());
    // back is what is left of the way to the target
    assert(back == aim.times(den).minus(v)) by {
        lemma_back_coordinate(aim.x, p.x, a, b, d, f, s);
        lemma_back_coordinate(aim.y, p.y, a, b, d, f, s);
        lemma_back_coordinate(aim.z, p.z, a, b, d, f, s);
    }
}

proof fn lemma_back_coordinate(n: int, p: int, a: int, b: int, d: int, f: int, s: int)
    requires
        b == 2 * d - a,
    ensures
        n * (b * f) + p * (-s) == n * (2 * (d * f)) - (n * (a * f) + p * s),
{
    assert(n * (b * f) == n * (2 * (d * f)) - n * (a * f)) by (nonlinear_arith)
        requires
            b == 2 * d - a,
    ;
    assert(p * (-s) == -(p * s)) by (nonlinear_arith);
}

/// A bent limb bends towards the pole. The vector that places the middle
/// joint, before it is divided, has a dot product with the projected pole
/// that is not negative: it is [`swell`] times the squared length of the
/// projection. The middle joint itself is that vector divided by twice the
/// squared distance to the target times [`FINE`], every coordinate rounded
/// down.
pub proof fn lemma_bend_side(aim: V3, up: V3, l1: int, l2: int)
    requires
        1 <= l1,
        1 <= l2,
        spread(aim, up) != 0,
        bends(aim.norm_sq(), l1, l2),
    ensures
        ({
            let p = projection_onto_plane(up, aim);
            let v = aim.times(along(aim, l1, l2) * FINE).plus(p.times(swell(aim, up, l1, l2)));
            &&& v.dot(p) == swell(aim, up, l1, l2) * p.norm_sq()
            &&& v.dot(p) >= 0
            &&& p.dot(aim) == 0
            &&& bent_knee(aim, up, l1, l2) == v.over(2 * (aim.norm_sq() * FINE))
        }),
{
    let p = projection_onto_plane(up, aim);
    let a = along(aim, l1, l2) * FINE;
    let s = swell(aim, up, l1, l2);
    let v = aim.times(a).plus(p.times(s));
    lemma_projection(up, aim);
    lemma_norm_sq_sign(p);
    lemma_norm_sq_sign(aim);
    lemma_dot_linear(aim, a, p, s, p);
    lemma_dot_symmetric(aim, p);
    assert(a * 0 == 0) by (nonlinear_arith);
    lemma_circle(aim, l1, l2);
    let q = spread(aim, up);
    let cf = circle(aim, l1, l2) * (FINE * FINE);
    assert(0 <= cf) by (nonlinear_arith)
        requires
            0 <= circle(aim, l1, l2),
            cf == circle(aim, l1, l2) * (FINE * FINE),
            FINE == 4096,
    ;
    lemma_div_floor(cf, q);
    assert(0 <= cf / q) by (nonlinear_arith)
        requires
            0 < q,
            0 <= cf,
            cf < (cf / q) * q + q,
    ;
    lemma_sqrt_floor(cf / q);
    assert(s * p.norm_sq() >= 0) by (nonlinear_arith)
        requires
            0 <= s,
            0 <= p.norm_sq(),
    ;
}

/// What is left when every coordinate of `v` is divided by `den`.
pub open spec fn remainder(v: V3, den: int) -> V3 {
    V3 { x: v.x % den, y: v.y % den, z: v.z % den }
}

/// A vector is its quotient by `den`, multiplied by `den`, and the
/// remainder, which is below `den` in every coordinate.
pub proof fn lemma_quotient(v: V3, den: int)
    requires
        0 < den,
    ensures
        v == v.over(den).times(den).plus(remainder(v, den)),
        remainder(v, den).within(den - 1),
        V3::zero().minus(remainder(v, den)).within(den - 1),
{
    lemma_div_floor(v.x, den);
    lemma_div_floor(v.y, den);
    lemma_div_floor(v.z, den);
}

/// The solver keeps the lengths of the bones. Where it answers, the middle
/// joint is nearly `l1` away from the root and nearly `l2` away from the end
/// of the limb. The end is at the target where the limb can reach it by
/// bending; otherwise it is nearly `l1 + l2` away from the root. Nearly
/// means up to [`SLACK`] steps.
pub proof fn lemma_bones_keep_length(aim: V3, up: V3, l1: int, l2: int)
    requires
        1 <= l1,
        1 <= l2,
        4 * up.norm_sq() <= FINE * FINE,
        knee_offset(aim, up, l1, l2) is Some,
    ensures
        tip_offset(aim, up, l1, l2) is Some,
        near_length(knee_offset(aim, up, l1, l2)->0.norm_sq(), l1),
        near_length(tip_offset(aim, up, l1, l2)->0.minus(knee_offset(aim, up, l1, l2)->0).norm_sq(), l2),
        bends(aim.norm_sq(), l1, l2) ==> tip_offset(aim, up, l1, l2)->0 == aim,
        !bends(aim.norm_sq(), l1, l2) ==> near_length(
            tip_offset(aim, up, l1, l2)->0.norm_sq(),
            l1 + l2,
        ),
{
    let knee = knee_offset(aim, up, l1, l2)->0;
    let tip = tip_offset(aim, up, l1, l2)->0;
    let d = aim.norm_sq();
    if bends(d, l1, l2) {
        lemma_bent(aim, up, l1, l2);
        let den = 2 * (d * FINE);
        let v = aim.times(along(aim, l1, l2) * FINE).plus(
            projection_onto_plane(up, aim).times(swell(aim, up, l1, l2)),
        );
        let back = aim.times(den).minus(v);
        assert(0 < den) by (nonlinear_arith)
            requires
                0 < d,
                den == 2 * (d * FINE),
                FINE == 4096,
        ;
        lemma_quotient(v, den);
        let rem = remainder(v, den);
        assert(0 <= den * l1 <= den * (l1 + 1) && 0 <= den * l2 <= den * (l2 + 1)) by (nonlinear_arith)
            requires
                0 < den,
                1 <= l1,
                1 <= l2,
        ;
        lemma_square_monotone(den * l1, den * (l1 + 1));
        lemma_square_monotone(den * l2, den * (l2 + 1));
        lemma_near_after_division(v, knee, rem, den, l1);
        let w = aim.minus(knee);
        let neg = V3::zero().minus(rem);
        assert(back == w.times(den).plus(neg)) by {
            lemma_shortfall(aim.x, knee.x, rem.x, den);
            lemma_shortfall(aim.y, knee.y, rem.y, den);
            lemma_shortfall(aim.z, knee.z, rem.z, den);
        }
        lemma_near_after_division(back, w, neg, den, l2);
    } else {
        lemma_projection(up, aim);
        lemma_norm_sq_sign(aim);
        if aim == V3::zero() {
            assert(d * up.norm_sq() == 0) by (nonlinear_arith)
                requires
                    d == 0,
            ;
            assert(up.dot(aim) * up.dot(aim) >= 0) by (nonlinear_arith);
            assert(false);
        }
        let big = l1 + l2;
        let dl = stretch(aim, l1, l2);
        lemma_stretched(aim, l1, l2, l1);
        lemma_stretched(aim, l1, l2, l2);
        lemma_stretched(aim, l1, l2, big);
        let vk = aim.times(l1 * big);
        let vt = aim.times(big * big);
        let vb = aim.times(l2 * big);
        lemma_quotient(vk, dl);
        lemma_quotient(vt, dl);
        lemma_near_after_division(vk, knee, remainder(vk, dl), dl, l1);
        lemma_near_after_division(vt, tip, remainder(vt, dl), dl, big);
        let w = tip.minus(knee);
        let rem = remainder(vt, dl).minus(remainder(vk, dl));
        assert(vb == w.times(dl).plus(rem)) by {
            lemma_difference(aim.x, l1, l2, tip.x, knee.x, remainder(vt, dl).x, remainder(vk, dl).x, dl);
            lemma_difference(aim.y, l1, l2, tip.y, knee.y, remainder(vt, dl).y, remainder(vk, dl).y, dl);
            lemma_difference(aim.z, l1, l2, tip.z, knee.z, remainder(vt, dl).z, remainder(vk, dl).z, dl);
        }
        lemma_near_after_division(vb, w, rem, dl, l2);
    }
}

/// The joints that the solver gives are no farther from the root, in any
/// coordinate, than the bones allow.
pub proof fn lemma_joints_bounded(aim: V3, up: V3, l1: int, l2: int)
    requires
        1 <= l1,
        1 <= l2,
        4 * up.norm_sq() <= FINE * FINE,
        knee_offset(aim, up, l1, l2) is Some,
    ensures
        knee_offset(aim, up, l1, l2)->0.within(l1),
        !bends(aim.norm_sq(), l1, l2) ==> tip_offset(aim, up, l1, l2)->0.within(l1 + l2),
{
    let d = aim.norm_sq();
    if bends(d, l1, l2) {
        lemma_bent(aim, up, l1, l2);
        let den = 2 * (d * FINE);
        let v = aim.times(along(aim, l1, l2) * FINE).plus(
            projection_onto_plane(up, aim).times(swell(aim, up, l1, l2)),
        );
        assert(0 < den) by (nonlinear_arith)
            requires
                0 < d,
                den == 2 * (d * FINE),
                FINE == 4096,
        ;
        assert(0 <= den * l1) by (nonlinear_arith)
            requires
                0 < den,
                1 <= l1,
        ;
        assert((den * l1 + 1) * (den * l1 + 1) > (den * l1) * (den * l1)) by (nonlinear_arith)
            requires
                0 <= den * l1,
        ;
        assert(v.x * v.x >= 0 && v.y * v.y >= 0 && v.z * v.z >= 0) by (nonlinear_arith);
        lemma_square_root_bound(v.x, den * l1);
        lemma_square_root_bound(v.y, den * l1);
        lemma_square_root_bound(v.z, den * l1);
        assert(den * l1 == l1 * den && -(den * l1) == (-l1) * den) by (nonlinear_arith);
        lemma_div_between(v.x, den, -l1, l1);
        lemma_div_between(v.y, den, -l1, l1);
        lemma_div_between(v.z, den, -l1, l1);
    } else {
        lemma_projection(up, aim);
        lemma_norm_sq_sign(aim);
        if aim == V3::zero() {
            assert(d * up.norm_sq() == 0) by (nonlinear_arith)
                requires
                    d == 0,
            ;
            assert(up.dot(aim) * up.dot(aim) >= 0) by (nonlinear_arith);
            assert(false);
        }
        let big = l1 + l2;
        let dl = stretch(aim, l1, l2);
        lemma_stretched(aim, l1, l2, l1);
        lemma_stretched(aim, l1, l2, big);
        let vk = aim.times(l1 * big);
        let vt = aim.times(big * big);
        assert(dl * l1 == l1 * dl && -(dl * l1) == (-l1) * dl && dl * big == big * dl && -(dl * big)
            == (-big) * dl) by (nonlinear_arith);
        lemma_div_between(vk.x, dl, -l1, l1);
        lemma_div_between(vk.y, dl, -l1, l1);
        lemma_div_between(vk.z, dl, -l1, l1);
        lemma_div_between(vt.x, dl, -big, big);
        lemma_div_between(vt.y, dl, -big, big);
        lemma_div_between(vt.z, dl, -big, big);
    }
}

/// What the solver hands out. Every pose it gives holds the joints that
/// [`knee_position`] and [`tip_position`] describe; in it the middle joint
/// is nearly `l1` away from the root and nearly `l2` away from the end of
/// the limb, and the end is at the target where the limb can reach it by
/// bending and nearly `l1 + l2` away from the root where it cannot.
pub proof fn lemma_solved_pose(root: Vector3, target: Vector3, up: Vector3, l1: i64, l2: i64)
    requires
        solved_pose(root, target, up, l1, l2) is Some,
    ensures
        ({
            let pose = solved_pose(root, target, up, l1, l2)->0;
            &&& pose.knee@ == knee_position(root@, target@, up@, l1 as int, l2 as int)->0
            &&& pose.tip@ == tip_position(root@, target@, up@, l1 as int, l2 as int)->0
            &&& near_length(pose.knee@.dist_sq(root@), l1 as int)
            &&& near_length(pose.tip@.dist_sq(pose.knee@), l2 as int)
            &&& bends(target@.dist_sq(root@), l1 as int, l2 as int) ==> pose.tip == target
            &&& !bends(target@.dist_sq(root@), l1 as int, l2 as int) ==> near_length(
                pose.tip@.dist_sq(root@),
                l1 + l2,
            )
        }),
{
    let aim = target@.minus(root@);
    lemma_dot_bound(up@, up@, DIR_MAX as int, DIR_MAX as int);
    assert(4 * (3 * (DIR_MAX * DIR_MAX)) <= FINE * FINE) by (nonlinear_arith)
        requires
            DIR_MAX == 1024,
            FINE == 4096,
    ;
    lemma_joints_bounded(aim, up@, l1 as int, l2 as int);
    lemma_pose_keeps_lengths(root@, target@, up@, l1 as int, l2 as int);
    assert(root@.plus(aim) == target@);
}

/// The solved limb in the world. Where the solver answers, the middle joint
/// is nearly `l1` away from the root and nearly `l2` away from the end of
/// the limb; the end is at the target where the limb can reach it by
/// bending, and nearly `l1 + l2` away from the root otherwise.
pub proof fn lemma_pose_keeps_lengths(root: V3, target: V3, up: V3, l1: int, l2: int)
    requires
        1 <= l1,
        1 <= l2,
        4 * up.norm_sq() <= FINE * FINE,
        knee_position(root, target, up, l1, l2) is Some,
    ensures
        tip_position(root, target, up, l1, l2) is Some,
        near_length(knee_position(root, target, up, l1, l2)->0.dist_sq(root), l1),
        near_length(
            tip_position(root, target, up, l1, l2)->0.dist_sq(
                knee_position(root, target, up, l1, l2)->0,
            ),
            l2,
        ),
        bends(target.dist_sq(root), l1, l2) ==> tip_position(root, target, up, l1, l2)->0 == target,
        !bends(target.dist_sq(root), l1, l2) ==> near_length(
            tip_position(root, target, up, l1, l2)->0.dist_sq(root),
            l1 + l2,
        ),
{
    let aim = target.minus(root);
    lemma_bones_keep_length(aim, up, l1, l2);
    let knee = knee_offset(aim, up, l1, l2)->0;
    let tip = tip_offset(aim, up, l1, l2)->0;
    assert(root.plus(knee).minus(root) == knee);
    assert(root.plus(tip).minus(root) == tip);
    assert(root.plus(tip).minus(root.plus(knee)) == tip.minus(knee));
    assert(root.plus(aim) == target);
}

/// The solver has no answer for a target at the root: no line leads to it,
/// so the pole cannot stand off it.
pub proof fn lemma_target_at_root(root: V3, up: V3, l1: int, l2: int)
    ensures
        knee_position(root, root, up, l1, l2) is None,
        tip_position(root, root, up, l1, l2) is None,
{
    let aim = root.minus(root);
    assert(aim == V3::zero());
    lemma_projection(up, aim);
    assert(aim.norm_sq() * up.norm_sq() == 0) by (nonlinear_arith)
        requires
            aim.norm_sq() == 0,
    ;
    assert(up.dot(aim) == 0) by (nonlinear_arith)
        requires
            up.dot(aim) == up.x * aim.x + up.y * aim.y + up.z * aim.z,
            aim.x == 0,
            aim.y == 0,
            aim.z == 0,
    ;
}

/// A limb whose target is at its root gets no pose, and so keeps the one it
/// had.
pub proof fn lemma_no_pose_at_root(root: Vector3, up: Vector3, l1: i64, l2: i64)
    ensures
        solved_pose(root, root, up, l1, l2) is None,
        solved_knee(root, root, up, l1, l2) is None,
{
    lemma_target_at_root(root@, up@, l1 as int, l2 as int);
}

/// The solver keeps no state: the pose is a function of root, target,
/// pole and bones, so the same arguments get the same pose every time.
pub proof fn lemma_same_arguments_same_pose(
    root: Vector3,
    target: Vector3,
    up: Vector3,
    l1: i64,
    l2: i64,
    again_root: Vector3,
    again_target: Vector3,
    again_up: Vector3,
    again_l1: i64,
    again_l2: i64,
)
    requires
        root == again_root,
        target == again_target,
        up == again_up,
        l1 == again_l1,
        l2 == again_l2,
    ensures
        solved_pose(root, target, up, l1, l2) == solved_pose(
            again_root,
            again_target,
            again_up,
            again_l1,
            again_l2,
        ),
{
}

/// The solver has no answer where the pole points along the line from
/// root to target, in either sense.
pub proof fn lemma_pole_along_aim(aim: V3, a: int, b: int, l1: int, l2: int)
    ensures
        knee_offset(aim.times(a), aim.times(b), l1, l2) is None,
{
    let n = aim.times(a);
    let u = aim.times(b);
    let p = projection_onto_plane(u, n);
    lemma_projection(u, n);
    let d = aim.norm_sq();
    assert(n.norm_sq() == (a * a) * d) by {
        assert((aim.x * a) * (aim.x * a) == (a * a) * (aim.x * aim.x)) by (nonlinear_arith);
        assert((aim.y * a) * (aim.y * a) == (a * a) * (aim.y * aim.y)) by (nonlinear_arith);
        assert((aim.z * a) * (aim.z * a) == (a * a) * (aim.z * aim.z)) by (nonlinear_arith);
        assert((a * a) * d == (a * a) * (aim.x * aim.x) + (a * a) * (aim.y * aim.y) + (a * a) * (
        aim.z * aim.z)) by (nonlinear_arith)
            requires
                d == aim.x * aim.x + aim.y * aim.y + aim.z * aim.z,
        ;
    }
    assert(u.norm_sq() == (b * b) * d) by {
        assert((aim.x * b) * (aim.x * b) == (b * b) * (aim.x * aim.x)) by (nonlinear_arith);
        assert((aim.y * b) * (aim.y * b) == (b * b) * (aim.y * aim.y)) by (nonlinear_arith);
        assert((aim.z * b) * (aim.z * b) == (b * b) * (aim.z * aim.z)) by (nonlinear_arith);
        assert((b * b) * d == (b * b) * (aim.x * aim.x) + (b * b) * (aim.y * aim.y) + (b * b) * (
        aim.z * aim.z)) by (nonlinear_arith)
            requires
                d == aim.x * aim.x + aim.y * aim.y + aim.z * aim.z,
        ;
    }
    assert(u.dot(n) == (a * b) * d) by {
        assert((aim.x * b) * (aim.x * a) == (a * b) * (aim.x * aim.x)) by (nonlinear_arith);
        assert((aim.y * b) * (aim.y * a) == (a * b) * (aim.y * aim.y)) by (nonlinear_arith);
        assert((aim.z * b) * (aim.z * a) == (a * b) * (aim.z * aim.z)) by (nonlinear_arith);
        assert((a * b) * d == (a * b) * (aim.x * aim.x) + (a * b) * (aim.y * aim.y) + (a * b) * (
        aim.z * aim.z)) by (nonlinear_arith)
            requires
                d == aim.x * aim.x + aim.y * aim.y + aim.z * aim.z,
        ;
    }
    assert(((a * a) * d) * ((b * b) * d) == ((a * b) * d) * ((a * b) * d)) by (nonlinear_arith);
}

proof fn lemma_shortfall(n: int, k: int, r: int, den: int)
    ensures
        n * den - (k * den + r) == (n - k) * den + (0 - r),
{
    assert(n * den - k * den == (n - k) * den) by (nonlinear_arith);
}

proof fn lemma_difference(n: int, l1: int, l2: int, t: int, k: int, rt: int, rk: int, dl: int)
    requires
        n * ((l1 + l2) * (l1 + l2)) == t * dl + rt,
        n * (l1 * (l1 + l2)) == k * dl + rk,
    ensures
        n * (l2 * (l1 + l2)) == (t - k) * dl + (rt - rk),
{
    assert(n * ((l1 + l2) * (l1 + l2)) - n * (l1 * (l1 + l2)) == n * (l2 * (l1 + l2)))
        by (nonlinear_arith);
    assert(t * dl - k * dl == (t - k) * dl) by (nonlinear_arith);
}

} // verus!
