//! The stepping state of a single limb.
//!
//! Times are measured in thousandths of a second.

use crate::arith::{div_floor, lemma_div_between};
use crate::ik_arm::IKArm;
use crate::vec3::{lemma_product_bound, Vector3, COORD_MAX, DIR_MAX, UNIT, V3};
use vstd::prelude::*;

verus! {

/// Which of the two alternating groups a limb belongs to, or which group is
/// currently allowed to lift its feet.
#[derive(Copy, Clone, PartialEq, Eq, Structural, Debug)]
pub enum LegSide {
    Left,
    Right,
    /// Neither group.
    Neither,
}

impl Default for LegSide {
    /// A limb belongs to neither group until it is given one.
    fn default() -> (r: LegSide)
        ensures
            r == LegSide::Neither,
    {
        LegSide::Neither
    }
}

impl LegSide {
    /// The group that takes over when the active group has finished: `Left`
    /// hands over to `Right`, everything else hands over to `Left`.
    pub open spec fn successor(self) -> LegSide {
        if self == LegSide::Left {
            LegSide::Right
        } else {
            LegSide::Left
        }
    }

    /// Computes [`LegSide::successor`].
    pub fn next(self) -> (r: LegSide)
        ensures
            r == self.successor(),
    {
        match self {
            LegSide::Left => LegSide::Right,
            _ => LegSide::Left,
        }
    }
}

/// A squared distance exceeds the square of a step threshold. Every distance
/// exceeds a negative threshold.
pub open spec fn beyond_threshold(dist_sq: int, threshold: int) -> bool {
    threshold < 0 || dist_sq > threshold * threshold
}

/// Twice the time to the nearer end of a step: the tent profile `1 - |2p - 1|`
/// of the progress `p = elapsed / duration`, multiplied by `duration`.
pub open spec fn tent(elapsed: int, duration: int) -> int {
    if 2 * elapsed <= duration {
        2 * elapsed
    } else {
        2 * (duration - elapsed)
    }
}

/// How far a foot is lifted `elapsed` into a step: nothing at either end,
/// `height` half-way, linear in between.
pub open spec fn lift(height: int, elapsed: int, duration: int) -> int {
    height * tent(elapsed, duration) / duration
}

/// Where a foot is `elapsed` into a step from `start` to `foothold`: on the
/// straight line between them, raised by [`lift`] along `up`.
pub open spec fn swing_position(
    start: V3,
    foothold: V3,
    up: V3,
    height: int,
    elapsed: int,
    duration: int,
) -> V3 {
    start.lerp(foothold, elapsed, duration).plus(
        up.times(lift(height, elapsed, duration)).over(UNIT as int),
    )
}

/// The shape of the lift over a step: nothing at the start, the full height
/// half-way, the same on the way down as on the way up, and never beyond
/// the height.
pub proof fn lemma_lift_profile(height: int, elapsed: int, duration: int)
    requires
        0 <= elapsed <= duration,
        0 < duration,
    ensures
        lift(height, 0, duration) == 0,
        lift(height, duration, duration) == 0,
        2 * elapsed == duration ==> lift(height, elapsed, duration) == height,
        lift(height, elapsed, duration) == lift(height, duration - elapsed, duration),
        0 <= height ==> 0 <= lift(height, elapsed, duration) <= height,
        height <= 0 ==> height <= lift(height, elapsed, duration) <= 0,
{
    let t = tent(elapsed, duration);
    assert(height * 0 == 0) by (nonlinear_arith);
    lemma_div_between(0, duration, 0, 0);
    assert(0 <= t <= duration);
    if height >= 0 {
        assert(0 <= height * t <= height * duration) by (nonlinear_arith)
            requires
                0 <= height,
                0 <= t <= duration,
        ;
        lemma_div_between(height * t, duration, 0, height);
    } else {
        assert(height * duration <= height * t <= 0) by (nonlinear_arith)
            requires
                height < 0,
                0 <= t <= duration,
        ;
        lemma_div_between(height * t, duration, height, 0);
    }
    if 2 * elapsed == duration {
        lemma_div_between(height * duration, duration, height, height);
    }
}

/// On the way up the lift is the height times twice the elapsed share of
/// the step, on the way down the height times twice the share that is left:
/// two straight pieces.
pub proof fn lemma_lift_pieces(height: int, elapsed: int, duration: int)
    ensures
        2 * elapsed <= duration ==> lift(height, elapsed, duration) == (height * (2 * elapsed))
            / duration,
        2 * elapsed > duration ==> lift(height, elapsed, duration) == (height * (2 * (duration
            - elapsed))) / duration,
{
}

/// Stepping configuration and state of one limb.
#[derive(Copy, Clone, PartialEq, Eq, Structural, Debug)]
pub struct IKLeg {
    /// Where the foot rests, relative to the limb's place on the body.
    pub step_offset: Vector3,
    /// How far the foothold may drift from the foot before the limb steps.
    pub step_distance: i64,
    /// How long a step takes.
    pub step_duration: u64,
    /// How high the foot is lifted in the middle of a step.
    pub step_height: i64,
    pub leg_side: LegSide,
    /// Whether the scheduler lets this limb begin a step.
    pub can_start_step: bool,
    /// Where the current step began.
    pub step_start: Vector3,
    /// Whether the limb is in the middle of a step.
    pub stepping: bool,
    /// Time spent in the current step.
    pub step_elapsed: u64,
}

impl IKLeg {
    /// The place where the current step began is a supported position.
    pub open spec fn wf(self) -> bool {
        self.step_start.in_range()
    }

    /// Tells whether the limb is well-formed.
    pub fn is_wf(&self) -> (b: bool)
        ensures
            b == self.wf(),
    {
        self.step_start.is_in_range()
    }

    /// A limb at rest.
    pub fn new(
        step_offset: Vector3,
        step_distance: i64,
        step_duration: u64,
        step_height: i64,
        leg_side: LegSide,
        can_start_step: bool,
    ) -> (r: IKLeg)
        ensures
            r.step_offset == step_offset,
            r.step_distance == step_distance,
            r.step_duration == step_duration,
            r.step_height == step_height,
            r.leg_side == leg_side,
            r.can_start_step == can_start_step,
            !r.stepping,
            r.step_start@ == V3::zero(),
            r.step_elapsed == 0,
            r.wf(),
    {
        IKLeg {
            step_offset,
            step_distance,
            step_duration,
            step_height,
            leg_side,
            can_start_step,
            step_start: Vector3 { x: 0, y: 0, z: 0 },
            stepping: false,
            step_elapsed: 0,
        }
    }

    /// The limb begins a step on this update: it is at rest, it is allowed
    /// to step, and the foothold has drifted beyond the threshold.
    pub open spec fn starts_step(self, target: V3, foothold: V3) -> bool {
        &&& !self.stepping
        &&& self.can_start_step
        &&& beyond_threshold(target.dist_sq(foothold), self.step_distance as int)
    }

    /// The step in progress is over after `dt` more time.
    pub open spec fn finishes_step(self, dt: u64) -> bool {
        self.stepping && self.step_elapsed + dt >= self.step_duration
    }

    /// Where the foot of a limb whose step goes on is after `dt` more time.
    pub open spec fn swing_after(self, foothold: V3, up: V3, dt: u64) -> V3 {
        swing_position(
            self.step_start@,
            foothold,
            up,
            self.step_height as int,
            self.step_elapsed + dt,
            self.step_duration as int,
        )
    }

    /// The limb, its target, the foothold and the up direction are all in
    /// the supported ranges.
    pub open spec fn supported(self, arm: IKArm, foothold: Vector3, up: Vector3) -> bool {
        self.wf() && arm.target.in_range() && foothold.in_range() && up.is_direction()
    }

    /// The limb and its target after one update towards `foothold`, the place
    /// where its foot should stand, `dt` after the previous update.
    ///
    /// A limb at rest begins a step when [`IKLeg::starts_step`] holds, and
    /// leaves its target alone. A limb in mid-step first lets `dt` pass. If
    /// the step is over, the target becomes the foothold and the limb is at
    /// rest again. Otherwise the target moves to the swing position; a swing
    /// position outside the supported range is discarded and the target
    /// stays where it was. Nothing changes where anything is outside the
    /// supported ranges to begin with.
    pub open spec fn advanced(self, arm: IKArm, foothold: Vector3, up: Vector3, dt: u64) -> (
        IKLeg,
        IKArm,
    ) {
        if !self.supported(arm, foothold, up) {
            (self, arm)
        } else if self.starts_step(arm.target@, foothold@) {
            (IKLeg { stepping: true, step_start: arm.target, step_elapsed: 0, ..self }, arm)
        } else if !self.stepping {
            (self, arm)
        } else if self.finishes_step(dt) {
            (
                IKLeg { stepping: false, step_elapsed: self.step_duration, ..self },
                IKArm { target: foothold, ..arm },
            )
        } else {
            let p = self.swing_after(foothold@, up@, dt);
            (
                IKLeg { step_elapsed: (self.step_elapsed + dt) as u64, ..self },
                if p.within(COORD_MAX as int) {
                    IKArm { target: p.narrowed(), ..arm }
                } else {
                    arm
                },
            )
        }
    }

    /// The course of a step. While the step goes on, the target is on the
    /// line from the start of the step to the foothold, as far along as the
    /// elapsed share of the step's duration, raised by the lift along `up`;
    /// only a position outside the supported range is not taken up. Once the
    /// duration has elapsed the target is the foothold itself and the limb
    /// is at rest.
    pub proof fn lemma_step_course(self, arm: IKArm, foothold: Vector3, up: Vector3, dt: u64)
        requires
            self.stepping,
            self.supported(arm, foothold, up),
        ensures
            self.step_elapsed + dt >= self.step_duration ==> {
                &&& !self.advanced(arm, foothold, up, dt).0.stepping
                &&& self.advanced(arm, foothold, up, dt).1.target == foothold
            },
            self.step_elapsed + dt < self.step_duration ==> {
                let now = self.step_elapsed + dt;
                let place = self.step_start@.lerp(foothold@, now, self.step_duration as int).plus(
                    up@.times(lift(self.step_height as int, now, self.step_duration as int)).over(
                        UNIT as int,
                    ),
                );
                &&& self.advanced(arm, foothold, up, dt).0.stepping
                &&& self.advanced(arm, foothold, up, dt).0.step_elapsed == now
                &&& self.advanced(arm, foothold, up, dt).0.step_start == self.step_start
                &&& place.within(COORD_MAX as int) ==> self.advanced(arm, foothold, up, dt).1.target@
                    == place
                &&& !place.within(COORD_MAX as int) ==> self.advanced(arm, foothold, up, dt).1.target
                    == arm.target
            },
    {
    }

    /// Time passes for a limb only while it is in the middle of a step: a
    /// limb at rest keeps its elapsed time, or begins a step at zero.
    pub proof fn lemma_rest_keeps_time(self, arm: IKArm, foothold: Vector3, up: Vector3, dt: u64)
        requires
            !self.stepping,
        ensures
            self.advanced(arm, foothold, up, dt).1 == arm,
            self.advanced(arm, foothold, up, dt).0.stepping == (self.supported(arm, foothold, up)
                && self.starts_step(arm.target@, foothold@)),
            self.advanced(arm, foothold, up, dt).0.step_elapsed == (if self.supported(
                arm,
                foothold,
                up,
            ) && self.starts_step(arm.target@, foothold@) {
                0
            } else {
                self.step_elapsed
            }),
    {
    }

    /// An update keeps a supported limb and its target in the supported
    /// ranges.
    pub proof fn lemma_advanced_supported(self, arm: IKArm, foothold: Vector3, up: Vector3, dt: u64)
        requires
            self.wf(),
            arm.wf(),
        ensures
            self.advanced(arm, foothold, up, dt).0.wf(),
            self.advanced(arm, foothold, up, dt).1.wf(),
    {
    }

    /// Performs one update: [`IKLeg::advanced`].
    pub fn advance(&mut self, arm: &mut IKArm, foothold: Vector3, up: Vector3, dt: u64)
        ensures
            (*final(self), *final(arm)) == old(self).advanced(*old(arm), foothold, up, dt),
    {
        if !self.is_wf() || !arm.target.is_in_range() || !foothold.is_in_range()
            || !up.is_in_direction_range() {
            return ;
        }
        if !self.stepping {
            if self.can_start_step && exceeds(&arm.target, &foothold, self.step_distance) {
                self.stepping = true;
                self.step_elapsed = 0;
                self.step_start = arm.target;
            }
        } else if self.step_elapsed >= self.step_duration || dt >= self.step_duration
            - self.step_elapsed {
            self.step_elapsed = self.step_duration;
            self.stepping = false;
            arm.target = foothold;
        } else {
            self.step_elapsed = self.step_elapsed + dt;
            match swing(
                &self.step_start,
                &foothold,
                &up,
                self.step_height,
                self.step_elapsed,
                self.step_duration,
            ) {
                Some(p) => {
                    arm.target = p;
                },
                None => {},
            }
        }
    }
}

/// Tells whether the distance between two supported positions exceeds a
/// threshold.
pub fn exceeds(a: &Vector3, b: &Vector3, threshold: i64) -> (r: bool)
    requires
        a.in_range(),
        b.in_range(),
    ensures
        r == beyond_threshold(a@.dist_sq(b@), threshold as int),
{
    if threshold < 0 {
        return true;
    }
    proof {
        lemma_product_bound(threshold as int, threshold as int, i64::MAX as int, i64::MAX as int);
        assert(i64::MAX * i64::MAX <= u128::MAX) by (nonlinear_arith);
    }
    let d: u128 = a.dist_sq(b);
    let t: u128 = (threshold as u128) * (threshold as u128);
    d > t
}

/// Computes [`tent`] for a time within the step.
fn tent_of(elapsed: u64, duration: u64) -> (r: u64)
    requires
        elapsed < duration,
    ensures
        r == tent(elapsed as int, duration as int),
        r <= duration,
{
    if elapsed <= duration - elapsed {
        2 * elapsed
    } else {
        2 * (duration - elapsed)
    }
}

/// Computes [`lift`] for a time within the step.
fn lift_of(height: i64, elapsed: u64, duration: u64) -> (r: i64)
    requires
        elapsed < duration,
    ensures
        r == lift(height as int, elapsed as int, duration as int),
{
    let t: u64 = tent_of(elapsed, duration);
    proof {
        let m = 0x8000_0000_0000_0000int;
        lemma_product_bound(height as int, t as int, m, u64::MAX as int);
        assert(m * u64::MAX <= i128::MAX) by (nonlinear_arith)
            requires
                m == 0x8000_0000_0000_0000int,
        ;
        if height >= 0 {
            assert(0 <= height * t <= height * duration) by (nonlinear_arith)
                requires
                    0 <= height,
                    0 <= t <= duration,
            ;
            lemma_div_between(height * t, duration as int, 0, height as int);
        } else {
            assert(height * duration <= height * t <= 0) by (nonlinear_arith)
                requires
                    height < 0,
                    0 <= t <= duration,
            ;
            lemma_div_between(height * t, duration as int, height as int, 0);
        }
    }
    let q: i128 = div_floor((height as i128) * (t as i128), duration as i128);
    q as i64
}

/// One coordinate of [`swing_position`].
fn swing_coordinate(start: i64, foothold: i64, up: i64, lifted: i64, elapsed: u64, duration: u64) -> (r: i128)
    requires
        elapsed < duration,
        -COORD_MAX <= start <= COORD_MAX,
        -COORD_MAX <= foothold <= COORD_MAX,
        -DIR_MAX <= up <= DIR_MAX,
    ensures
        r == start + ((foothold - start) * elapsed) / (duration as int) + (up * lifted) / (
        UNIT as int),
{
    let span: i128 = foothold as i128 - start as i128;
    proof {
        let m = 0x8000_0000_0000_0000int;
        lemma_product_bound(span as int, elapsed as int, 2 * COORD_MAX, u64::MAX as int);
        lemma_product_bound(up as int, lifted as int, DIR_MAX as int, m);
        if span >= 0 {
            assert(0 <= span * elapsed <= span * duration) by (nonlinear_arith)
                requires
                    0 <= span,
                    0 <= elapsed < duration,
            ;
            lemma_div_between(span * elapsed, duration as int, 0, span as int);
        } else {
            assert(span * duration <= span * elapsed <= 0) by (nonlinear_arith)
                requires
                    span < 0,
                    0 <= elapsed < duration,
            ;
            lemma_div_between(span * elapsed, duration as int, span as int, 0);
        }
        lemma_div_between(up * lifted, UNIT as int, -(DIR_MAX * m), DIR_MAX * m);
    }
    let along: i128 = div_floor(span * (elapsed as i128), duration as i128);
    let raised: i128 = div_floor((up as i128) * (lifted as i128), UNIT as i128);
    start as i128 + along + raised
}

/// Computes [`swing_position`] for a time within the step; `None` when the
/// position lies outside the supported range.
pub fn swing(
    start: &Vector3,
    foothold: &Vector3,
    up: &Vector3,
    height: i64,
    elapsed: u64,
    duration: u64,
) -> (r: Option<Vector3>)
    requires
        elapsed < duration,
        start.in_range(),
        foothold.in_range(),
        up.is_direction(),
    ensures
        r is Some <==> swing_position(
            start@,
            foothold@,
            up@,
            height as int,
            elapsed as int,
            duration as int,
        ).within(COORD_MAX as int),
        r is Some ==> r->0 == swing_position(
            start@,
            foothold@,
            up@,
            height as int,
            elapsed as int,
            duration as int,
        ).narrowed(),
{
    let lifted: i64 = lift_of(height, elapsed, duration);
    let x: i128 = swing_coordinate(start.x, foothold.x, up.x, lifted, elapsed, duration);
    let y: i128 = swing_coordinate(start.y, foothold.y, up.y, lifted, elapsed, duration);
    let z: i128 = swing_coordinate(start.z, foothold.z, up.z, lifted, elapsed, duration);
    Vector3::from_wide(x, y, z)
}

} // verus!
