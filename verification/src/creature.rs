//! A creature: a body, its limbs, and the scheduler that lets the two groups
//! of limbs step in turn.

use crate::arith::{div_floor, lemma_div_between};
use crate::foothold::{find_step, lemma_nearest_hit, nearest_hit};
use crate::frame::BodyFrame;
use crate::ik_arm::{handle_ik, solved_pose, IKArm, IkPose};
use crate::leg::{IKLeg, LegSide};
use crate::vec3::{lemma_product_bound, Vector3, COORD_MAX, DIR_MAX, UNIT, V3};
use vstd::prelude::*;

verus! {

/// One limb of a creature: where it is attached, how long its bones are,
/// what it reaches for and how far it is into a step.
#[derive(Copy, Clone, PartialEq, Eq, Structural, Debug)]
pub struct Limb {
    /// Where the limb is attached to the body, in the world.
    pub root: Vector3,
    /// Length of the bone at the root.
    pub bone_length_0: i64,
    /// Length of the bone at the end.
    pub bone_length_1: i64,
    pub arm: IKArm,
    pub leg: IKLeg,
}

impl Limb {
    pub open spec fn wf(self) -> bool {
        self.arm.wf() && self.leg.wf()
    }

    /// Tells whether the limb is well-formed.
    pub fn is_wf(&self) -> (b: bool)
        ensures
            b == self.wf(),
    {
        self.arm.is_wf() && self.leg.is_wf()
    }

    /// Solves the limb for its target: the pose that [`solved_pose`] gives
    /// for its root, its target, its pole and its bones.
    pub fn pose(&self) -> (r: Option<IkPose>)
        ensures
            r == solved_pose(
                self.root,
                self.arm.target,
                self.arm.up,
                self.bone_length_0,
                self.bone_length_1,
            ),
    {
        handle_ik(&self.arm, &self.root, self.bone_length_0, self.bone_length_1)
    }
}

/// Every limb of an arena is well-formed.
pub open spec fn all_wf(limbs: Seq<Limb>) -> bool {
    forall|i: int| 0 <= i < limbs.len() ==> (#[trigger] limbs[i]).wf()
}

/// Tells whether every limb of an arena is well-formed.
pub fn are_all_wf(limbs: &Vec<Limb>) -> (b: bool)
    ensures
        b == all_wf(limbs@),
{
    let mut i: usize = 0;
    while i < limbs.len()
        invariant
            i <= limbs@.len(),
            forall|j: int| 0 <= j < i ==> (#[trigger] limbs@[j]).wf(),
        decreases limbs@.len() - i,
    {
        if !limbs[i].is_wf() {
            return false;
        }
        i = i + 1;
    }
    true
}

/// The body of a creature and the bookkeeping of its gait. Limbs live in an
/// arena shared with the caller; `legs_info` names them by their index there.
pub struct LegCreature {
    /// The group whose limbs may begin a step.
    pub current_side: LegSide,
    /// How far above the ground the body rests.
    pub target_height: i64,
    /// The body's up direction, a smoothed normal of the ground under the
    /// feet.
    pub up: Vector3,
    /// For each limb its handle and the place of its root relative to the
    /// body.
    pub legs_info: Vec<(usize, Vector3)>,
    /// Speed of the body, in thousandths.
    pub speed_mult: i64,
    /// How far ahead of their resting places the feet aim, relative to the
    /// body; zero while the body is not being steered.
    pub target_offset: Vector3,
}

impl LegCreature {
    /// A creature standing upright and still.
    pub fn new(
        current_side: LegSide,
        target_height: i64,
        legs_info: Vec<(usize, Vector3)>,
        speed_mult: i64,
    ) -> (r: LegCreature)
        ensures
            r.current_side == current_side,
            r.target_height == target_height,
            r.legs_info == legs_info,
            r.speed_mult == speed_mult,
            r.up@ == (V3 { x: 0, y: UNIT as int, z: 0 }),
            r.target_offset@ == V3::zero(),
    {
        LegCreature {
            current_side,
            target_height,
            up: Vector3 { x: 0, y: UNIT, z: 0 },
            legs_info,
            speed_mult,
            target_offset: Vector3 { x: 0, y: 0, z: 0 },
        }
    }

    /// The `k`-th entry of `legs_info` names a limb of the arena that is in
    /// the middle of a step and belongs to `side`.
    pub open spec fn steps_at(self, limbs: Seq<Limb>, k: int, side: LegSide) -> bool {
        let h = self.legs_info@[k].0 as int;
        &&& 0 <= k < self.legs_info@.len()
        &&& h < limbs.len()
        &&& limbs[h].leg.stepping
        &&& limbs[h].leg.leg_side == side
    }

    /// Some limb of the group `side` is in the middle of a step.
    pub open spec fn side_moving(self, limbs: Seq<Limb>, side: LegSide) -> bool {
        exists|k: int| self.steps_at(limbs, k, side)
    }

    /// Some limb of the left or of the right group is in the middle of a
    /// step.
    pub open spec fn any_stepping(self, limbs: Seq<Limb>) -> bool {
        self.side_moving(limbs, LegSide::Left) || self.side_moving(limbs, LegSide::Right)
    }

    /// The active group after the scheduler has run: the other group when no
    /// limb of either group is in mid-step, the same group otherwise.
    pub open spec fn next_side(self, limbs: Seq<Limb>) -> LegSide {
        if self.any_stepping(limbs) {
            self.current_side
        } else {
            self.current_side.successor()
        }
    }

    /// A limb of the group `side` may begin a step: its group is the active
    /// one. A limb of neither group never may.
    pub open spec fn permits(self, side: LegSide) -> bool {
        side == self.current_side && side != LegSide::Neither
    }

    /// A limb after the scheduler has visited it through an entry of
    /// `legs_info` with the offset `offset`: its root is where the body
    /// carries it, unless the body's frame has no supported place for it,
    /// and it may step if its group is active.
    pub open spec fn placed(self, frame: BodyFrame, limb: Limb, offset: Vector3) -> Limb {
        Limb {
            root: match frame.carried(offset@) {
                Some(at) => at,
                None => limb.root,
            },
            leg: IKLeg { can_start_step: self.permits(limb.leg.leg_side), ..limb.leg },
            ..limb
        }
    }

    /// The arena after the scheduler has visited the first `k` entries of
    /// `legs_info`. An entry whose handle names no limb is passed over.
    pub open spec fn placed_through(self, frame: BodyFrame, limbs: Seq<Limb>, k: nat) -> Seq<
        Limb,
    >
        decreases k,
    {
        if k == 0 {
            limbs
        } else {
            let before = self.placed_through(frame, limbs, (k - 1) as nat);
            let (h, offset) = self.legs_info@[k - 1];
            if h < before.len() {
                before.update(h as int, self.placed(frame, before[h as int], offset))
            } else {
                before
            }
        }
    }

    /// Where the foot of a limb should stand: the ground hit nearest to its
    /// resting place under the body, or, where there is no such place or no
    /// ray has hit the ground near it, where the foot is now.
    pub open spec fn foothold(
        self,
        frame: BodyFrame,
        limb: Limb,
        offset: Vector3,
        hits: Seq<Option<Vector3>>,
    ) -> Vector3 {
        match self.desired_position(frame, limb, offset) {
            Some(desired) => match nearest_hit(desired@, hits) {
                Some(p) => p,
                None => limb.arm.target,
            },
            None => limb.arm.target,
        }
    }

    /// The resting place of a limb's foot under the body, before the ground
    /// is consulted: where the body carries the sum of the limb's place on
    /// the body, the resting place of its foot and the creature's lead.
    /// There is none where one of the three or the body's frame is outside
    /// the supported ranges.
    pub open spec fn desired_position(self, frame: BodyFrame, limb: Limb, offset: Vector3) -> Option<
        Vector3,
    > {
        if offset.in_range() && limb.leg.step_offset.in_range() && self.target_offset.in_range() {
            frame.carried(offset@.plus(limb.leg.step_offset@).plus(self.target_offset@))
        } else {
            None
        }
    }

    /// A limb after one update of its step through an entry of `legs_info`:
    /// it has advanced towards its foothold, lifting its foot along the
    /// body's up axis, and its pole is the creature's up direction.
    pub open spec fn stepped(
        self,
        frame: BodyFrame,
        limb: Limb,
        offset: Vector3,
        hits: Seq<Option<Vector3>>,
        dt: u64,
    ) -> Limb {
        let (leg, arm) = limb.leg.advanced(
            limb.arm,
            self.foothold(frame, limb, offset, hits),
            frame.up,
            dt,
        );
        Limb { leg, arm: IKArm { up: self.up, ..arm }, ..limb }
    }

    /// The arena after the first `k` entries of `legs_info` have been
    /// updated. An entry whose handle names no limb is passed over.
    pub open spec fn stepped_through(
        self,
        frame: BodyFrame,
        probes: Seq<Vec<Option<Vector3>>>,
        dt: u64,
        limbs: Seq<Limb>,
        k: nat,
    ) -> Seq<Limb>
        decreases k,
    {
        if k == 0 {
            limbs
        } else {
            let before = self.stepped_through(frame, probes, dt, limbs, (k - 1) as nat);
            let (h, offset) = self.legs_info@[k - 1];
            if h < before.len() {
                before.update(
                    h as int,
                    self.stepped(frame, before[h as int], offset, hits_for(probes, k - 1), dt),
                )
            } else {
                before
            }
        }
    }
}

/// The `k`-th entry of `legs_info` is the only one among the first `n` that
/// names the limb `i`.
pub open spec fn names_once(creature: LegCreature, n: nat, k: int, i: int) -> bool {
    &&& 0 <= k < n <= creature.legs_info@.len()
    &&& creature.legs_info@[k].0 == i
    &&& forall|j: int| 0 <= j < n && j != k ==> (#[trigger] creature.legs_info@[j]).0 != i
}

/// No entry among the first `n` of `legs_info` names the limb `i`.
pub open spec fn names_never(creature: LegCreature, n: nat, i: int) -> bool {
    &&& n <= creature.legs_info@.len()
    &&& forall|j: int| 0 <= j < n ==> (#[trigger] creature.legs_info@[j]).0 != i
}

/// The scheduler's pass keeps the number of limbs and leaves alone every
/// limb that `legs_info` does not name.
pub proof fn lemma_placed_unlisted(
    creature: LegCreature,
    frame: BodyFrame,
    limbs: Seq<Limb>,
    n: nat,
    i: int,
)
    requires
        n <= creature.legs_info@.len(),
    ensures
        creature.placed_through(frame, limbs, n).len() == limbs.len(),
        0 <= i < limbs.len() && names_never(creature, n, i) ==> creature.placed_through(
            frame,
            limbs,
            n,
        )[i] == limbs[i],
    decreases n,
{
    if n > 0 {
        lemma_placed_unlisted(creature, frame, limbs, (n - 1) as nat, i);
    }
}

/// The scheduler's pass visits a limb that `legs_info` names once exactly
/// once.
pub proof fn lemma_placed_once(
    creature: LegCreature,
    frame: BodyFrame,
    limbs: Seq<Limb>,
    n: nat,
    k: int,
    i: int,
)
    requires
        names_once(creature, n, k, i),
        0 <= i < limbs.len(),
    ensures
        creature.placed_through(frame, limbs, n)[i] == creature.placed(
            frame,
            limbs[i],
            creature.legs_info@[k].1,
        ),
    decreases n,
{
    lemma_placed_unlisted(creature, frame, limbs, (n - 1) as nat, i);
    if k < n - 1 {
        lemma_placed_once(creature, frame, limbs, (n - 1) as nat, k, i);
    }
}

/// The pass over the steps keeps the number of limbs and leaves alone every
/// limb that `legs_info` does not name.
pub proof fn lemma_stepped_unlisted(
    creature: LegCreature,
    frame: BodyFrame,
    probes: Seq<Vec<Option<Vector3>>>,
    dt: u64,
    limbs: Seq<Limb>,
    n: nat,
    i: int,
)
    requires
        n <= creature.legs_info@.len(),
    ensures
        creature.stepped_through(frame, probes, dt, limbs, n).len() == limbs.len(),
        0 <= i < limbs.len() && names_never(creature, n, i) ==> creature.stepped_through(
            frame,
            probes,
            dt,
            limbs,
            n,
        )[i] == limbs[i],
    decreases n,
{
    if n > 0 {
        lemma_stepped_unlisted(creature, frame, probes, dt, limbs, (n - 1) as nat, i);
    }
}

/// The pass over the steps updates a limb that `legs_info` names once
/// exactly once, with the ground hits that belong to that entry.
pub proof fn lemma_stepped_once(
    creature: LegCreature,
    frame: BodyFrame,
    probes: Seq<Vec<Option<Vector3>>>,
    dt: u64,
    limbs: Seq<Limb>,
    n: nat,
    k: int,
    i: int,
)
    requires
        names_once(creature, n, k, i),
        0 <= i < limbs.len(),
    ensures
        creature.stepped_through(frame, probes, dt, limbs, n)[i] == creature.stepped(
            frame,
            limbs[i],
            creature.legs_info@[k].1,
            hits_for(probes, k),
            dt,
        ),
    decreases n,
{
    lemma_stepped_unlisted(creature, frame, probes, dt, limbs, (n - 1) as nat, i);
    if k < n - 1 {
        lemma_stepped_once(creature, frame, probes, dt, limbs, (n - 1) as nat, k, i);
    }
}

/// The turn changes hands exactly when no limb of the left or the right
/// group is in the middle of a step.
pub proof fn lemma_side_swaps_at_rest(creature: LegCreature, limbs: Seq<Limb>)
    ensures
        creature.next_side(limbs) != creature.current_side <==> !creature.any_stepping(limbs),
{
}

/// Over any run of the scheduler the turn changes hands in exactly those
/// frames in which no limb of the left or the right group is in the middle
/// of a step. `creatures` holds the creature before every frame and after
/// the last, `arenas` the limbs in every frame.
pub proof fn lemma_no_swap_in_mid_step(creatures: Seq<LegCreature>, arenas: Seq<Seq<Limb>>)
    requires
        creatures.len() == arenas.len() + 1,
        forall|i: int|
            0 <= i < arenas.len() ==> (#[trigger] creatures[i + 1]).current_side
                == creatures[i].next_side(arenas[i]),
    ensures
        forall|i: int|
            0 <= i < arenas.len() ==> ((#[trigger] creatures[i + 1]).current_side
                != creatures[i].current_side <==> !creatures[i].any_stepping(arenas[i])),
{
    assert forall|i: int| 0 <= i < arenas.len() implies ((#[trigger] creatures[i + 1]).current_side
        != creatures[i].current_side <==> !creatures[i].any_stepping(arenas[i])) by {
        lemma_side_swaps_at_rest(creatures[i], arenas[i]);
    }
}

/// Only a limb of the active group may begin a step, and a limb of neither
/// group never may.
pub proof fn lemma_only_active_side_steps(creature: LegCreature, frame: BodyFrame, limb: Limb, offset: Vector3)
    ensures
        creature.placed(frame, limb, offset).leg.can_start_step <==> limb.leg.leg_side
            == creature.current_side && limb.leg.leg_side != LegSide::Neither,
        creature.placed(frame, limb, offset).leg.stepping == limb.leg.stepping,
{
}

/// Within a frame no limb outside the active group begins a step: a limb
/// that the scheduler has visited and that is then updated is in mid-step
/// only if it was before or the scheduler permits its group.
pub proof fn lemma_inactive_limb_rests(
    creature: LegCreature,
    frame: BodyFrame,
    limb: Limb,
    offset: Vector3,
    hits: Seq<Option<Vector3>>,
    dt: u64,
)
    ensures
        creature.stepped(frame, creature.placed(frame, limb, offset), offset, hits, dt).leg.stepping
            ==> limb.leg.stepping || creature.permits(limb.leg.leg_side),
{
}

/// The ground hits that belong to the `k`-th entry of `legs_info`: none where
/// the caller has supplied fewer lists than there are entries.
pub open spec fn hits_for(probes: Seq<Vec<Option<Vector3>>>, k: int) -> Seq<Option<Vector3>> {
    if 0 <= k < probes.len() {
        probes[k]@
    } else {
        Seq::empty()
    }
}

/// Computes [`LegCreature::desired_position`]: where the rays that probe
/// the ground for a limb are aimed.
pub fn desired_position(creature: &LegCreature, frame: &BodyFrame, limb: &Limb, offset: &Vector3) -> (r:
    Option<Vector3>)
    ensures
        r == creature.desired_position(*frame, *limb, *offset),
        r is Some ==> r->0.in_range(),
{
    if !offset.is_in_range() || !limb.leg.step_offset.is_in_range()
        || !creature.target_offset.is_in_range() {
        return None;
    }
    let local: Vector3 = offset.plus(&limb.leg.step_offset).plus(&creature.target_offset);
    frame.transform_point(&local)
}

/// The scheduler's decision: hands the turn to the other group when no limb
/// of the left or the right group is in the middle of a step.
pub fn determine_side(creature: &mut LegCreature, limbs: &Vec<Limb>)
    ensures
        final(creature).current_side == old(creature).next_side(limbs@),
        final(creature).current_side != old(creature).current_side <==> !old(creature).any_stepping(
            limbs@,
        ),
        final(creature).target_height == old(creature).target_height,
        final(creature).up == old(creature).up,
        final(creature).legs_info == old(creature).legs_info,
        final(creature).speed_mult == old(creature).speed_mult,
        final(creature).target_offset == old(creature).target_offset,
{
    let mut left_side_moving: bool = false;
    let mut right_side_moving: bool = false;
    let mut k: usize = 0;
    while k < creature.legs_info.len()
        invariant
            k <= creature.legs_info@.len(),
            *creature == *old(creature),
            left_side_moving <==> exists|j: int| 0 <= j < k && creature.steps_at(limbs@, j, LegSide::Left),
            right_side_moving <==> exists|j: int|
                0 <= j < k && creature.steps_at(limbs@, j, LegSide::Right),
        decreases creature.legs_info@.len() - k,
    {
        let h: usize = creature.legs_info[k].0;
        if h < limbs.len() {
            let leg: &IKLeg = &limbs[h].leg;
            if leg.stepping {
                match leg.leg_side {
                    LegSide::Left => {
                        left_side_moving = true;
                        assert(creature.steps_at(limbs@, k as int, LegSide::Left));
                    },
                    LegSide::Right => {
                        right_side_moving = true;
                        assert(creature.steps_at(limbs@, k as int, LegSide::Right));
                    },
                    LegSide::Neither => {},
                }
            }
        }
        k = k + 1;
    }
    if !left_side_moving && !right_side_moving {
        creature.current_side = creature.current_side.next();
    }
}

/// The scheduler's pass over the limbs: carries every root along with the
/// body and tells every limb whether it may begin a step.
pub fn handle_leg_creature(creature: &LegCreature, limbs: &mut Vec<Limb>, frame: &BodyFrame)
    ensures
        final(limbs)@ == creature.placed_through(*frame, old(limbs)@, creature.legs_info@.len()),
        final(limbs)@.len() == old(limbs)@.len(),
        all_wf(old(limbs)@) ==> all_wf(final(limbs)@),
{
    let mut k: usize = 0;
    while k < creature.legs_info.len()
        invariant
            k <= creature.legs_info@.len(),
            limbs@.len() == old(limbs)@.len(),
            limbs@ == creature.placed_through(*frame, old(limbs)@, k as nat),
            all_wf(old(limbs)@) ==> all_wf(limbs@),
        decreases creature.legs_info@.len() - k,
    {
        let h: usize = creature.legs_info[k].0;
        let offset: Vector3 = creature.legs_info[k].1;
        if h < limbs.len() {
            let mut limb: Limb = limbs[h];
            match frame.transform_point(&offset) {
                Some(p) => {
                    limb.root = p;
                },
                None => {},
            }
            limb.leg.can_start_step = limb.leg.leg_side == creature.current_side && limb.leg.leg_side
                != LegSide::Neither;
            limbs[h] = limb;
        }
        k = k + 1;
    }
}

/// One update of every limb's step. `probes` holds, for each entry of
/// `legs_info`, what the rays cast around that limb's resting place have
/// hit.
pub fn handle_legs(
    creature: &LegCreature,
    limbs: &mut Vec<Limb>,
    frame: &BodyFrame,
    probes: &Vec<Vec<Option<Vector3>>>,
    dt: u64,
)
    ensures
        final(limbs)@ == creature.stepped_through(
            *frame,
            probes@,
            dt,
            old(limbs)@,
            creature.legs_info@.len(),
        ),
        final(limbs)@.len() == old(limbs)@.len(),
        all_wf(old(limbs)@) && creature.up.is_direction() ==> all_wf(final(limbs)@),
{
    let mut k: usize = 0;
    while k < creature.legs_info.len()
        invariant
            k <= creature.legs_info@.len(),
            limbs@.len() == old(limbs)@.len(),
            all_wf(old(limbs)@) && creature.up.is_direction() ==> all_wf(limbs@),
            limbs@ == creature.stepped_through(*frame, probes@, dt, old(limbs)@, k as nat),
        decreases creature.legs_info@.len() - k,
    {
        let h: usize = creature.legs_info[k].0;
        let offset: Vector3 = creature.legs_info[k].1;
        if h < limbs.len() {
            let mut limb: Limb = limbs[h];
            let ghost before: Limb = limb;
            let mut foothold: Vector3 = limb.arm.target;
            match desired_position(creature, frame, &limb, &offset) {
                Some(desired) => {
                    if k < probes.len() {
                        match find_step(&desired, &probes[k]) {
                            Some(p) => {
                                proof {
                                    lemma_nearest_hit(desired@, probes@[k as int]@);
                                }
                                foothold = p;
                            },
                            None => {},
                        }
                    } else {
                        proof {
                            lemma_nearest_hit(desired@, Seq::empty());
                        }
                    }
                },
                None => {},
            }
            assert(foothold == creature.foothold(*frame, before, offset, hits_for(probes@, k as int)));
            limb.leg.advance(&mut limb.arm, foothold, frame.up, dt);
            limb.arm.up = creature.up;
            assert(limb == creature.stepped(*frame, before, offset, hits_for(probes@, k as int), dt));
            limbs[h] = limb;
        }
        k = k + 1;
    }
}

/// Which of the keys that steer a creature are held down.
#[derive(Copy, Clone, PartialEq, Eq, Structural, Debug)]
pub struct MoveKeys {
    pub forward: bool,
    pub back: bool,
    pub right: bool,
    pub left: bool,
    pub turn_left: bool,
    pub turn_right: bool,
}

/// How the body moves in one update.
#[derive(Copy, Clone, PartialEq, Eq, Structural, Debug)]
pub struct Steering {
    /// By how much the body is displaced, in the world.
    pub displacement: Vector3,
    /// By how many hundredths of a radian the body turns about its up
    /// axis, to the left where positive.
    pub turn: i64,
}

/// A body covers a twentieth of its speed in one update.
pub const STRIDE_SHARE: i64 = 20;

/// The way the keys point, relative to the body: forward against back on
/// the third axis, left against right on the first.
pub open spec fn heading(keys: MoveKeys) -> V3 {
    V3 {
        x: (if keys.left {
            1int
        } else {
            0
        }) - (if keys.right {
            1int
        } else {
            0
        }),
        y: 0,
        z: (if keys.forward {
            1int
        } else {
            0
        }) - (if keys.back {
            1int
        } else {
            0
        }),
    }
}

/// The way the keys point as a direction of length [`UNIT`]; zero where
/// they point nowhere.
pub open spec fn unit_heading(keys: MoveKeys) -> V3 {
    if heading(keys) == V3::zero() {
        V3::zero()
    } else {
        heading(keys).unit()
    }
}

/// Which way the keys turn the body: the key for the right overrules the
/// key for the left.
pub open spec fn turning(keys: MoveKeys) -> int {
    if keys.turn_right {
        -1
    } else if keys.turn_left {
        1
    } else {
        0
    }
}

/// How far the feet aim ahead while the keys are held: against the heading,
/// as far as the speed.
pub open spec fn lead(keys: MoveKeys, speed_mult: int) -> V3 {
    unit_heading(keys).times(-speed_mult).over(UNIT as int)
}

/// How far the body moves in one update: along the heading, seen from the
/// body, a twentieth of the speed.
pub open spec fn stride(frame: BodyFrame, keys: MoveKeys, speed_mult: int) -> V3 {
    let h = unit_heading(keys);
    frame.forward@.times(h.z).plus(frame.right@.times(h.x)).times(speed_mult).over(
        UNIT * UNIT * STRIDE_SHARE,
    )
}

/// The body's frame is well-formed and the creature's speed is no greater
/// than the largest coordinate.
pub open spec fn steerable(creature: LegCreature, frame: BodyFrame) -> bool {
    frame.wf() && -COORD_MAX <= creature.speed_mult <= COORD_MAX
}

/// Steers a creature with the keys: sets the lead of its feet to [`lead`]
/// and tells how the body moves, by [`stride`] and [`turning`]. A creature
/// that is not [`steerable`] stays as it is and its body does not move.
pub fn move_creature(creature: &mut LegCreature, frame: &BodyFrame, keys: &MoveKeys) -> (r: Steering)
    ensures
        final(creature).current_side == old(creature).current_side,
        final(creature).target_height == old(creature).target_height,
        final(creature).up == old(creature).up,
        final(creature).legs_info == old(creature).legs_info,
        final(creature).speed_mult == old(creature).speed_mult,
        steerable(*old(creature), *frame) ==> {
            &&& final(creature).target_offset@ == lead(*keys, old(creature).speed_mult as int)
            &&& final(creature).target_offset.in_range()
            &&& r.displacement@ == stride(*frame, *keys, old(creature).speed_mult as int)
            &&& r.turn == turning(*keys)
        },
        !steerable(*old(creature), *frame) ==> {
            &&& final(creature).target_offset == old(creature).target_offset
            &&& r.displacement@ == V3::zero()
            &&& r.turn == 0
        },
{
    if !frame.is_wf() || creature.speed_mult < -COORD_MAX || creature.speed_mult > COORD_MAX {
        return Steering { displacement: Vector3 { x: 0, y: 0, z: 0 }, turn: 0 };
    }
    let mut x: i64 = 0;
    let mut z: i64 = 0;
    if keys.forward {
        z = z + 1;
    }
    if keys.back {
        z = z - 1;
    }
    if keys.right {
        x = x - 1;
    }
    if keys.left {
        x = x + 1;
    }
    let mut turn: i64 = 0;
    if keys.turn_left {
        turn = 1;
    }
    if keys.turn_right {
        turn = -1;
    }
    let raw: Vector3 = Vector3 { x, y: 0, z };
    let h: Vector3 = match raw.normalized() {
        Some(u) => u,
        None => Vector3 { x: 0, y: 0, z: 0 },
    };
    assert(h@ == unit_heading(*keys));
    let speed: i128 = creature.speed_mult as i128;
    let unit: i128 = UNIT as i128;
    proof {
        let s = speed as int;
        let m = COORD_MAX as int;
        lemma_product_bound(h.x as int, -s, UNIT as int, m);
        lemma_product_bound(h.y as int, -s, UNIT as int, m);
        lemma_product_bound(h.z as int, -s, UNIT as int, m);
        assert(UNIT * m == m * UNIT && -(UNIT * m) == (-m) * UNIT) by (nonlinear_arith);
        lemma_div_between(h.x * (-s), UNIT as int, -m, m);
        lemma_div_between(h.y * (-s), UNIT as int, -m, m);
        lemma_div_between(h.z * (-s), UNIT as int, -m, m);
    }
    creature.target_offset = Vector3 {
        x: div_floor((h.x as i128) * (-speed), unit) as i64,
        y: div_floor((h.y as i128) * (-speed), unit) as i64,
        z: div_floor((h.z as i128) * (-speed), unit) as i64,
    };
    let displacement: Vector3 = Vector3 {
        x: stride_coordinate(frame.forward.x, frame.right.x, h.z, h.x, creature.speed_mult),
        y: stride_coordinate(frame.forward.y, frame.right.y, h.z, h.x, creature.speed_mult),
        z: stride_coordinate(frame.forward.z, frame.right.z, h.z, h.x, creature.speed_mult),
    };
    Steering { displacement, turn }
}

/// One coordinate of [`stride`].
fn stride_coordinate(forward: i64, right: i64, hz: i64, hx: i64, speed: i64) -> (r: i64)
    requires
        -DIR_MAX <= forward <= DIR_MAX,
        -DIR_MAX <= right <= DIR_MAX,
        -UNIT <= hz <= UNIT,
        -UNIT <= hx <= UNIT,
        -COORD_MAX <= speed <= COORD_MAX,
    ensures
        r == ((forward * hz + right * hx) * speed) / (UNIT * UNIT * STRIDE_SHARE),
{
    proof {
        lemma_product_bound(forward as int, hz as int, DIR_MAX as int, UNIT as int);
        lemma_product_bound(right as int, hx as int, DIR_MAX as int, UNIT as int);
        lemma_product_bound(
            forward * hz + right * hx,
            speed as int,
            2 * (DIR_MAX * UNIT),
            COORD_MAX as int,
        );
        let b = (2 * (DIR_MAX * UNIT)) * COORD_MAX;
        assert(b == 34_359_738_368_000) by (nonlinear_arith)
            requires
                b == (2 * (DIR_MAX * UNIT)) * COORD_MAX,
                DIR_MAX == 1024,
                UNIT == 1000,
                COORD_MAX == 16_777_216,
        ;
        assert(UNIT * UNIT * STRIDE_SHARE == 20_000_000) by (nonlinear_arith)
            requires
                UNIT == 1000,
                STRIDE_SHARE == 20,
        ;
        lemma_div_between((forward * hz + right * hx) * speed, 20_000_000, -b, b);
    }
    let along: i128 = (forward as i128) * (hz as i128) + (right as i128) * (hx as i128);
    div_floor(along * (speed as i128), (UNIT as i128) * (UNIT as i128) * (STRIDE_SHARE as i128)) as i64
}

} // verus!
