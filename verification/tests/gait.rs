use leg_creature::creature::{
    determine_side, handle_leg_creature, handle_legs, move_creature, LegCreature, Limb, MoveKeys,
};
use leg_creature::frame::BodyFrame;
use leg_creature::ik_arm::IKArm;
use leg_creature::leg::{exceeds, swing, IKLeg, LegSide};
use leg_creature::vec3::Vector3;

fn v(x: i64, y: i64, z: i64) -> Vector3 {
    Vector3::new(x, y, z)
}

fn upright() -> BodyFrame {
    BodyFrame { origin: v(0, 0, 0), right: v(1000, 0, 0), up: v(0, 1000, 0), forward: v(0, 0, -1000) }
}

fn arm_at(target: Vector3) -> IKArm {
    IKArm { target, up: v(0, 1000, 0) }
}

fn limb(side: LegSide, target: Vector3) -> Limb {
    Limb {
        root: v(0, 0, 0),
        bone_length_0: 500,
        bone_length_1: 500,
        arm: arm_at(target),
        leg: IKLeg::new(v(0, 0, 0), 350, 1000, 200, side, false),
    }
}

#[test]
fn limb_steps_to_a_drifted_foothold() {
    let mut leg = IKLeg::new(v(0, 0, 0), 350, 1000, 200, LegSide::Left, true);
    let mut arm = arm_at(v(0, 0, 0));
    let foothold = v(500, 0, 0);
    let up = v(0, 1000, 0);
    leg.advance(&mut arm, foothold, up, 16);
    assert!(leg.stepping);
    assert_eq!(leg.step_elapsed, 0);
    assert_eq!(leg.step_start, v(0, 0, 0));
    assert_eq!(arm.target, v(0, 0, 0));
    leg.advance(&mut arm, foothold, up, 250);
    assert!(leg.stepping);
    assert_eq!(arm.target, v(125, 100, 0));
    leg.advance(&mut arm, foothold, up, 250);
    assert!(leg.stepping);
    assert_eq!(leg.step_elapsed, 500);
    assert_eq!(arm.target, v(250, 200, 0));
    leg.advance(&mut arm, foothold, up, 250);
    assert_eq!(arm.target, v(375, 100, 0));
    leg.advance(&mut arm, foothold, up, 250);
    assert!(!leg.stepping);
    assert_eq!(leg.step_elapsed, 1000);
    assert_eq!(arm.target, v(500, 0, 0));
}

#[test]
fn new_limb_is_at_rest() {
    let leg = IKLeg::new(v(1, 2, 3), 100, 150, 300, LegSide::Right, false);
    assert_eq!(leg.step_offset, v(1, 2, 3));
    assert_eq!(leg.step_distance, 100);
    assert_eq!(leg.step_duration, 150);
    assert_eq!(leg.step_height, 300);
    assert_eq!(leg.leg_side, LegSide::Right);
    assert!(!leg.can_start_step);
    assert!(!leg.stepping);
    assert_eq!(leg.step_elapsed, 0);
    assert_eq!(leg.step_start, v(0, 0, 0));
}

#[test]
fn limb_within_threshold_does_not_step() {
    let mut leg = IKLeg::new(v(0, 0, 0), 350, 1000, 200, LegSide::Left, true);
    let mut arm = arm_at(v(0, 0, 0));
    leg.advance(&mut arm, v(350, 0, 0), v(0, 1000, 0), 16);
    assert!(!leg.stepping);
    assert_eq!(arm.target, v(0, 0, 0));
    leg.advance(&mut arm, v(351, 0, 0), v(0, 1000, 0), 16);
    assert!(leg.stepping);
}

#[test]
fn limb_without_permission_does_not_step() {
    let mut leg = IKLeg::new(v(0, 0, 0), 350, 1000, 200, LegSide::Left, false);
    let mut arm = arm_at(v(0, 0, 0));
    leg.advance(&mut arm, v(5000, 0, 0), v(0, 1000, 0), 16);
    assert!(!leg.stepping);
    assert_eq!(leg.step_elapsed, 0);
    assert_eq!(arm.target, v(0, 0, 0));
}

#[test]
fn every_distance_exceeds_a_negative_threshold() {
    assert!(exceeds(&v(1, 1, 1), &v(1, 1, 1), -1));
    assert!(!exceeds(&v(1, 1, 1), &v(1, 1, 1), 0));
    assert!(exceeds(&v(1, 1, 1), &v(1, 1, 2), 0));
    assert!(!exceeds(&v(0, 0, 0), &v(300, 400, 0), 500));
    assert!(exceeds(&v(0, 0, 0), &v(300, 400, 1), 500));
}

#[test]
fn step_that_is_overdue_finishes_at_once() {
    let mut leg = IKLeg::new(v(0, 0, 0), 0, 0, 200, LegSide::Left, true);
    let mut arm = arm_at(v(0, 0, 0));
    leg.advance(&mut arm, v(10, 0, 0), v(0, 1000, 0), 0);
    assert!(leg.stepping);
    leg.advance(&mut arm, v(20, 0, 0), v(0, 1000, 0), 0);
    assert!(!leg.stepping);
    assert_eq!(arm.target, v(20, 0, 0));
}

#[test]
fn step_survives_the_longest_frame() {
    let mut leg = IKLeg::new(v(0, 0, 0), 10, u64::MAX, 200, LegSide::Left, true);
    let mut arm = arm_at(v(0, 0, 0));
    leg.advance(&mut arm, v(100, 0, 0), v(0, 1000, 0), 1);
    leg.advance(&mut arm, v(100, 0, 0), v(0, 1000, 0), u64::MAX - 1);
    assert!(leg.stepping);
    assert_eq!(leg.step_elapsed, u64::MAX - 1);
    leg.advance(&mut arm, v(100, 0, 0), v(0, 1000, 0), u64::MAX);
    assert!(!leg.stepping);
    assert_eq!(arm.target, v(100, 0, 0));
}

#[test]
fn swing_follows_line_and_lift() {
    assert_eq!(
        swing(&v(-7, 3, 11), &v(100, -50, 9), &v(100, 900, -200), 333, 123, 1000),
        Some(v(14, 68, -7))
    );
    assert_eq!(swing(&v(0, 0, 0), &v(500, 0, 0), &v(0, 1000, 0), 200, 0, 1000), Some(v(0, 0, 0)));
    assert_eq!(swing(&v(0, 0, 0), &v(500, 0, 0), &v(0, 1000, 0), 200, 999, 1000), Some(v(499, 0, 0)));
    assert_eq!(swing(&v(0, 0, 0), &v(500, 0, 0), &v(0, 1000, 0), -200, 500, 1000), Some(v(250, -200, 0)));
}

#[test]
fn swing_outside_the_range_is_discarded() {
    let top = 16_777_216;
    assert_eq!(swing(&v(0, top, 0), &v(0, top, 0), &v(0, 1000, 0), 1, 500, 1000), None);
    let mut leg = IKLeg::new(v(0, 0, 0), 0, 1000, 2, LegSide::Left, true);
    let mut arm = arm_at(v(0, top - 1, 0));
    leg.advance(&mut arm, v(0, top, 0), v(0, 1000, 0), 0);
    assert!(leg.stepping);
    leg.advance(&mut arm, v(0, top, 0), v(0, 1000, 0), 500);
    assert!(leg.stepping);
    assert_eq!(leg.step_elapsed, 500);
    assert_eq!(arm.target, v(0, top - 1, 0));
    leg.advance(&mut arm, v(0, top, 0), v(0, 1000, 0), 500);
    assert_eq!(arm.target, v(0, top, 0));
}

#[test]
fn turn_changes_hands_only_at_rest() {
    let mut creature = LegCreature::new(LegSide::Neither, 200, vec![(0, v(0, 0, 0)), (1, v(0, 0, 0))], 200);
    let mut limbs = vec![limb(LegSide::Left, v(0, 0, 0)), limb(LegSide::Right, v(0, 0, 0))];
    determine_side(&mut creature, &limbs);
    assert_eq!(creature.current_side, LegSide::Left);
    determine_side(&mut creature, &limbs);
    assert_eq!(creature.current_side, LegSide::Right);
    limbs[0].leg.stepping = true;
    determine_side(&mut creature, &limbs);
    assert_eq!(creature.current_side, LegSide::Right);
    determine_side(&mut creature, &limbs);
    assert_eq!(creature.current_side, LegSide::Right);
    limbs[0].leg.stepping = false;
    limbs[1].leg.stepping = true;
    determine_side(&mut creature, &limbs);
    assert_eq!(creature.current_side, LegSide::Right);
    limbs[1].leg.stepping = false;
    determine_side(&mut creature, &limbs);
    assert_eq!(creature.current_side, LegSide::Left);
}

#[test]
fn limb_of_neither_group_does_not_hold_the_turn() {
    let mut creature = LegCreature::new(LegSide::Left, 200, vec![(0, v(0, 0, 0)), (7, v(0, 0, 0))], 200);
    let mut limbs = vec![limb(LegSide::Neither, v(0, 0, 0))];
    limbs[0].leg.stepping = true;
    determine_side(&mut creature, &limbs);
    assert_eq!(creature.current_side, LegSide::Right);
}

#[test]
fn unlisted_limb_does_not_hold_the_turn() {
    let mut creature = LegCreature::new(LegSide::Right, 200, vec![(1, v(0, 0, 0))], 200);
    let mut limbs = vec![limb(LegSide::Left, v(0, 0, 0)), limb(LegSide::Left, v(0, 0, 0))];
    limbs[0].leg.stepping = true;
    determine_side(&mut creature, &limbs);
    assert_eq!(creature.current_side, LegSide::Left);
}

#[test]
fn successor_of_each_side() {
    assert_eq!(LegSide::Left.next(), LegSide::Right);
    assert_eq!(LegSide::Right.next(), LegSide::Left);
    assert_eq!(LegSide::Neither.next(), LegSide::Left);
}

#[test]
fn scheduler_permits_the_active_group_only() {
    let mut creature = LegCreature::new(
        LegSide::Left,
        200,
        vec![(0, v(150, -100, 100)), (1, v(-150, -100, 100)), (2, v(0, 0, 0)), (9, v(1, 1, 1))],
        200,
    );
    let mut limbs = vec![
        limb(LegSide::Left, v(0, 0, 0)),
        limb(LegSide::Right, v(0, 0, 0)),
        limb(LegSide::Neither, v(0, 0, 0)),
        limb(LegSide::Left, v(0, 0, 0)),
    ];
    limbs[3].leg.can_start_step = true;
    let mut frame = upright();
    frame.origin = v(1000, 2000, 3000);
    handle_leg_creature(&creature, &mut limbs, &frame);
    assert!(limbs[0].leg.can_start_step);
    assert!(!limbs[1].leg.can_start_step);
    assert!(!limbs[2].leg.can_start_step);
    assert!(limbs[3].leg.can_start_step);
    assert_eq!(limbs[0].root, v(1150, 1900, 3100));
    assert_eq!(limbs[1].root, v(850, 1900, 3100));
    assert_eq!(limbs[3].root, v(0, 0, 0));
    creature.current_side = LegSide::Neither;
    handle_leg_creature(&creature, &mut limbs, &frame);
    assert!(!limbs[0].leg.can_start_step);
    assert!(!limbs[1].leg.can_start_step);
    assert!(!limbs[2].leg.can_start_step);
}

#[test]
fn root_outside_the_range_is_not_taken_up() {
    let creature = LegCreature::new(LegSide::Left, 200, vec![(0, v(1, 0, 0))], 200);
    let mut limbs = vec![limb(LegSide::Left, v(0, 0, 0))];
    limbs[0].root = v(5, 6, 7);
    let mut frame = upright();
    frame.origin = v(16_777_216, 0, 0);
    handle_leg_creature(&creature, &mut limbs, &frame);
    assert_eq!(limbs[0].root, v(5, 6, 7));
    assert!(limbs[0].leg.can_start_step);
}

#[test]
fn limbs_step_towards_the_ground_under_the_body() {
    let mut creature = LegCreature::new(
        LegSide::Left,
        200,
        vec![(0, v(150, -100, 100)), (1, v(-150, -100, 100)), (5, v(0, 0, 0))],
        200,
    );
    creature.up = v(0, 0, 1000);
    let mut limbs = vec![limb(LegSide::Left, v(0, 0, 0)), limb(LegSide::Right, v(-650, -200, -250))];
    limbs[0].leg.step_offset = v(500, -100, 350);
    limbs[1].leg.step_offset = v(-500, -100, 350);
    let frame = upright();
    handle_leg_creature(&creature, &mut limbs, &frame);
    // the resting places are (650, -200, 450) and (-650, -200, 450)
    let probes = vec![
        vec![None, Some(v(650, -300, 450)), Some(v(650, -210, 440)), Some(v(650, 3000, 450))],
        vec![None, None, None, None, None],
    ];
    handle_legs(&creature, &mut limbs, &frame, &probes, 16);
    assert!(limbs[0].leg.stepping);
    assert_eq!(limbs[0].leg.step_start, v(0, 0, 0));
    assert_eq!(limbs[0].arm.target, v(0, 0, 0));
    assert_eq!(limbs[0].arm.up, v(0, 0, 1000));
    assert!(!limbs[1].leg.stepping);
    assert_eq!(limbs[1].arm.target, v(-650, -200, -250));
    handle_legs(&creature, &mut limbs, &frame, &probes, 500);
    assert_eq!(limbs[0].arm.target, v(325, 95, 220));
    handle_legs(&creature, &mut limbs, &frame, &probes, 500);
    assert!(!limbs[0].leg.stepping);
    assert_eq!(limbs[0].arm.target, v(650, -210, 440));
}

#[test]
fn limb_without_ground_holds_its_place() {
    let creature = LegCreature::new(LegSide::Left, 200, vec![(0, v(0, 0, 0))], 200);
    let mut limbs = vec![limb(LegSide::Left, v(7, 8, 9))];
    limbs[0].leg.step_offset = v(5000, 0, 0);
    limbs[0].leg.can_start_step = true;
    let frame = upright();
    let no_probes: Vec<Vec<Option<Vector3>>> = Vec::new();
    handle_legs(&creature, &mut limbs, &frame, &no_probes, 16);
    assert!(!limbs[0].leg.stepping);
    assert_eq!(limbs[0].arm.target, v(7, 8, 9));
    let far = vec![vec![Some(v(5000, 0, 2237))]];
    handle_legs(&creature, &mut limbs, &frame, &far, 16);
    assert!(!limbs[0].leg.stepping);
    let near = vec![vec![Some(v(5000, 0, 2236))]];
    handle_legs(&creature, &mut limbs, &frame, &near, 16);
    assert!(limbs[0].leg.stepping);
}

#[test]
fn limb_listed_twice_is_updated_twice() {
    let creature = LegCreature::new(LegSide::Left, 200, vec![(0, v(0, 0, 0)), (0, v(0, 0, 0))], 200);
    let mut limbs = vec![limb(LegSide::Left, v(0, 0, 0))];
    limbs[0].leg.can_start_step = true;
    let frame = upright();
    let probes = vec![vec![Some(v(0, 0, 1000))], vec![Some(v(0, 0, 1000))]];
    handle_legs(&creature, &mut limbs, &frame, &probes, 400);
    assert!(limbs[0].leg.stepping);
    assert_eq!(limbs[0].leg.step_elapsed, 400);
    assert_eq!(limbs[0].arm.target, v(0, 160, 400));
}

#[test]
fn new_creature_stands_upright_and_still() {
    let creature = LegCreature::new(LegSide::Neither, 200, vec![(3, v(1, 2, 3))], 150);
    assert_eq!(creature.current_side, LegSide::Neither);
    assert_eq!(creature.target_height, 200);
    assert_eq!(creature.legs_info, vec![(3, v(1, 2, 3))]);
    assert_eq!(creature.speed_mult, 150);
    assert_eq!(creature.up, v(0, 1000, 0));
    assert_eq!(creature.target_offset, v(0, 0, 0));
}

#[test]
fn keys_steer_the_creature() {
    let mut creature = LegCreature::new(LegSide::Neither, 200, Vec::new(), 200);
    let frame = upright();
    let still = MoveKeys { forward: false, back: false, right: false, left: false, turn_left: false, turn_right: false };
    let r = move_creature(&mut creature, &frame, &still);
    assert_eq!(r.displacement, v(0, 0, 0));
    assert_eq!(r.turn, 0);
    assert_eq!(creature.target_offset, v(0, 0, 0));
    let ahead = MoveKeys { forward: true, turn_left: true, ..still };
    let r = move_creature(&mut creature, &frame, &ahead);
    assert_eq!(creature.target_offset, v(0, 0, -200));
    assert_eq!(r.displacement, v(0, 0, -10));
    assert_eq!(r.turn, 1);
    let slant = MoveKeys { forward: true, left: true, turn_left: true, turn_right: true, ..still };
    let r = move_creature(&mut creature, &frame, &slant);
    assert_eq!(creature.target_offset, v(-142, 0, -142));
    assert_eq!(r.displacement, v(7, 0, -8));
    assert_eq!(r.turn, -1);
    let both = MoveKeys { forward: true, back: true, ..still };
    let r = move_creature(&mut creature, &frame, &both);
    assert_eq!(creature.target_offset, v(0, 0, 0));
    assert_eq!(r.displacement, v(0, 0, 0));
}

#[test]
fn update_outside_the_supported_ranges_changes_nothing() {
    let mut leg = IKLeg::new(v(0, 0, 0), 350, 1000, 200, LegSide::Left, true);
    let mut arm = arm_at(v(0, 0, 0));
    leg.advance(&mut arm, v(16_777_217, 0, 0), v(0, 1000, 0), 16);
    assert!(!leg.stepping);
    leg.advance(&mut arm, v(500, 0, 0), v(0, 1025, 0), 16);
    assert!(!leg.stepping);
    leg.advance(&mut arm, v(500, 0, 0), v(0, 1000, 0), 16);
    assert!(leg.stepping);
    leg.advance(&mut arm, v(500, 0, 0), v(0, 1025, 0), 5000);
    assert!(leg.stepping);
    assert_eq!(leg.step_elapsed, 0);
    arm.target = v(0, 0, -16_777_217);
    leg.advance(&mut arm, v(500, 0, 0), v(0, 1000, 0), 5000);
    assert!(leg.stepping);
    assert_eq!(arm.target, v(0, 0, -16_777_217));
    arm.target = v(0, 0, 0);
    leg.step_start = v(0, 16_777_217, 0);
    leg.advance(&mut arm, v(500, 0, 0), v(0, 1000, 0), 5000);
    assert!(leg.stepping);
    leg.step_start = v(0, 0, 0);
    leg.advance(&mut arm, v(500, 0, 0), v(0, 1000, 0), 5000);
    assert!(!leg.stepping);
    assert_eq!(arm.target, v(500, 0, 0));
}

#[test]
fn creature_that_cannot_be_steered_stays() {
    let mut creature = LegCreature::new(LegSide::Neither, 200, Vec::new(), 200);
    creature.target_offset = v(1, 2, 3);
    let ahead = MoveKeys { forward: true, back: false, right: false, left: false, turn_left: true, turn_right: false };
    let mut frame = upright();
    frame.up = v(0, 1025, 0);
    let r = move_creature(&mut creature, &frame, &ahead);
    assert_eq!(r.displacement, v(0, 0, 0));
    assert_eq!(r.turn, 0);
    assert_eq!(creature.target_offset, v(1, 2, 3));
    creature.speed_mult = 16_777_217;
    let r = move_creature(&mut creature, &upright(), &ahead);
    assert_eq!(r.displacement, v(0, 0, 0));
    assert_eq!(creature.target_offset, v(1, 2, 3));
    creature.speed_mult = -16_777_216;
    let r = move_creature(&mut creature, &upright(), &ahead);
    assert_eq!(r.displacement, v(0, 0, 838_860));
    assert_eq!(creature.target_offset, v(0, 0, 16_777_216));
    assert_eq!(r.turn, 1);
}

#[test]
fn limb_is_solved_for_its_own_target() {
    let mut l = limb(LegSide::Left, v(900, 0, 0));
    let pose = l.pose().unwrap();
    assert_eq!(pose.knee, v(450, 217, 0));
    assert_eq!(pose.tip, v(900, 0, 0));
    l.bone_length_1 = 0;
    assert_eq!(l.pose(), None);
}

#[test]
fn limbs_with_a_frame_that_is_not_supported_hold_their_place() {
    let creature = LegCreature::new(LegSide::Left, 200, vec![(0, v(0, 0, 0))], 200);
    let mut limbs = vec![limb(LegSide::Left, v(7, 8, 9))];
    limbs[0].leg.can_start_step = true;
    let mut frame = upright();
    frame.forward = v(0, 0, -2000);
    let probes = vec![vec![Some(v(0, 0, 1000))]];
    handle_legs(&creature, &mut limbs, &frame, &probes, 16);
    assert!(!limbs[0].leg.stepping);
    assert_eq!(limbs[0].arm.target, v(7, 8, 9));
    handle_leg_creature(&creature, &mut limbs, &frame);
    assert_eq!(limbs[0].root, v(0, 0, 0));
    handle_legs(&creature, &mut limbs, &upright(), &probes, 16);
    assert!(limbs[0].leg.stepping);
}

#[test]
fn side_of_a_limb_is_neither_by_default() {
    assert_eq!(LegSide::default(), LegSide::Neither);
}
