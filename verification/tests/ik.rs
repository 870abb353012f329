use leg_creature::ik_arm::{
    get_knee_position, handle_arm_targets, handle_ik, handle_up, project_onto_plane, IKArm, IkPose,
    PoleKeys,
};
use leg_creature::vec3::Vector3;

fn v(x: i64, y: i64, z: i64) -> Vector3 {
    Vector3::new(x, y, z)
}

fn dist_sq(a: Vector3, b: Vector3) -> i64 {
    (a.x - b.x) * (a.x - b.x) + (a.y - b.y) * (a.y - b.y) + (a.z - b.z) * (a.z - b.z)
}

fn near(d2: i64, len: i64) -> bool {
    d2 <= (len + 5) * (len + 5) && (len < 5 || (len - 5) * (len - 5) <= d2)
}

fn no_keys() -> PoleKeys {
    PoleKeys { plus_x: false, minus_x: false, plus_z: false, minus_z: false, plus_y: false, minus_y: false }
}

#[test]
fn limb_bends_towards_the_pole() {
    let arm = IKArm { target: v(900, 0, 0), up: v(0, 1000, 0) };
    let pose = handle_ik(&arm, &v(0, 0, 0), 500, 500).unwrap();
    assert_eq!(pose, IkPose { knee: v(450, 217, 0), tip: v(900, 0, 0) });
    assert!(near(dist_sq(pose.knee, v(0, 0, 0)), 500));
    assert!(near(dist_sq(pose.tip, pose.knee), 500));
    assert!(pose.knee.y > 0);
    let down = IKArm { target: v(900, 0, 0), up: v(0, -1000, 0) };
    let pose = handle_ik(&down, &v(0, 0, 0), 500, 500).unwrap();
    assert_eq!(pose.knee, v(450, -218, 0));
}

#[test]
fn knee_agrees_with_the_pose() {
    assert_eq!(get_knee_position(&v(0, 0, 0), &v(900, 0, 0), &v(0, 1000, 0), 500, 500), Some(v(450, 217, 0)));
    assert_eq!(
        get_knee_position(&v(10, -20, 30), &v(310, 380, 30), &v(300, -100, 900), 400, 300),
        Some(v(262, 190, 257))
    );
    assert_eq!(get_knee_position(&v(0, 0, 0), &v(0, -700, 100), &v(1000, 0, 0), 600, 250), Some(v(204, -559, 79)));
}

#[test]
fn target_out_of_reach_stretches_the_limb() {
    let arm = IKArm { target: v(3000, 4000, 0), up: v(0, 0, 1000) };
    let pose = handle_ik(&arm, &v(0, 0, 0), 500, 500).unwrap();
    assert_eq!(pose, IkPose { knee: v(300, 400, 0), tip: v(600, 800, 0) });
    assert_eq!(dist_sq(pose.tip, v(0, 0, 0)), 1000 * 1000);
    let arm = IKArm { target: v(1100, 1200, 1300), up: v(0, 1000, 0) };
    let root = v(100, 200, 300);
    let pose = handle_ik(&arm, &root, 300, 400).unwrap();
    assert_eq!(pose, IkPose { knee: v(273, 373, 473), tip: v(504, 604, 704) });
    assert!(near(dist_sq(pose.knee, root), 300));
    assert!(near(dist_sq(pose.tip, pose.knee), 400));
    assert!(near(dist_sq(pose.tip, root), 700));
}

#[test]
fn target_at_full_reach_is_reached_straight() {
    let arm = IKArm { target: v(1000, 0, 0), up: v(0, 1000, 0) };
    assert_eq!(handle_ik(&arm, &v(0, 0, 0), 500, 500), Some(IkPose { knee: v(500, 0, 0), tip: v(1000, 0, 0) }));
}

#[test]
fn target_at_least_reach_folds_the_limb() {
    let arm = IKArm { target: v(200, 0, 0), up: v(0, 1000, 0) };
    assert_eq!(handle_ik(&arm, &v(0, 0, 0), 500, 300), Some(IkPose { knee: v(500, 0, 0), tip: v(200, 0, 0) }));
}

#[test]
fn target_too_close_stretches_the_limb() {
    let arm = IKArm { target: v(10, 0, 0), up: v(0, 1000, 0) };
    assert_eq!(handle_ik(&arm, &v(0, 0, 0), 500, 100), Some(IkPose { knee: v(500, 0, 0), tip: v(600, 0, 0) }));
}

#[test]
fn target_at_the_root_has_no_pose() {
    let arm = IKArm { target: v(5, 6, 7), up: v(0, 1000, 0) };
    assert_eq!(handle_ik(&arm, &v(5, 6, 7), 500, 500), None);
    assert_eq!(get_knee_position(&v(5, 6, 7), &v(5, 6, 7), &v(0, 1000, 0), 500, 500), None);
}

#[test]
fn pole_along_the_aim_has_no_pose() {
    let arm = IKArm { target: v(0, 900, 0), up: v(0, 1000, 0) };
    assert_eq!(handle_ik(&arm, &v(0, 0, 0), 500, 500), None);
    let arm = IKArm { target: v(300, -600, 900), up: v(-100, 200, -300) };
    assert_eq!(handle_ik(&arm, &v(0, 0, 0), 500, 500), None);
    let arm = IKArm { target: v(300, -600, 900), up: v(0, 0, 0) };
    assert_eq!(handle_ik(&arm, &v(0, 0, 0), 500, 500), None);
}

#[test]
fn solver_gives_the_same_answer_twice() {
    let arm = IKArm { target: v(310, 380, 30), up: v(300, -100, 900) };
    let root = v(10, -20, 30);
    let first = handle_ik(&arm, &root, 400, 300);
    let second = handle_ik(&arm, &root, 400, 300);
    assert_eq!(first, second);
    assert_eq!(first, Some(IkPose { knee: v(262, 190, 257), tip: v(310, 380, 30) }));
}

#[test]
fn bones_keep_their_lengths_over_many_targets() {
    let root = v(-40, 25, 60);
    let mut count = 0;
    let mut x = -1500;
    while x <= 1500 {
        let mut y = -1500;
        while y <= 1500 {
            let mut z = -900;
            while z <= 900 {
                let arm = IKArm { target: v(x, y, z), up: v(577, 577, 577) };
                if let Some(pose) = handle_ik(&arm, &root, 700, 450) {
                    assert!(near(dist_sq(pose.knee, root), 700));
                    assert!(near(dist_sq(pose.tip, pose.knee), 450));
                    let d2 = dist_sq(arm.target, root);
                    if 250 * 250 <= d2 && d2 <= 1150 * 1150 {
                        assert_eq!(pose.tip, arm.target);
                    } else {
                        assert!(near(dist_sq(pose.tip, root), 1150));
                    }
                    count += 1;
                }
                z += 150;
            }
            y += 125;
        }
        x += 125;
    }
    assert!(count > 7000);
}

fn wide_dist_sq(a: Vector3, b: Vector3) -> i128 {
    let d = ((a.x - b.x) as i128, (a.y - b.y) as i128, (a.z - b.z) as i128);
    d.0 * d.0 + d.1 * d.1 + d.2 * d.2
}

fn wide_near(d2: i128, len: i128) -> bool {
    (len - 5) * (len - 5) <= d2 && d2 <= (len + 5) * (len + 5)
}

#[test]
fn largest_supported_limb_is_solved() {
    let top = 16_777_216;
    let bone = 8_388_608;
    let arm = IKArm { target: v(top, top, -top), up: v(1024, -1024, 1024) };
    let root = v(-top, -top, top);
    let pose = handle_ik(&arm, &root, bone, bone).unwrap();
    assert_eq!(pose.knee, v(-11_934_051, -11_934_051, 11_934_050));
    assert_eq!(pose.tip, v(-7_090_886, -7_090_886, 7_090_885));
    assert!(wide_near(wide_dist_sq(pose.knee, root), bone as i128));
    assert!(wide_near(wide_dist_sq(pose.tip, pose.knee), bone as i128));
    assert!(wide_near(wide_dist_sq(pose.tip, root), 2 * bone as i128));
    let arm = IKArm { target: v(9_000_000, 3_000_000, -top), up: v(1024, -1024, 1024) };
    let root = v(0, 0, -top);
    let pose = handle_ik(&arm, &root, bone, bone).unwrap();
    assert_eq!(pose.knee, v(6_216_324, -3_648_973, -12_486_406));
    assert_eq!(pose.tip, arm.target);
    assert!(wide_near(wide_dist_sq(pose.knee, root), bone as i128));
    assert!(wide_near(wide_dist_sq(pose.tip, pose.knee), bone as i128));
}

#[test]
fn projection_is_across_the_normal() {
    let p = project_onto_plane(&v(0, 1000, 0), &v(900, 0, 0));
    assert_eq!(p, v(0, 810_000_000, 0));
    let p = project_onto_plane(&v(300, -100, 900), &v(300, 400, 0));
    assert_eq!(p, v(60_000_000, -45_000_000, 225_000_000));
    assert_eq!(p.x * 300 + p.y * 400, 0);
    assert_eq!(project_onto_plane(&v(30, 40, 0), &v(300, 400, 0)), v(0, 0, 0));
}

#[test]
fn keys_pull_the_pole() {
    let mut arm = IKArm { target: v(1, 2, 3), up: v(0, 1000, 0) };
    handle_up(&mut arm, &no_keys());
    assert_eq!(arm.up, v(0, 1000, 0));
    handle_up(&mut arm, &PoleKeys { plus_x: true, ..no_keys() });
    assert_eq!(arm.up, v(110, 993, 0));
    assert_eq!(arm.target, v(1, 2, 3));
    handle_up(&mut arm, &PoleKeys { minus_x: true, plus_y: true, ..no_keys() });
    assert_eq!(arm.up, v(-2, 1000, 0));
    let mut arm = IKArm { target: v(1, 2, 3), up: v(3, 4, 0) };
    handle_up(&mut arm, &no_keys());
    assert_eq!(arm.up, v(600, 800, 0));
    let mut arm = IKArm { target: v(1, 2, 3), up: v(0, 0, 0) };
    handle_up(&mut arm, &no_keys());
    assert_eq!(arm.up, v(0, 0, 0));
    handle_up(&mut arm, &PoleKeys { minus_z: true, ..no_keys() });
    assert_eq!(arm.up, v(0, 0, -1000));
    handle_up(&mut arm, &PoleKeys { plus_z: true, minus_z: true, ..no_keys() });
    assert_eq!(arm.up, v(0, 0, -1000));
    handle_up(&mut arm, &PoleKeys { minus_y: true, ..no_keys() });
    assert_eq!(arm.up, v(0, -111, -994));
}

#[test]
fn limb_follows_its_target_object() {
    let mut arm = IKArm { target: v(1, 2, 3), up: v(0, 1000, 0) };
    handle_arm_targets(&mut arm, None);
    assert_eq!(arm.target, v(1, 2, 3));
    handle_arm_targets(&mut arm, Some(v(4, 5, 6)));
    assert_eq!(arm.target, v(4, 5, 6));
    handle_arm_targets(&mut arm, Some(v(16_777_217, 0, 0)));
    assert_eq!(arm.target, v(4, 5, 6));
    assert_eq!(arm.up, v(0, 1000, 0));
}

#[test]
fn limb_outside_the_supported_ranges_has_no_pose() {
    let arm = IKArm { target: v(900, 0, 0), up: v(0, 1000, 0) };
    assert_eq!(handle_ik(&arm, &v(0, 0, 0), 0, 500), None);
    assert_eq!(handle_ik(&arm, &v(0, 0, 0), 500, -1), None);
    assert_eq!(handle_ik(&arm, &v(0, 0, 0), 8_388_609, 500), None);
    assert_eq!(handle_ik(&arm, &v(0, 0, 16_777_217), 500, 500), None);
    let far = IKArm { target: v(-16_777_217, 0, 0), up: v(0, 1000, 0) };
    assert_eq!(handle_ik(&far, &v(0, 0, 0), 500, 500), None);
    let long = IKArm { target: v(900, 0, 0), up: v(0, 1025, 0) };
    assert_eq!(handle_ik(&long, &v(0, 0, 0), 500, 500), None);
    assert_eq!(get_knee_position(&v(0, 0, 0), &v(900, 0, 0), &v(0, 1025, 0), 500, 500), None);
    assert_eq!(get_knee_position(&v(0, 0, 0), &v(900, 0, 0), &v(0, 1024, 0), 500, 500), Some(v(450, 217, 0)));
    assert_eq!(handle_ik(&arm, &v(0, 0, 0), 1, 1), Some(IkPose { knee: v(1, 0, 0), tip: v(2, 0, 0) }));
}

#[test]
fn pole_outside_the_range_is_not_steered() {
    let mut arm = IKArm { target: v(1, 2, 3), up: v(0, 2000, 0) };
    handle_up(&mut arm, &PoleKeys { plus_x: true, ..no_keys() });
    assert_eq!(arm.up, v(0, 2000, 0));
}
