use leg_creature::body_pose::{fit_plane, gather_feet, handle_height, smoothing_rate, Plane};
use leg_creature::creature::{LegCreature, Limb};
use leg_creature::ik_arm::IKArm;
use leg_creature::leg::{IKLeg, LegSide};
use leg_creature::vec3::Vector3;

fn v(x: i64, y: i64, z: i64) -> Vector3 {
    Vector3::new(x, y, z)
}

fn limb(target: Vector3) -> Limb {
    Limb {
        root: v(0, 0, 0),
        bone_length_0: 500,
        bone_length_1: 500,
        arm: IKArm { target, up: v(0, 1000, 0) },
        leg: IKLeg::new(v(0, 0, 0), 350, 1000, 200, LegSide::Left, false),
    }
}

fn creature(handles: Vec<usize>) -> LegCreature {
    LegCreature::new(LegSide::Neither, 200, handles.into_iter().map(|h| (h, v(0, 0, 0))).collect(), 200)
}

#[test]
fn plane_through_three_feet() {
    assert_eq!(
        fit_plane(&v(0, 0, 0), &v(0, 0, 1000), &v(1000, 0, 0)),
        Some(Plane { normal: v(0, 1000, 0), point: v(333, 0, 333) })
    );
    assert_eq!(
        fit_plane(&v(0, 0, 0), &v(1000, 0, 0), &v(0, 0, 1000)),
        Some(Plane { normal: v(0, -1000, 0), point: v(333, 0, 333) })
    );
    assert_eq!(
        fit_plane(&v(1000, 100, 0), &v(0, 0, 1000), &v(-1000, 50, -500)),
        Some(Plane { normal: v(39, -998, -60), point: v(0, 50, 166) })
    );
}

#[test]
fn feet_on_one_line_span_no_plane() {
    assert_eq!(fit_plane(&v(0, 0, 0), &v(1000, 0, 0), &v(2000, 0, 0)), None);
    assert_eq!(fit_plane(&v(5, 5, 5), &v(5, 5, 5), &v(2000, 0, 0)), None);
    assert_eq!(fit_plane(&v(5, 5, 5), &v(2000, 0, 0), &v(5, 5, 5)), None);
    assert_eq!(fit_plane(&v(2000, 0, 0), &v(5, 5, 5), &v(5, 5, 5)), None);
    assert_eq!(fit_plane(&v(5, 5, 5), &v(5, 5, 5), &v(5, 5, 5)), None);
}

#[test]
fn plane_of_the_widest_triangle() {
    let top = 16_777_216;
    assert_eq!(
        fit_plane(&v(-top, -top, -top), &v(top, -top, top), &v(top, top, -top)),
        Some(Plane { normal: v(-578, 577, 577), point: v(5_592_405, -5_592_406, -5_592_406) })
    );
}

#[test]
fn body_settles_over_its_feet() {
    let mut c = creature(vec![0, 1, 2]);
    let limbs = vec![limb(v(0, 0, 0)), limb(v(0, 0, 1000)), limb(v(1000, 0, 0))];
    c.up = v(0, 0, 1000);
    let p = handle_height(&mut c, &limbs, v(0, 500, 0), 100);
    assert_eq!(c.up, v(0, 1000, 0));
    assert_eq!(p, v(33, 470, 33));
}

#[test]
fn coincident_feet_do_not_count() {
    let mut plain = creature(vec![0, 1, 2]);
    let mut doubled = creature(vec![0, 1, 2, 3]);
    let limbs = vec![limb(v(0, 0, 0)), limb(v(0, 0, 1000)), limb(v(1000, 0, 0)), limb(v(0, 0, 0))];
    plain.up = v(1000, 0, 0);
    doubled.up = v(1000, 0, 0);
    let p = handle_height(&mut plain, &limbs, v(0, 500, 0), 100);
    let q = handle_height(&mut doubled, &limbs, v(0, 500, 0), 100);
    assert_eq!(plain.up, v(0, 1000, 0));
    assert_eq!(doubled.up, plain.up);
    assert_eq!(q, p);
}

#[test]
fn missing_and_stray_feet_do_not_count() {
    let mut c = creature(vec![0, 1, 2, 3, 9]);
    let mut limbs = vec![
        limb(v(500, -100, 350)),
        limb(v(500, -90, -350)),
        limb(v(-500, -120, -350)),
        limb(v(-500, -80, 350)),
    ];
    let p = handle_height(&mut c, &limbs, v(0, 300, 0), 5000);
    assert_eq!(c.up, v(-7, 999, -23));
    assert_eq!(p, v(-3, 101, -6));
    let mut four = creature(vec![0, 1, 2, 3]);
    let q = handle_height(&mut four, &limbs, v(0, 300, 0), 50);
    assert_eq!(four.up, v(-7, 999, -23));
    assert_eq!(q, v(-1, 290, -1));
    limbs.push(limb(v(16_777_217, 0, 0)));
    let mut stray = creature(vec![0, 1, 2, 3, 4]);
    let r = handle_height(&mut stray, &limbs, v(0, 300, 0), 50);
    assert_eq!(stray.up, v(-7, 999, -23));
    assert_eq!(r, v(-1, 290, -1));
    assert_eq!(gather_feet(&stray, &limbs)[4], None);
    assert_eq!(gather_feet(&stray, &limbs)[3], Some(v(-500, -80, 350)));
}

#[test]
fn too_few_feet_leave_the_body_alone() {
    let mut c = creature(vec![0, 1]);
    let limbs = vec![limb(v(0, 0, 0)), limb(v(0, 0, 1000)), limb(v(1000, 0, 0))];
    c.up = v(0, 0, 1000);
    assert_eq!(handle_height(&mut c, &limbs, v(0, 500, 0), 100), v(0, 500, 0));
    assert_eq!(c.up, v(0, 0, 1000));
    let mut none = creature(Vec::new());
    assert_eq!(handle_height(&mut none, &limbs, v(0, 500, 0), 100), v(0, 500, 0));
    let mut line = creature(vec![0, 1, 2]);
    let flat = vec![limb(v(0, 0, 0)), limb(v(1000, 0, 0)), limb(v(2000, 0, 0))];
    line.up = v(0, 0, 1000);
    assert_eq!(handle_height(&mut line, &flat, v(0, 500, 0), 100), v(0, 500, 0));
    assert_eq!(line.up, v(0, 0, 1000));
}

#[test]
fn cancelling_normals_keep_the_up_direction() {
    // the feet 0, 1, 2 and 0, 2, 1 wind in opposite senses
    let mut c = creature(vec![0, 1, 2, 0, 2, 1]);
    let limbs = vec![limb(v(0, 0, 0)), limb(v(0, 0, 1000)), limb(v(1000, 0, 0))];
    c.up = v(0, 0, 1000);
    c.target_height = 0;
    let p = handle_height(&mut c, &limbs, v(0, 500, 0), 1000);
    assert_eq!(c.up, v(0, 0, 1000));
    assert_eq!(p, v(333, 0, 333));
}

#[test]
fn every_three_of_many_feet_are_counted_once() {
    let mut c = creature((0..12).collect());
    let mut limbs = Vec::new();
    for i in 0..12i64 {
        limbs.push(limb(v(100 * i, (i * i) % 7, 1000 * (i % 2) + i * i)));
    }
    let p = handle_height(&mut c, &limbs, v(0, 0, 0), 1000);
    assert_eq!(c.up, v(-6, -999, -46));
    assert_eq!(p, v(547, -199, 531));
}

#[test]
fn body_outside_the_range_keeps_its_place() {
    let mut c = creature(vec![0, 1, 2]);
    let limbs = vec![limb(v(0, 0, 0)), limb(v(0, 0, 1000)), limb(v(1000, 0, 0))];
    c.up = v(0, 0, 1000);
    let p = handle_height(&mut c, &limbs, v(0, 16_777_217, 0), 100);
    assert_eq!(p, v(0, 16_777_217, 0));
    assert_eq!(c.up, v(0, 1000, 0));
    c.target_height = i64::MAX;
    assert_eq!(handle_height(&mut c, &limbs, v(0, 500, 0), 100), v(0, 500, 0));
    c.target_height = i64::MIN;
    assert_eq!(handle_height(&mut c, &limbs, v(0, 500, 0), 100), v(0, 500, 0));
}

#[test]
fn creature_with_too_many_limbs_keeps_its_pose() {
    let mut c = creature((0..257).collect());
    let mut limbs = Vec::new();
    for i in 0..257i64 {
        limbs.push(limb(v(100 * i, (i * i) % 7, 1000 * (i % 2) + i * i)));
    }
    c.up = v(0, 0, 1000);
    assert_eq!(handle_height(&mut c, &limbs, v(1, 2, 3), 1000), v(1, 2, 3));
    assert_eq!(c.up, v(0, 0, 1000));
}

#[test]
fn rate_follows_the_time_between_updates() {
    assert_eq!(smoothing_rate(0, 160), 0);
    assert_eq!(smoothing_rate(16, 160), 100);
    assert_eq!(smoothing_rate(8, 160), 50);
    assert_eq!(smoothing_rate(159, 160), 993);
    assert_eq!(smoothing_rate(160, 160), 1000);
    assert_eq!(smoothing_rate(5000, 160), 1000);
    assert_eq!(smoothing_rate(0, 0), 1000);
    assert_eq!(smoothing_rate(u64::MAX - 1, u64::MAX), 999);
}
