use ball_chase::camera::{
    camera_target_system, follow_factor, follow_step, single_follow_target, FollowCamera,
    FollowTarget, FollowTargetError,
};
use ball_chase::vec3::Vec3;

fn v(x: i64, y: i64, z: i64) -> Vec3 {
    Vec3::new(x, y, z)
}

fn cam_at(p: Vec3, strength: u32, vertical_offset: i64) -> FollowCamera {
    FollowCamera {
        position: p,
        look_direction: v(0, 0, 1000),
        follow: FollowTarget { strength, vertical_offset },
    }
}

#[test]
fn follow_factor_is_zero_without_time() {
    assert_eq!(follow_factor(0, 2000), 0);
    assert_eq!(follow_factor(16, 0), 0);
}

#[test]
fn follow_factor_halves_gap_per_half_life() {
    assert_eq!(follow_factor(1000, 1000), 500000);
    assert_eq!(follow_factor(500, 2000), 500000);
    assert_eq!(follow_factor(2000, 1000), 750000);
    assert_eq!(follow_factor(3000, 1000), 875000);
}

#[test]
fn follow_factor_between_half_lives() {
    // 1 - 2^(-1/8) = 0.082996, 1 - 2^(-1/4) = 0.159104, 1 - 2^(-1/2) = 0.292893.
    assert_eq!(follow_factor(125, 1000), 82996);
    assert_eq!(follow_factor(250, 1000), 159104);
    assert_eq!(follow_factor(500, 1000), 292893);
}

#[test]
fn follow_factor_matches_exponential_to_the_step() {
    for dt in (0u32..20000).step_by(7) {
        for strength in [1u32, 250, 1000, 2000, 3333] {
            let exact = 1e6 * (1.0 - 2f64.powf(-(dt as f64) * (strength as f64) / 1e6));
            let t = follow_factor(dt, strength) as f64;
            assert!((t - exact).abs() <= 16.0, "dt {} strength {}: {} vs {}", dt, strength, t, exact);
        }
    }
}

#[test]
fn two_short_frames_match_one_long_frame() {
    let cam = cam_at(v(0, 0, 0), 1000, 0);
    let target = v(1000000, 0, 0);
    let once = follow_step(&cam, &target, 250);
    let twice = follow_step(&follow_step(&cam, &target, 125), &target, 125);
    assert_eq!(once.position.x, 159104);
    assert!((twice.position.x - once.position.x).abs() <= 2);
}

#[test]
fn follow_factor_reaches_one() {
    assert_eq!(follow_factor(10000, 1000), 999023);
    assert_eq!(follow_factor(21000, 1000), 1000000);
    assert_eq!(follow_factor(4000000000, 4000000000), 1000000);
}

#[test]
fn follow_factor_stays_in_unit_range_and_grows() {
    let mut last = 0;
    for dt in 0u32..3000 {
        let t = follow_factor(dt * 5, 1000);
        assert!(0 <= t && t <= 1000000);
        assert!(t >= last);
        last = t;
    }
}

#[test]
fn follow_step_moves_toward_offset_point() {
    let cam = cam_at(v(0, 0, 0), 1000, 200);
    let next = follow_step(&cam, &v(1000, 0, 0), 1000);
    assert_eq!(next.position, v(500, 100, 0));
    assert_eq!(next.look_direction, v(500, -100, 0));
    assert_eq!(next.follow, cam.follow);
}

#[test]
fn follow_step_with_full_factor_lands_on_point() {
    let cam = cam_at(v(-4000, 2000, 10000), 2000, 200);
    let next = follow_step(&cam, &v(0, 1000, 5000), 100000);
    assert_eq!(next.position, v(0, 1200, 5000));
    assert_eq!(next.look_direction, v(0, -200, 0));
}

#[test]
fn follow_step_without_time_stays() {
    let cam = cam_at(v(-4000, 2000, 10000), 2000, 200);
    let next = follow_step(&cam, &v(0, 1000, 5000), 0);
    assert_eq!(next.position, v(-4000, 2000, 10000));
    assert_eq!(next.look_direction, v(4000, -1000, -5000));
}

#[test]
fn single_target_lookup() {
    assert_eq!(single_follow_target(&vec![]), Err(FollowTargetError::NoTarget));
    assert_eq!(
        single_follow_target(&vec![v(1, 2, 3), v(4, 5, 6)]),
        Err(FollowTargetError::ManyTargets)
    );
    assert_eq!(single_follow_target(&vec![v(1, 2, 3)]), Ok(v(1, 2, 3)));
}

#[test]
fn system_without_single_target_leaves_cameras() {
    let mut cams = vec![cam_at(v(0, 0, 0), 1000, 200)];
    let before = cams.clone();
    assert_eq!(
        camera_target_system(&mut cams, &vec![], 1000),
        Err(FollowTargetError::NoTarget)
    );
    assert_eq!(cams, before);
    assert_eq!(
        camera_target_system(&mut cams, &vec![v(1, 1, 1), v(2, 2, 2)], 1000),
        Err(FollowTargetError::ManyTargets)
    );
    assert_eq!(cams, before);
}

#[test]
fn system_steps_every_camera() {
    let mut cams = vec![cam_at(v(0, 0, 0), 1000, 200), cam_at(v(2000, 0, 0), 1000, 0)];
    assert_eq!(camera_target_system(&mut cams, &vec![v(1000, 0, 0)], 1000), Ok(()));
    assert_eq!(cams[0].position, v(500, 100, 0));
    assert_eq!(cams[1].position, v(1500, 0, 0));
    assert_eq!(cams[1].look_direction, v(-500, 0, 0));
}

#[test]
fn any_elapsed_time_gives_a_positive_factor() {
    assert_eq!(follow_factor(1, 1), 1);
    assert_eq!(follow_factor(1, 2000), 1379);
}

#[test]
fn camera_closes_a_small_gap_at_short_frames() {
    // One millisecond frames, strength 2, 0.9 units from the followed point.
    let mut cam = cam_at(v(0, 0, 0), 2000, 0);
    let target = v(900, 0, 0);
    let mut steps = 0;
    while cam.position != target {
        let next = follow_step(&cam, &target, 1);
        assert!(next.position.x > cam.position.x);
        cam = next;
        steps += 1;
    }
    assert_eq!(steps, 812);
}
