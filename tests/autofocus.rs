use ball_chase::autofocus::{
    auto_focus_dof_system, focus_step, focus_target_distance, is_in_focus_cone, AutoFocus,
    FocusCamera, FALLBACK_FOCUS_DISTANCE,
};
use ball_chase::vec3::Vec3;

fn v(x: i64, y: i64, z: i64) -> Vec3 {
    Vec3::new(x, y, z)
}

#[test]
fn on_axis_target_wins_over_nearer_off_axis_one() {
    let targets = vec![v(0, 0, 5000), v(1900, 0, 900)];
    let d = focus_target_distance(&v(0, 0, 0), &v(0, 0, 1000), &targets);
    assert_eq!(d, 5000);
}

#[test]
fn off_axis_target_at_sixty_five_degrees_is_excluded() {
    assert!(!is_in_focus_cone(&v(1900, 0, 900), &v(0, 0, 1000)));
    assert!(is_in_focus_cone(&v(0, 0, 5000), &v(0, 0, 1000)));
}

#[test]
fn cone_boundary_is_strict() {
    // Exactly sixty degrees: cosine one half is not enough.
    assert!(!is_in_focus_cone(&v(1000, 1000, 0), &v(1000, 0, 1000)));
    assert!(is_in_focus_cone(&v(1000, 999, 0), &v(1000, 0, 1000)));
}

#[test]
fn no_eligible_target_gives_fallback() {
    let targets = vec![v(0, 0, -3000), v(5000, 0, 0), v(0, 4000, 100)];
    let d = focus_target_distance(&v(0, 0, 0), &v(0, 0, 1000), &targets);
    assert_eq!(d, 100000);
    assert_eq!(d, FALLBACK_FOCUS_DISTANCE);
}

#[test]
fn empty_scene_gives_fallback() {
    let d = focus_target_distance(&v(1, 2, 3), &v(0, 0, 1000), &vec![]);
    assert_eq!(d, FALLBACK_FOCUS_DISTANCE);
}

#[test]
fn target_at_camera_position_is_ignored() {
    let d = focus_target_distance(&v(10, 20, 30), &v(0, 0, 1000), &vec![v(10, 20, 30)]);
    assert_eq!(d, FALLBACK_FOCUS_DISTANCE);
}

#[test]
fn target_beyond_fallback_distance_is_used() {
    let d = focus_target_distance(&v(0, 0, 0), &v(0, 0, 1000), &vec![v(0, 0, 250000)]);
    assert_eq!(d, 250000);
}

#[test]
fn full_step_lands_on_far_target_from_either_side() {
    for start in [10000i64, 300000] {
        let mut cams = vec![FocusCamera {
            position: v(0, 0, 0),
            forward: v(0, 0, 1000),
            focal_distance: start,
            auto_focus: AutoFocus::default(),
        }];
        auto_focus_dof_system(&mut cams, &vec![v(0, 0, 250000)], 500);
        assert_eq!(cams[0].focal_distance, 250000);
    }
}

#[test]
fn distance_is_relative_to_camera_and_rounded_down() {
    // Offset (3000, 0, 4001): length 5000.8.., rounds down to 5000.
    let d = focus_target_distance(&v(1000, 0, 1000), &v(0, 0, 1), &vec![v(4000, 0, 5001)]);
    assert_eq!(d, 5000);
}

#[test]
fn focus_step_moves_by_clamped_fraction() {
    // 2 per second for 0.1 s: a fifth of the gap.
    assert_eq!(focus_step(10000, 5000, 2000, 100), 9000);
    assert_eq!(focus_step(5000, 10000, 2000, 100), 6000);
}

#[test]
fn focus_step_clamps_to_target() {
    assert_eq!(focus_step(10000, 5000, 2000, 1000), 5000);
    assert_eq!(focus_step(10000, 5000, 4000000000, 4000000000), 5000);
}

#[test]
fn focus_step_without_time_stays() {
    assert_eq!(focus_step(12345, 5000, 2000, 0), 12345);
}

#[test]
fn focus_step_never_overshoots() {
    let cases = [(0i64, 100000i64), (100000, 0), (-50, 50), (7, 7)];
    for (f, t) in cases {
        for dt in [0u32, 1, 16, 333, 499, 500, 10000] {
            let n = focus_step(f, t, 2000, dt);
            assert!((n - f).abs() <= (t - f).abs());
        }
    }
}

#[test]
fn auto_focus_default_speed_is_two() {
    assert_eq!(AutoFocus::default().adjust_speed, 2000);
}

#[test]
fn system_adjusts_each_camera_only_in_focal_distance() {
    let mut cams = vec![
        FocusCamera {
            position: v(0, 0, 0),
            forward: v(0, 0, 1000),
            focal_distance: 10000,
            auto_focus: AutoFocus::default(),
        },
        FocusCamera {
            position: v(0, 0, 0),
            forward: v(0, 0, -1000),
            focal_distance: 10000,
            auto_focus: AutoFocus { adjust_speed: 1000 },
        },
    ];
    let targets = vec![v(0, 0, 5000), v(1900, 0, 900)];
    auto_focus_dof_system(&mut cams, &targets, 100);
    assert_eq!(cams[0].focal_distance, 9000);
    // Second camera sees nothing: moves a tenth of the way to the fallback.
    assert_eq!(cams[1].focal_distance, 19000);
    assert_eq!(cams[1].forward, v(0, 0, -1000));
    assert_eq!(cams[0].position, v(0, 0, 0));
}

#[test]
fn focal_distance_reaches_target_at_short_frames() {
    // Speed 1 per second, one millisecond frames, 0.999 units short of the fallback.
    let mut cams = vec![FocusCamera {
        position: v(0, 0, 0),
        forward: v(0, 0, 1000),
        focal_distance: 99001,
        auto_focus: AutoFocus { adjust_speed: 1000 },
    }];
    let mut steps = 0;
    while cams[0].focal_distance != FALLBACK_FOCUS_DISTANCE {
        let before = cams[0].focal_distance;
        auto_focus_dof_system(&mut cams, &vec![], 1);
        assert!(cams[0].focal_distance > before);
        steps += 1;
    }
    assert_eq!(steps, 999);
}
