use ball_chase::locomotion::{
    ball_system, damping_force, ground_spring, heading, input_force, right_direction, Ball,
    BallState, KeyInput,
};
use ball_chase::vec3::Vec3;

fn v(x: i64, y: i64, z: i64) -> Vec3 {
    Vec3::new(x, y, z)
}

fn keys(forward: bool, back: bool, left: bool, right: bool) -> KeyInput {
    KeyInput { forward, back, left, right }
}

#[test]
fn spring_is_zero_when_ground_beyond_radius() {
    let ball = Ball { radius: 500, stiffness: 300, damping: 5 };
    assert_eq!(ground_spring(&v(0, 1000, 0), &v(0, 0, 0), &ball), v(0, 0, 0));
}

#[test]
fn spring_pushes_up_when_compressed() {
    let ball = Ball { radius: 500, stiffness: 300, damping: 5 };
    assert_eq!(ground_spring(&v(0, 300, 0), &v(0, 0, 0), &ball), v(0, 60000, 0));
}

#[test]
fn spring_pushes_away_from_a_wall() {
    let ball = Ball { radius: 1000, stiffness: 2000, damping: 0 };
    // Wall 400 to the right: compression 0.6, spring 1.2, pushed left.
    assert_eq!(ground_spring(&v(0, 0, 0), &v(400, 0, 0), &ball), v(-1200000, 0, 0));
}

#[test]
fn spring_at_centre_has_no_direction() {
    let ball = Ball { radius: 500, stiffness: 300, damping: 5 };
    assert_eq!(ground_spring(&v(7, 8, 9), &v(7, 8, 9), &ball), v(0, 0, 0));
}

#[test]
fn heading_follows_velocity() {
    assert_eq!(heading(&v(0, 0, 2000), &v(1000, 0, 0)), v(0, 0, 1000));
    assert_eq!(heading(&v(3000, 0, 4000), &v(1000, 0, 0)), v(600, 0, 800));
}

#[test]
fn heading_held_when_still() {
    assert_eq!(heading(&v(0, 0, 0), &v(0, 0, -1000)), v(0, 0, -1000));
}

#[test]
fn right_direction_of_forward_axis() {
    assert_eq!(right_direction(&v(0, 0, 1000)), v(-1000, 0, 0));
    assert_eq!(right_direction(&v(0, 1000, 0)), v(0, 0, 0));
}

#[test]
fn input_force_from_each_key() {
    let look = v(0, 0, 1000);
    let vel = v(0, 0, 2000);
    assert_eq!(input_force(&keys(false, false, false, false), &look, &vel), v(0, 0, 0));
    assert_eq!(input_force(&keys(true, false, false, false), &look, &vel), v(0, 0, 1000));
    assert_eq!(input_force(&keys(false, true, false, false), &look, &vel), v(0, 0, -1000));
    assert_eq!(input_force(&keys(false, false, true, false), &look, &vel), v(2000, 0, 0));
    assert_eq!(input_force(&keys(false, false, false, true), &look, &vel), v(-2000, 0, 0));
    assert_eq!(input_force(&keys(true, true, true, true), &look, &vel), v(0, 0, 0));
}

#[test]
fn strafe_scales_with_speed() {
    let look = v(0, 0, 1000);
    let vel = v(0, 0, 50000);
    assert_eq!(input_force(&keys(false, false, false, true), &look, &vel), v(-50000, 0, 0));
}

#[test]
fn damping_opposes_vertical_velocity() {
    let ball = Ball { radius: 100, stiffness: 300, damping: 5 };
    assert_eq!(damping_force(&v(100, -2000, 100), &ball), v(0, 10000, 0));
    assert_eq!(damping_force(&v(0, 2000, 0), &ball), v(0, -10000, 0));
    // Slow vertical motion is still damped: 0.005 * 0.1 = 0.0005.
    assert_eq!(damping_force(&v(0, 100, 0), &ball), v(0, -500, 0));
}

#[test]
fn ball_step_sums_terms_and_clears_spin() {
    let ball = Ball { radius: 500, stiffness: 300, damping: 5 };
    let state = BallState { position: v(0, 300, 0), velocity: v(0, -2000, 0), heading: v(0, 0, 1000) };
    let step = ball_system(&state, &ball, &keys(false, false, false, false), Some(v(0, 0, 0)));
    assert_eq!(step.force, v(0, 70000, 0));
    assert_eq!(step.angular_velocity, v(0, 0, 0));
    assert_eq!(step.heading, v(0, -1000, 0));
}

#[test]
fn ball_step_without_contact_skips_spring() {
    let ball = Ball { radius: 500, stiffness: 300, damping: 5 };
    let state = BallState { position: v(0, 300, 0), velocity: v(0, 0, 2000), heading: v(1000, 0, 0) };
    let step = ball_system(&state, &ball, &keys(true, false, false, false), None);
    assert_eq!(step.force, v(0, 0, 1000));
    assert_eq!(step.heading, v(0, 0, 1000));
}

#[test]
fn resting_ball_is_a_fixed_point() {
    let ball = Ball { radius: 100, stiffness: 300, damping: 5 };
    let mut state = BallState { position: v(0, 80, 5000), velocity: v(0, 0, 0), heading: v(0, 0, 1000) };
    let none = keys(false, false, false, false);
    let first = ball_system(&state, &ball, &none, Some(v(0, 0, 5000)));
    assert_eq!(first.force, v(0, 6000, 0));
    for _ in 0..5 {
        state.heading = first.heading;
        let again = ball_system(&state, &ball, &none, Some(v(0, 0, 5000)));
        assert_eq!(again, first);
    }
}

#[test]
fn forward_key_on_an_oblique_heading() {
    let look = v(600, 0, 800);
    let vel = v(3000, 0, 4000);
    assert_eq!(input_force(&keys(true, false, false, false), &look, &vel), v(600, 0, 800));
}
