//! Ball locomotion: key input pushes the ball relative to its heading, a
//! spring holds it off the ground below, and damping opposes vertical motion.

use vstd::prelude::*;
use crate::fixed::{SCALE, COORD_LIMIT, div_trunc, mul_fixed, lemma_div_trunc_bound};
use crate::vec3::{Vec3, bounded, in_range, length, unit_of, minus};

verus! {

/// Spring-damper parameters of a ball, fixed-point.
#[derive(Clone, Copy, Debug, PartialEq, Eq, Structural)]
pub struct Ball {
    pub radius: i64,
    pub stiffness: i64,
    pub damping: i64,
}

/// Direction keys held this frame.
#[derive(Clone, Copy, Debug, PartialEq, Eq, Structural)]
pub struct KeyInput {
    pub forward: bool,
    pub back: bool,
    pub left: bool,
    pub right: bool,
}

/// What the controller reads of a ball each frame.
#[derive(Clone, Copy, Debug, PartialEq, Eq, Structural)]
pub struct BallState {
    pub position: Vec3,
    pub velocity: Vec3,
    /// The direction the ball faced after the previous frame.
    pub heading: Vec3,
}

/// What the controller writes back each frame.
#[derive(Clone, Copy, Debug, PartialEq, Eq, Structural)]
pub struct BallStep {
    /// The force to apply, replacing any earlier one, in millionths (`FORCE_SCALE`).
    pub force: Vec3,
    /// Always zero: spin is suppressed.
    pub angular_velocity: Vec3,
    /// The direction to face, with world up as the vertical reference.
    pub heading: Vec3,
}

/// Forces are counted in millionths of a unit, finer than positions: an `i64`
/// `f` stands for `f / FORCE_SCALE`. Key input has a gain of one thousandth,
/// so a key sum counted in thousandths is, as the same integer, a force in
/// millionths; spring and damping products of two thousandths are millionths.
pub const FORCE_SCALE: i64 = 1000000;

/// Parameters within the supported range.
pub open spec fn ball_wf(b: Ball) -> bool {
    -COORD_LIMIT <= b.radius <= COORD_LIMIT && -COORD_LIMIT <= b.stiffness <= COORD_LIMIT
        && -COORD_LIMIT <= b.damping <= COORD_LIMIT
}

/// A state the controller accepts: coordinates in range, heading of at most unit size.
pub open spec fn state_wf(s: BallState) -> bool {
    in_range(s.position) && in_range(s.velocity) && bounded(s.heading, SCALE as int)
}

/// The zero vector.
pub open spec fn zero_vec() -> Vec3 {
    Vec3 { x: 0, y: 0, z: 0 }
}

/// Facing direction: along the velocity, or the previous heading when the ball is still.
pub open spec fn heading_spec(velocity: Vec3, previous: Vec3) -> Vec3 {
    if velocity == zero_vec() {
        previous
    } else {
        unit_of(velocity)
    }
}

/// Horizontal direction to the right of `look`: `cross(look, up)` normalised.
pub open spec fn right_of(look: Vec3) -> Vec3 {
    unit_of(Vec3 { x: -look.z as i64, y: 0, z: look.x })
}

/// `c * s`, both fixed-point.
pub open spec fn scale_comp(c: int, s: int) -> int {
    div_trunc(c * s, SCALE as int)
}

/// Sum of the key contributions along one axis, before the gain: forward and
/// back along the heading, strafing along the right direction times the speed.
pub open spec fn key_sum(keys: KeyInput, look: int, right: int, speed: int) -> int {
    (if keys.forward { look } else { 0 }) - (if keys.back { look } else { 0 }) - (if keys.left {
        scale_comp(right, speed)
    } else {
        0
    }) + (if keys.right { scale_comp(right, speed) } else { 0 })
}

/// The key force in millionths: the key sum on each axis, in thousandths,
/// times the gain of one thousandth.
pub open spec fn input_force_spec(keys: KeyInput, look: Vec3, velocity: Vec3) -> Vec3 {
    let r = right_of(look);
    let s = length(velocity);
    Vec3 {
        x: key_sum(keys, look.x as int, r.x as int, s) as i64,
        y: key_sum(keys, look.y as int, r.y as int, s) as i64,
        z: key_sum(keys, look.z as int, r.z as int, s) as i64,
    }
}

/// How far the nominal radius reaches past the contact: `max(0, radius - distance)`.
pub open spec fn compression(radius: int, distance: int) -> int {
    if radius - distance > 0 {
        radius - distance
    } else {
        0
    }
}

/// Spring force away from the contact point, `stiffness * compression` in
/// size, in millionths.
pub open spec fn ground_spring_spec(origin: Vec3, contact: Vec3, ball: Ball) -> Vec3 {
    let delta = minus(contact, origin);
    let spring = ball.stiffness * compression(ball.radius as int, length(delta));
    let u = unit_of(delta);
    Vec3 {
        x: -scale_comp(u.x as int, spring) as i64,
        y: -scale_comp(u.y as int, spring) as i64,
        z: -scale_comp(u.z as int, spring) as i64,
    }
}

/// Vertical damping force: `-damping * velocity.y`, along up, in millionths.
pub open spec fn damping_force_spec(velocity: Vec3, ball: Ball) -> Vec3 {
    Vec3 { x: 0, y: (-(ball.damping * velocity.y)) as i64, z: 0 }
}

/// The sum of three vectors.
pub open spec fn sum3(a: Vec3, b: Vec3, c: Vec3) -> Vec3 {
    Vec3 {
        x: (a.x + b.x + c.x) as i64,
        y: (a.y + b.y + c.y) as i64,
        z: (a.z + b.z + c.z) as i64,
    }
}

/// One frame of the controller.
pub open spec fn ball_step_spec(s: BallState, ball: Ball, keys: KeyInput, contact: Option<Vec3>)
    -> BallStep {
    let look = heading_spec(s.velocity, s.heading);
    let spring = match contact {
        Some(c) => ground_spring_spec(s.position, c, ball),
        None => zero_vec(),
    };
    BallStep {
        force: sum3(
            input_force_spec(keys, look, s.velocity),
            spring,
            damping_force_spec(s.velocity, ball),
        ),
        angular_velocity: zero_vec(),
        heading: look,
    }
}

/// Facing direction: along the velocity, or `previous` when the ball is still.
pub fn heading(velocity: &Vec3, previous: &Vec3) -> (r: Vec3)
    requires
        in_range(*velocity),
        bounded(*previous, SCALE as int),
    ensures
        r == heading_spec(*velocity, *previous),
        bounded(r, SCALE as int),
{
    if velocity.x == 0 && velocity.y == 0 && velocity.z == 0 {
        *previous
    } else {
        velocity.unit()
    }
}

/// Horizontal unit direction to the right of `look`.
pub fn right_direction(look: &Vec3) -> (r: Vec3)
    requires
        bounded(*look, SCALE as int),
    ensures
        r == right_of(*look),
        bounded(r, SCALE as int),
{
    let side = Vec3 { x: -look.z, y: 0, z: look.x };
    side.unit()
}

/// Key contribution along one axis, before the gain.
fn key_component(keys: &KeyInput, look: i64, right: i64, speed: i64) -> (r: i64)
    requires
        -1000 <= look <= 1000,
        -1000 <= right <= 1000,
        0 <= speed <= 64000000,
    ensures
        r == key_sum(*keys, look as int, right as int, speed as int),
        -130000000000 <= r <= 130000000000,
{
    proof {
        assert(-64000000000 <= right * speed <= 64000000000) by (nonlinear_arith)
            requires
                -1000 <= right <= 1000,
                0 <= speed <= 64000000,
        ;
    }
    let strafe = mul_fixed(right, speed);
    proof {
        lemma_div_trunc_bound(right * speed, 1000, 64000000000);
    }
    let mut sum: i64 = 0;
    if keys.forward {
        sum = sum + look;
    }
    if keys.back {
        sum = sum - look;
    }
    if keys.left {
        sum = sum - strafe;
    }
    if keys.right {
        sum = sum + strafe;
    }
    sum
}

/// Force from the held keys, relative to `look` and scaled by the input gain.
pub fn input_force(keys: &KeyInput, look: &Vec3, velocity: &Vec3) -> (r: Vec3)
    requires
        bounded(*look, SCALE as int),
        in_range(*velocity),
    ensures
        r == input_force_spec(*keys, *look, *velocity),
        bounded(r, 130000000000),
{
    let right = right_direction(look);
    let speed = velocity.length();
    let x = key_component(keys, look.x, right.x, speed);
    let y = key_component(keys, look.y, right.y, speed);
    let z = key_component(keys, look.z, right.z, speed);
    Vec3 { x, y, z }
}

/// Spring force pushing the ball away from `contact`, in proportion to how far
/// the nominal radius reaches past it; zero when the contact is at or beyond
/// the radius, or at the ball's centre where no direction is defined.
pub fn ground_spring(origin: &Vec3, contact: &Vec3, ball: &Ball) -> (r: Vec3)
    requires
        in_range(*origin),
        in_range(*contact),
        ball_wf(*ball),
    ensures
        r == ground_spring_spec(*origin, *contact, *ball),
        bounded(r, 256000000000000),
{
    let delta = contact.sub(origin);
    let distance = delta.length();
    let comp: i64 = if ball.radius - distance > 0 {
        ball.radius - distance
    } else {
        0
    };
    assert(-256000000000000 <= ball.stiffness * comp <= 256000000000000) by (nonlinear_arith)
        requires
            -16000000 <= ball.stiffness <= 16000000,
            0 <= comp <= 16000000,
    ;
    let spring = ball.stiffness * comp;
    let u = delta.unit();
    assert(delta == minus(*contact, *origin));
    let x = scaled_component(u.x, spring);
    let y = scaled_component(u.y, spring);
    let z = scaled_component(u.z, spring);
    Vec3 { x: -x, y: -y, z: -z }
}

/// `c * spring` for a unit component `c`.
fn scaled_component(c: i64, spring: i64) -> (r: i64)
    requires
        -1000 <= c <= 1000,
        -256000000000000 <= spring <= 256000000000000,
    ensures
        r == scale_comp(c as int, spring as int),
        -256000000000000 <= r <= 256000000000000,
{
    assert(-256000000000000000 <= c * spring <= 256000000000000000) by (nonlinear_arith)
        requires
            -1000 <= c <= 1000,
            -256000000000000 <= spring <= 256000000000000,
    ;
    proof {
        lemma_div_trunc_bound(c * spring, 1000, 256000000000000000);
    }
    mul_fixed(c, spring)
}

/// Damping force opposing vertical velocity.
pub fn damping_force(velocity: &Vec3, ball: &Ball) -> (r: Vec3)
    requires
        in_range(*velocity),
        ball_wf(*ball),
    ensures
        r == damping_force_spec(*velocity, *ball),
        bounded(r, 256000000000000),
{
    assert(-256000000000000 <= ball.damping * velocity.y <= 256000000000000) by (nonlinear_arith)
        requires
            -16000000 <= ball.damping <= 16000000,
            -16000000 <= velocity.y <= 16000000,
    ;
    let d = ball.damping * velocity.y;
    Vec3 { x: 0, y: -d, z: 0 }
}

/// One frame of the controller: the force that replaces the previous one,
/// zero spin, and the direction to face. Without a ground contact the spring
/// term is left out.
pub fn ball_system(state: &BallState, ball: &Ball, keys: &KeyInput, contact: Option<Vec3>) -> (r:
    BallStep)
    requires
        state_wf(*state),
        ball_wf(*ball),
        contact matches Some(c) ==> in_range(c),
    ensures
        r == ball_step_spec(*state, *ball, *keys, contact),
        bounded(r.heading, SCALE as int),
{
    let look = heading(&state.velocity, &state.heading);
    let input = input_force(keys, &look, &state.velocity);
    let spring = match contact {
        Some(c) => ground_spring(&state.position, &c, ball),
        None => Vec3 { x: 0, y: 0, z: 0 },
    };
    let damp = damping_force(&state.velocity, ball);
    let force = Vec3 {
        x: input.x + spring.x + damp.x,
        y: input.y + spring.y + damp.y,
        z: input.z + spring.z + damp.z,
    };
    BallStep { force, angular_velocity: Vec3 { x: 0, y: 0, z: 0 }, heading: look }
}

/// No keys held.
pub open spec fn no_keys() -> KeyInput {
    KeyInput { forward: false, back: false, left: false, right: false }
}

/// When the contact lies at or beyond the nominal radius there is no
/// compression, and the spring contributes exactly the zero vector.
pub proof fn lemma_spring_zero_beyond_radius(origin: Vec3, contact: Vec3, ball: Ball)
    requires
        length(minus(contact, origin)) >= ball.radius,
    ensures
        ground_spring_spec(origin, contact, ball) == zero_vec(),
{
    let delta = minus(contact, origin);
    assert(compression(ball.radius as int, length(delta)) == 0);
    assert(ball.stiffness * 0 == 0);
    let u = unit_of(delta);
    assert(u.x * 0 == 0 && u.y * 0 == 0 && u.z * 0 == 0);
}

/// A ball at rest with no keys held is a fixed point of the controller: the
/// heading is kept, the force is the ground spring alone, and stepping again
/// from the state it leaves gives the same frame.
pub proof fn lemma_rest_is_fixed_point(s: BallState, ball: Ball, contact: Option<Vec3>)
    requires
        s.velocity == zero_vec(),
    ensures
        ({
            let r = ball_step_spec(s, ball, no_keys(), contact);
            let next = BallState { position: s.position, velocity: s.velocity, heading: r.heading };
            &&& r.heading == s.heading
            &&& r.angular_velocity == zero_vec()
            &&& r.force == match contact {
                Some(c) => ground_spring_spec(s.position, c, ball),
                None => zero_vec(),
            }
            &&& ball_step_spec(next, ball, no_keys(), contact) == r
        }),
{
    let look = heading_spec(s.velocity, s.heading);
    assert(look == s.heading);
    assert(ball.damping * 0 == 0);
    let inp = input_force_spec(no_keys(), look, s.velocity);
    assert(inp == zero_vec());
    assert(damping_force_spec(s.velocity, ball) == zero_vec());
}

} // verus!
