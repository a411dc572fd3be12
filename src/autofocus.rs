//! Depth-of-field auto-focus: pick the nearest target inside a cone in front of
//! the camera and move the focal distance toward it with a clamped linear step.

use vstd::prelude::*;
use crate::fixed::{SCALE, COORD_LIMIT, LENGTH_LIMIT, FACTOR_SCALE, lerp_toward, lerp_fixed,
    lemma_lerp_toward_between, magnitude};
use crate::vec3::{Vec3, bounded, in_range, dot, norm2, length, minus};

verus! {

/// Focal distance used when no target is eligible: one hundred units.
pub const FALLBACK_FOCUS_DISTANCE: i64 = 100000;

/// Per-camera auto-focus settings.
#[derive(Clone, Copy, Debug, PartialEq, Eq, Structural)]
pub struct AutoFocus {
    /// Fraction of the remaining gap closed per second, fixed-point.
    pub adjust_speed: u32,
}

impl Default for AutoFocus {
    fn default() -> (r: AutoFocus)
        ensures
            r.adjust_speed == 2 * SCALE,
    {
        AutoFocus { adjust_speed: 2000 }
    }
}

/// Marks a scene object that the auto-focus may pick.
#[derive(Clone, Copy, Debug, PartialEq, Eq, Structural)]
pub struct FocusTarget;

/// A camera whose lens focal distance the auto-focus adjusts.
#[derive(Clone, Copy, Debug, PartialEq, Eq, Structural)]
pub struct FocusCamera {
    pub position: Vec3,
    pub forward: Vec3,
    /// Lens focal distance, fixed-point.
    pub focal_distance: i64,
    pub auto_focus: AutoFocus,
}

/// The angle between `to_target` and `forward` is below sixty degrees:
/// their cosine exceeds one half, written without roots or division.
pub open spec fn in_focus_cone(to_target: Vec3, forward: Vec3) -> bool {
    dot(to_target, forward) > 0 && 4 * dot(to_target, forward) * dot(to_target, forward) > norm2(
        to_target,
    ) * norm2(forward)
}

/// The least distance of an eligible target, or `None` when no target is eligible.
pub open spec fn nearest_eligible(cam: Vec3, forward: Vec3, ts: Seq<Vec3>) -> Option<int>
    decreases ts.len(),
{
    if ts.len() == 0 {
        None
    } else {
        let rest = nearest_eligible(cam, forward, ts.drop_last());
        let t = ts.last();
        if in_focus_cone(minus(t, cam), forward) {
            let c = length(minus(t, cam));
            match rest {
                Some(r) if r <= c => Some(r),
                _ => Some(c),
            }
        } else {
            rest
        }
    }
}

/// The focus distance: that of the nearest eligible target, else the fallback.
pub open spec fn nearest_focus(cam: Vec3, forward: Vec3, ts: Seq<Vec3>) -> int {
    match nearest_eligible(cam, forward, ts) {
        Some(d) => d,
        None => FALLBACK_FOCUS_DISTANCE as int,
    }
}

/// Blend factor of one step in millionths: `adjust_speed * dt` (two
/// thousandths multiply to millionths exactly), clamped to one.
pub open spec fn focus_factor(adjust_speed: int, dt: int) -> int {
    if adjust_speed * dt < FACTOR_SCALE as int {
        adjust_speed * dt
    } else {
        FACTOR_SCALE as int
    }
}

/// Focal distance after one step of `dt` toward `target`.
pub open spec fn focus_step_spec(focal: int, target: int, adjust_speed: int, dt: int) -> int {
    lerp_toward(focal, target, focus_factor(adjust_speed, dt))
}

/// Whether `to_target` lies within the focus cone around `forward`.
pub fn is_in_focus_cone(to_target: &Vec3, forward: &Vec3) -> (r: bool)
    requires
        bounded(*to_target, 2 * COORD_LIMIT),
        in_range(*forward),
    ensures
        r == in_focus_cone(*to_target, *forward),
{
    let d = to_target.dot(forward);
    if d <= 0 {
        return false;
    }
    let a = to_target.norm2();
    let b = forward.norm2();
    proof {
        let (x, y, z) = (to_target.x as int, to_target.y as int, to_target.z as int);
        let (u, v, w) = (forward.x as int, forward.y as int, forward.z as int);
        assert(-32000000 * 16000000 <= x * u <= 32000000 * 16000000) by (nonlinear_arith)
            requires
                -32000000 <= x <= 32000000,
                -16000000 <= u <= 16000000,
        ;
        assert(-32000000 * 16000000 <= y * v <= 32000000 * 16000000) by (nonlinear_arith)
            requires
                -32000000 <= y <= 32000000,
                -16000000 <= v <= 16000000,
        ;
        assert(-32000000 * 16000000 <= z * w <= 32000000 * 16000000) by (nonlinear_arith)
            requires
                -32000000 <= z <= 32000000,
                -16000000 <= w <= 16000000,
        ;
        assert(4 * d * d <= 4 * 1536000000000000 * 1536000000000000) by (nonlinear_arith)
            requires
                0 < d <= 1536000000000000,
        ;
        assert(a * b <= 3072000000000000 * 3072000000000000) by (nonlinear_arith)
            requires
                0 <= a <= 3072000000000000,
                0 <= b <= 3072000000000000,
        ;
    }
    4 * d * d > (a as i128) * (b as i128)
}

/// Distance to the nearest target in the focus cone, or the fallback when
/// no target is eligible.
pub fn focus_target_distance(cam_pos: &Vec3, cam_forward: &Vec3, targets: &Vec<Vec3>) -> (r: i64)
    requires
        in_range(*cam_pos),
        in_range(*cam_forward),
        forall|i: int| 0 <= i < targets@.len() ==> in_range(#[trigger] targets@[i]),
    ensures
        r == nearest_focus(*cam_pos, *cam_forward, targets@),
        0 <= r <= LENGTH_LIMIT,
{
    let mut best: Option<i64> = None;
    let mut i: usize = 0;
    while i < targets.len()
        invariant
            i <= targets@.len(),
            in_range(*cam_pos),
            in_range(*cam_forward),
            forall|j: int| 0 <= j < targets@.len() ==> in_range(#[trigger] targets@[j]),
            nearest_eligible(*cam_pos, *cam_forward, targets@.subrange(0, i as int)) == match best {
                Some(b) => Some(b as int),
                None => None::<int>,
            },
            best matches Some(b) ==> 0 <= b <= LENGTH_LIMIT,
        decreases targets@.len() - i,
    {
        let t = targets[i];
        let to_target = t.sub(cam_pos);
        if is_in_focus_cone(&to_target, cam_forward) {
            let distance = to_target.length();
            best = match best {
                Some(b) if b <= distance => Some(b),
                _ => Some(distance),
            };
        }
        proof {
            let s = targets@.subrange(0, i + 1);
            assert(s.drop_last() =~= targets@.subrange(0, i as int));
            assert(s.last() == t);
            assert(minus(t, *cam_pos) == to_target);
        }
        i = i + 1;
    }
    assert(targets@.subrange(0, targets@.len() as int) =~= targets@);
    match best {
        Some(b) => b,
        None => FALLBACK_FOCUS_DISTANCE,
    }
}

/// Moves `focal` toward `target` by the clamped factor of one step.
pub fn focus_step(focal: i64, target: i64, adjust_speed: u32, dt: u32) -> (r: i64)
    requires
        -LENGTH_LIMIT <= focal <= LENGTH_LIMIT,
        -LENGTH_LIMIT <= target <= LENGTH_LIMIT,
    ensures
        r == focus_step_spec(focal as int, target as int, adjust_speed as int, dt as int),
        focal <= target ==> focal <= r <= target,
        target <= focal ==> target <= r <= focal,
{
    assert((adjust_speed as u64) * (dt as u64) <= 0xffffffff * 0xffffffff) by (nonlinear_arith)
        requires
            adjust_speed <= 0xffffffff,
            dt <= 0xffffffff,
    ;
    let p: u64 = (adjust_speed as u64) * (dt as u64);
    let k: i64 = if p < 1000000 {
        p as i64
    } else {
        1000000
    };
    lerp_fixed(focal, target, k)
}

/// Well-formed camera: coordinates and focal distance in range.
pub open spec fn camera_wf(c: FocusCamera) -> bool {
    in_range(c.position) && in_range(c.forward) && -LENGTH_LIMIT <= c.focal_distance
        <= LENGTH_LIMIT
}

/// Advances every camera's focal distance by one step of `dt` toward the
/// nearest eligible target; nothing else about a camera changes.
pub fn auto_focus_dof_system(cameras: &mut Vec<FocusCamera>, targets: &Vec<Vec3>, dt: u32)
    requires
        forall|i: int| 0 <= i < old(cameras)@.len() ==> camera_wf(#[trigger] old(cameras)@[i]),
        forall|i: int| 0 <= i < targets@.len() ==> in_range(#[trigger] targets@[i]),
    ensures
        final(cameras)@.len() == old(cameras)@.len(),
        forall|i: int|
            0 <= i < old(cameras)@.len() ==> {
                let c = #[trigger] old(cameras)@[i];
                let n = final(cameras)@[i];
                &&& n.position == c.position
                &&& n.forward == c.forward
                &&& n.auto_focus == c.auto_focus
                &&& n.focal_distance == focus_step_spec(
                    c.focal_distance as int,
                    nearest_focus(c.position, c.forward, targets@),
                    c.auto_focus.adjust_speed as int,
                    dt as int,
                )
                &&& camera_wf(n)
            },
{
    let ghost before = cameras@;
    let mut i: usize = 0;
    while i < cameras.len()
        invariant
            cameras@.len() == before.len(),
            i <= before.len(),
            forall|j: int| 0 <= j < before.len() ==> camera_wf(#[trigger] before[j]),
            forall|j: int| 0 <= j < targets@.len() ==> in_range(#[trigger] targets@[j]),
            forall|j: int| i <= j < before.len() ==> cameras@[j] == before[j],
            forall|j: int|
                0 <= j < i ==> {
                    let c = #[trigger] before[j];
                    let n = cameras@[j];
                    &&& n.position == c.position
                    &&& n.forward == c.forward
                    &&& n.auto_focus == c.auto_focus
                    &&& n.focal_distance == focus_step_spec(
                        c.focal_distance as int,
                        nearest_focus(c.position, c.forward, targets@),
                        c.auto_focus.adjust_speed as int,
                        dt as int,
                    )
                    &&& camera_wf(n)
                },
        decreases before.len() - i,
    {
        let mut cam = cameras[i];
        assert(camera_wf(before[i as int]));
        let target = focus_target_distance(&cam.position, &cam.forward, targets);
        cam.focal_distance = focus_step(
            cam.focal_distance,
            target,
            cam.auto_focus.adjust_speed,
            dt,
        );
        cameras.set(i, cam);
        i = i + 1;
    }
}

/// One auto-focus step never moves the focal distance by more than the gap
/// between it and the target: the clamped factor cannot overshoot.
pub proof fn lemma_focus_step_never_overshoots(focal: int, target: int, adjust_speed: int, dt: int)
    requires
        adjust_speed >= 0,
        dt >= 0,
    ensures
        ({
            let n = focus_step_spec(focal, target, adjust_speed, dt);
            &&& focal <= target ==> focal <= n <= target
            &&& target <= focal ==> target <= n <= focal
            &&& magnitude(n - focal) <= magnitude(target - focal)
        }),
{
    assert(adjust_speed * dt >= 0) by (nonlinear_arith)
        requires
            adjust_speed >= 0,
            dt >= 0,
    ;
    lemma_lerp_toward_between(focal, target, focus_factor(adjust_speed, dt));
}

/// Each auto-focus step leaves at most `1 - s` of the gap to the target, with
/// `s = min(adjust_speed * dt, 1)`; when `s` is above zero the gap strictly
/// shrinks, so repeated steps reach the target.
pub proof fn lemma_focus_step_closes_gap(focal: int, target: int, adjust_speed: int, dt: int)
    requires
        adjust_speed >= 0,
        dt >= 0,
    ensures
        ({
            let s = focus_factor(adjust_speed, dt);
            let n = focus_step_spec(focal, target, adjust_speed, dt);
            &&& magnitude(target - n) * FACTOR_SCALE <= magnitude(target - focal) * (FACTOR_SCALE
                - s)
            &&& s > 0 && focal != target ==> magnitude(target - n) < magnitude(target - focal)
            &&& adjust_speed * dt >= FACTOR_SCALE ==> n == target
        }),
{
    assert(adjust_speed * dt >= 0) by (nonlinear_arith)
        requires
            adjust_speed >= 0,
            dt >= 0,
    ;
    lemma_lerp_toward_between(focal, target, focus_factor(adjust_speed, dt));
}

/// With no target inside the focus cone, whatever the scene holds, the focus
/// distance chosen is exactly the fallback.
pub proof fn lemma_no_eligible_target_gives_fallback(cam: Vec3, forward: Vec3, ts: Seq<Vec3>)
    requires
        forall|i: int| 0 <= i < ts.len() ==> !in_focus_cone(minus(#[trigger] ts[i], cam), forward),
    ensures
        nearest_eligible(cam, forward, ts) is None,
        nearest_focus(cam, forward, ts) == FALLBACK_FOCUS_DISTANCE,
    decreases ts.len(),
{
    if ts.len() > 0 {
        let rest = ts.drop_last();
        assert forall|i: int| 0 <= i < rest.len() implies !in_focus_cone(
            minus(#[trigger] rest[i], cam),
            forward,
        ) by {
            assert(rest[i] == ts[i]);
        }
        lemma_no_eligible_target_gives_fallback(cam, forward, rest);
        assert(!in_focus_cone(minus(ts[ts.len() - 1], cam), forward));
    }
}

/// When some target is eligible, the focus distance is the distance of one
/// eligible target and no eligible target is nearer.
pub proof fn lemma_nearest_focus_is_minimum(cam: Vec3, forward: Vec3, ts: Seq<Vec3>)
    ensures
        nearest_eligible(cam, forward, ts) is None <==> forall|i: int|
            0 <= i < ts.len() ==> !in_focus_cone(minus(#[trigger] ts[i], cam), forward),
        nearest_eligible(cam, forward, ts) is Some ==> {
            &&& forall|i: int|
                0 <= i < ts.len() && in_focus_cone(minus(ts[i], cam), forward) ==> nearest_focus(
                    cam,
                    forward,
                    ts,
                ) <= length(minus(#[trigger] ts[i], cam))
            &&& exists|i: int|
                0 <= i < ts.len() && in_focus_cone(minus(ts[i], cam), forward) && nearest_focus(
                    cam,
                    forward,
                    ts,
                ) == length(minus(#[trigger] ts[i], cam))
        },
    decreases ts.len(),
{
    if ts.len() > 0 {
        let rest = ts.drop_last();
        let n = ts.len() - 1;
        lemma_nearest_focus_is_minimum(cam, forward, rest);
        assert forall|i: int| 0 <= i < n implies rest[i] == ts[i] by {}
        if nearest_eligible(cam, forward, rest) is Some {
            let i = choose|i: int|
                0 <= i < rest.len() && in_focus_cone(minus(rest[i], cam), forward) && nearest_focus(
                    cam,
                    forward,
                    rest,
                ) == length(minus(#[trigger] rest[i], cam));
            assert(rest[i] == ts[i]);
        }
        if nearest_eligible(cam, forward, ts) is None {
            assert forall|i: int| 0 <= i < ts.len() implies !in_focus_cone(
                minus(#[trigger] ts[i], cam),
                forward,
            ) by {
                if i < n {
                    assert(rest[i] == ts[i]);
                }
            }
        }
        if nearest_eligible(cam, forward, ts) is Some {
            assert forall|i: int|
                0 <= i < ts.len() && in_focus_cone(minus(ts[i], cam), forward) implies nearest_focus(
                cam,
                forward,
                ts,
            ) <= length(minus(#[trigger] ts[i], cam)) by {
                if i < n {
                    assert(rest[i] == ts[i]);
                }
            }
        }
    } else {
        assert(nearest_eligible(cam, forward, ts) is None);
    }
}

} // verus!
