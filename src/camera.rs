//! Chase camera: the camera position decays exponentially toward a point above
//! the followed target, halving the gap every `1 / strength` seconds (each
//! step rounded up, so any elapsed time moves a camera that has not arrived),
//! and the camera always faces the target itself.

use vstd::prelude::*;
use crate::fixed::{COORD_LIMIT, FACTOR_SCALE, lerp_toward, lerp_fixed, lemma_lerp_toward_between};
use crate::vec3::{Vec3, in_range, minus};
use vstd::arithmetic::div_mod::{lemma_div_is_ordered, lemma_div_is_ordered_by_denominator,
    lemma_div_denominator, lemma_fundamental_div_mod};

verus! {

/// How a camera follows its target.
#[derive(Clone, Copy, Debug, PartialEq, Eq, Structural)]
pub struct FollowTarget {
    /// Decay rate in half-lives per second, fixed-point: the gap to the
    /// followed point halves every `1 / strength` seconds.
    pub strength: u32,
    /// Height added to the target's position before following, fixed-point.
    pub vertical_offset: i64,
}

/// A following camera: where it stands, where it faces, and how it follows.
#[derive(Clone, Copy, Debug, PartialEq, Eq, Structural)]
pub struct FollowCamera {
    pub position: Vec3,
    /// Direction from the position to the followed target.
    pub look_direction: Vec3,
    pub follow: FollowTarget,
}

/// Why no single target could be followed.
#[derive(Clone, Copy, Debug, PartialEq, Eq, Structural)]
pub enum FollowTargetError {
    NoTarget,
    ManyTargets,
}

/// `2^k`.
pub open spec fn two_to(k: nat) -> nat
    decreases k,
{
    if k == 0 {
        1
    } else {
        2 * two_to((k - 1) as nat)
    }
}

/// `2^(-j/64)` for `j` in `0..=64`, in billionths, rounded to nearest.
pub open spec fn decay_table(j: int) -> int {
    if j <= 0 {
        1000000000
    } else if j <= 1 {
        989228013
    } else if j <= 2 {
        978572062
    } else if j <= 3 {
        968030897
    } else if j <= 4 {
        957603281
    } else if j <= 5 {
        947287991
    } else if j <= 6 {
        937083817
    } else if j <= 7 {
        926989563
    } else if j <= 8 {
        917004043
    } else if j <= 9 {
        907126088
    } else if j <= 10 {
        897354538
    } else if j <= 11 {
        887688246
    } else if j <= 12 {
        878126080
    } else if j <= 13 {
        868666918
    } else if j <= 14 {
        859309649
    } else if j <= 15 {
        850053177
    } else if j <= 16 {
        840896415
    } else if j <= 17 {
        831838290
    } else if j <= 18 {
        822877739
    } else if j <= 19 {
        814013711
    } else if j <= 20 {
        805245166
    } else if j <= 21 {
        796571076
    } else if j <= 22 {
        787990423
    } else if j <= 23 {
        779502200
    } else if j <= 24 {
        771105413
    } else if j <= 25 {
        762799075
    } else if j <= 26 {
        754582214
    } else if j <= 27 {
        746453864
    } else if j <= 28 {
        738413073
    } else if j <= 29 {
        730458897
    } else if j <= 30 {
        722590403
    } else if j <= 31 {
        714806669
    } else if j <= 32 {
        707106781
    } else if j <= 33 {
        699489836
    } else if j <= 34 {
        691954941
    } else if j <= 35 {
        684501211
    } else if j <= 36 {
        677127773
    } else if j <= 37 {
        669833762
    } else if j <= 38 {
        662618322
    } else if j <= 39 {
        655480606
    } else if j <= 40 {
        648419777
    } else if j <= 41 {
        641435008
    } else if j <= 42 {
        634525479
    } else if j <= 43 {
        627690379
    } else if j <= 44 {
        620928906
    } else if j <= 45 {
        614240268
    } else if j <= 46 {
        607623680
    } else if j <= 47 {
        601078366
    } else if j <= 48 {
        594603558
    } else if j <= 49 {
        588198496
    } else if j <= 50 {
        581862429
    } else if j <= 51 {
        575594615
    } else if j <= 52 {
        569394317
    } else if j <= 53 {
        563260809
    } else if j <= 54 {
        557193371
    } else if j <= 55 {
        551191292
    } else if j <= 56 {
        545253866
    } else if j <= 57 {
        539380399
    } else if j <= 58 {
        533570200
    } else if j <= 59 {
        527822589
    } else if j <= 60 {
        522136891
    } else if j <= 61 {
        516512440
    } else if j <= 62 {
        510948574
    } else if j <= 63 {
        505444643
    } else {
        500000000
    }
}

/// Millionths of a half-life in one segment of the table.
pub const SEGMENT: u64 = 15625;

/// `2^(-f / 10^6)` in billionths for `f` in `[0, 10^6)`: the table joined by
/// straight lines, which stay within fifteen millionths of the curve.
pub open spec fn fraction_power(f: int) -> int {
    let j = f / (SEGMENT as int);
    let r = f % (SEGMENT as int);
    decay_table(j) - (decay_table(j) - decay_table(j + 1)) * r / (SEGMENT as int)
}

/// `2^(-x / 10^6)` rounded to the nearest millionth: whole half-lives
/// halve, the fraction of a half-life comes from the table.
pub open spec fn decay_remaining(x: int) -> int {
    (fraction_power(x % 1000000) / (two_to((x / 1000000) as nat) as int) + 500) / 1000
}

/// Half-lives elapsed in `dt` seconds at `strength` half-lives per second, in millionths.
pub open spec fn half_lives(dt: int, strength: int) -> int {
    dt * strength
}

/// The follow factor `1 - 2^(-dt * strength)` in millionths, rounded to the nearest.
pub open spec fn follow_factor_spec(dt: int, strength: int) -> int {
    FACTOR_SCALE - decay_remaining(half_lives(dt, strength))
}

/// The point the camera moves toward: `vertical_offset` above the target.
pub open spec fn follow_point(target: Vec3, vertical_offset: int) -> Vec3 {
    Vec3 { x: target.x, y: (target.y + vertical_offset) as i64, z: target.z }
}

/// Camera position after a step with factor `t`.
pub open spec fn follow_position(current: Vec3, goal: Vec3, t: int) -> Vec3 {
    Vec3 {
        x: lerp_toward(current.x as int, goal.x as int, t) as i64,
        y: lerp_toward(current.y as int, goal.y as int, t) as i64,
        z: lerp_toward(current.z as int, goal.z as int, t) as i64,
    }
}

/// The camera after one step of `dt` toward `target`.
pub open spec fn follow_step_spec(cam: FollowCamera, target: Vec3, dt: int) -> FollowCamera {
    let t = follow_factor_spec(dt, cam.follow.strength as int);
    let p = follow_position(cam.position, follow_point(target, cam.follow.vertical_offset as int), t);
    FollowCamera { position: p, look_direction: minus(target, p), follow: cam.follow }
}

/// The camera and target admit a step: both in range, and so the point followed.
pub open spec fn follow_wf(cam: FollowCamera, target: Vec3) -> bool {
    &&& in_range(cam.position)
    &&& in_range(target)
    &&& -COORD_LIMIT <= target.y + cam.follow.vertical_offset <= COORD_LIMIT
}

proof fn lemma_two_to_mono(a: nat, b: nat)
    requires
        a <= b,
    ensures
        1 <= two_to(a) <= two_to(b),
    decreases b,
{
    if b > a {
        lemma_two_to_mono(a, (b - 1) as nat);
    } else {
        lemma_two_to_pos(a);
    }
}

proof fn lemma_two_to_pos(k: nat)
    ensures
        two_to(k) >= 1,
    decreases k,
{
    if k > 0 {
        lemma_two_to_pos((k - 1) as nat);
    }
}

proof fn lemma_two_to_ge(k: nat)
    ensures
        two_to(k) >= 1,
        k >= 21 ==> two_to(k) >= 2097152,
        k >= 30 ==> two_to(k) >= 1073741824,
        k <= 29 ==> two_to(k) <= 536870912,
{
    reveal_with_fuel(two_to, 31);
    if k >= 30 {
        lemma_two_to_mono(30, k);
    } else if k >= 21 {
        lemma_two_to_mono(21, k);
        lemma_two_to_mono(k, 29);
    } else {
        lemma_two_to_mono(k, 29);
    }
}

/// `decay_table(j)`.
fn decay_table_exec(j: u64) -> (r: u64)
    ensures
        r == decay_table(j as int),
{
    if j <= 0 {
        1000000000
    } else if j <= 1 {
        989228013
    } else if j <= 2 {
        978572062
    } else if j <= 3 {
        968030897
    } else if j <= 4 {
        957603281
    } else if j <= 5 {
        947287991
    } else if j <= 6 {
        937083817
    } else if j <= 7 {
        926989563
    } else if j <= 8 {
        917004043
    } else if j <= 9 {
        907126088
    } else if j <= 10 {
        897354538
    } else if j <= 11 {
        887688246
    } else if j <= 12 {
        878126080
    } else if j <= 13 {
        868666918
    } else if j <= 14 {
        859309649
    } else if j <= 15 {
        850053177
    } else if j <= 16 {
        840896415
    } else if j <= 17 {
        831838290
    } else if j <= 18 {
        822877739
    } else if j <= 19 {
        814013711
    } else if j <= 20 {
        805245166
    } else if j <= 21 {
        796571076
    } else if j <= 22 {
        787990423
    } else if j <= 23 {
        779502200
    } else if j <= 24 {
        771105413
    } else if j <= 25 {
        762799075
    } else if j <= 26 {
        754582214
    } else if j <= 27 {
        746453864
    } else if j <= 28 {
        738413073
    } else if j <= 29 {
        730458897
    } else if j <= 30 {
        722590403
    } else if j <= 31 {
        714806669
    } else if j <= 32 {
        707106781
    } else if j <= 33 {
        699489836
    } else if j <= 34 {
        691954941
    } else if j <= 35 {
        684501211
    } else if j <= 36 {
        677127773
    } else if j <= 37 {
        669833762
    } else if j <= 38 {
        662618322
    } else if j <= 39 {
        655480606
    } else if j <= 40 {
        648419777
    } else if j <= 41 {
        641435008
    } else if j <= 42 {
        634525479
    } else if j <= 43 {
        627690379
    } else if j <= 44 {
        620928906
    } else if j <= 45 {
        614240268
    } else if j <= 46 {
        607623680
    } else if j <= 47 {
        601078366
    } else if j <= 48 {
        594603558
    } else if j <= 49 {
        588198496
    } else if j <= 50 {
        581862429
    } else if j <= 51 {
        575594615
    } else if j <= 52 {
        569394317
    } else if j <= 53 {
        563260809
    } else if j <= 54 {
        557193371
    } else if j <= 55 {
        551191292
    } else if j <= 56 {
        545253866
    } else if j <= 57 {
        539380399
    } else if j <= 58 {
        533570200
    } else if j <= 59 {
        527822589
    } else if j <= 60 {
        522136891
    } else if j <= 61 {
        516512440
    } else if j <= 62 {
        510948574
    } else if j <= 63 {
        505444643
    } else {
        500000000
    }
}

proof fn lemma_decay_table_step(j: int)
    ensures
        decay_table(j) >= decay_table(j + 1),
        500000000 <= decay_table(j) <= 1000000000,
{
}

proof fn lemma_decay_table_antitone(j1: int, j2: int)
    requires
        j1 <= j2,
    ensures
        decay_table(j1) >= decay_table(j2),
    decreases j2 - j1,
{
    if j1 < j2 {
        lemma_decay_table_step(j1);
        lemma_decay_table_antitone(j1 + 1, j2);
    }
}

/// `fraction_power(f)`.
fn fraction_power_exec(f: u64) -> (r: u64)
    requires
        f < 1000000,
    ensures
        r == fraction_power(f as int),
        500000000 <= r <= 1000000000,
{
    let j: u64 = f / 15625;
    let rem: u64 = f % 15625;
    let hi = decay_table_exec(j);
    let lo = decay_table_exec(j + 1);
    proof {
        lemma_fraction_power_range(f as int);
        lemma_decay_table_step(j as int);
        lemma_decay_table_step(j + 1);
        assert((hi - lo) * rem <= 500000000 * 15625) by (nonlinear_arith)
            requires
                0 <= hi - lo <= 500000000,
                rem < 15625,
        ;
    }
    hi - (hi - lo) * rem / 15625
}

/// The follow factor `1 - 2^(-dt * strength)` in millionths, rounded to the nearest.
pub fn follow_factor(dt: u32, strength: u32) -> (t: i64)
    ensures
        t == follow_factor_spec(dt as int, strength as int),
        0 <= t <= FACTOR_SCALE,
{
    assert((dt as u64) * (strength as u64) <= 0xffffffff * 0xffffffff) by (nonlinear_arith)
        requires
            dt <= 0xffffffff,
            strength <= 0xffffffff,
    ;
    let x: u64 = (dt as u64) * (strength as u64);
    let whole: u64 = x / 1000000;
    let base = fraction_power_exec(x % 1000000);
    let mut divisor: u64 = 1;
    let mut i: u64 = 0;
    let cap: u64 = if whole < 30 {
        whole
    } else {
        30
    };
    while i < cap
        invariant
            i <= cap <= 30,
            divisor == two_to(i as nat),
            1 <= divisor <= 1073741824,
        decreases cap - i,
    {
        proof {
            lemma_two_to_ge(i as nat);
            assert(two_to((i + 1) as nat) == 2 * two_to(i as nat));
        }
        divisor = divisor * 2;
        i = i + 1;
    }
    let scaled: u64 = if whole < 30 {
        base / divisor
    } else {
        0
    };
    proof {
        lemma_two_to_ge(whole as nat);
        if whole >= 30 {
            let d = two_to(whole as nat) as int;
            assert((base as int) / d == 0) by (nonlinear_arith)
                requires
                    0 <= base < d,
            ;
        } else {
            assert(base / divisor <= base) by (nonlinear_arith)
                requires
                    divisor >= 1,
            ;
        }
    }
    let remaining: u64 = (scaled + 500) / 1000;
    1000000 - remaining as i64
}

/// The camera after one step of `dt` toward `target`.
pub fn follow_step(cam: &FollowCamera, target: &Vec3, dt: u32) -> (r: FollowCamera)
    requires
        follow_wf(*cam, *target),
    ensures
        r == follow_step_spec(*cam, *target, dt as int),
        in_range(r.position),
{
    let t = follow_factor(dt, cam.follow.strength);
    let goal = Vec3 { x: target.x, y: target.y + cam.follow.vertical_offset, z: target.z };
    let p = Vec3 {
        x: lerp_fixed(cam.position.x, goal.x, t),
        y: lerp_fixed(cam.position.y, goal.y, t),
        z: lerp_fixed(cam.position.z, goal.z, t),
    };
    let look = target.sub(&p);
    FollowCamera { position: p, look_direction: look, follow: cam.follow }
}

/// The one position among `candidates`, or why there is not exactly one.
pub fn single_follow_target(candidates: &Vec<Vec3>) -> (r: Result<Vec3, FollowTargetError>)
    ensures
        candidates@.len() == 0 <==> r == Err::<Vec3, FollowTargetError>(FollowTargetError::NoTarget),
        candidates@.len() > 1 <==> r == Err::<Vec3, FollowTargetError>(
            FollowTargetError::ManyTargets,
        ),
        candidates@.len() == 1 <==> r == Ok::<Vec3, FollowTargetError>(candidates@[0]),
{
    if candidates.len() == 0 {
        Err(FollowTargetError::NoTarget)
    } else if candidates.len() > 1 {
        Err(FollowTargetError::ManyTargets)
    } else {
        Ok(candidates[0])
    }
}

/// Moves every camera one step of `dt` toward the single followed target.
/// Without exactly one target the cameras are left as they are.
pub fn camera_target_system(cameras: &mut Vec<FollowCamera>, targets: &Vec<Vec3>, dt: u32) -> (r:
    Result<(), FollowTargetError>)
    requires
        targets@.len() == 1 ==> forall|i: int|
            0 <= i < old(cameras)@.len() ==> follow_wf(#[trigger] old(cameras)@[i], targets@[0]),
    ensures
        final(cameras)@.len() == old(cameras)@.len(),
        targets@.len() == 0 ==> r == Err::<(), FollowTargetError>(FollowTargetError::NoTarget),
        targets@.len() > 1 ==> r == Err::<(), FollowTargetError>(FollowTargetError::ManyTargets),
        targets@.len() == 1 ==> r is Ok,
        r is Err ==> final(cameras)@ == old(cameras)@,
        r is Ok ==> forall|i: int|
            0 <= i < old(cameras)@.len() ==> #[trigger] final(cameras)@[i] == follow_step_spec(
                old(cameras)@[i],
                targets@[0],
                dt as int,
            ),
        r is Ok ==> forall|i: int|
            0 <= i < old(cameras)@.len() ==> in_range(#[trigger] final(cameras)@[i].position),
{
    let target = match single_follow_target(targets) {
        Ok(t) => t,
        Err(e) => {
            return Err(e);
        },
    };
    let ghost before = cameras@;
    let mut i: usize = 0;
    while i < cameras.len()
        invariant
            cameras@.len() == before.len(),
            i <= before.len(),
            target == targets@[0],
            forall|j: int| 0 <= j < before.len() ==> follow_wf(#[trigger] before[j], target),
            forall|j: int| i <= j < before.len() ==> cameras@[j] == before[j],
            forall|j: int|
                0 <= j < i ==> #[trigger] cameras@[j] == follow_step_spec(
                    before[j],
                    target,
                    dt as int,
                ),
            forall|j: int| 0 <= j < i ==> in_range(#[trigger] cameras@[j].position),
        decreases before.len() - i,
    {
        let cam = cameras[i];
        assert(follow_wf(before[i as int], target));
        let next = follow_step(&cam, &target, dt);
        cameras.set(i, next);
        i = i + 1;
    }
    Ok(())
}

/// The follow factor lies in `[0, 1]`, is zero when no time passes, is above
/// zero as soon as any time passes, and rounds to exactly one once twenty-one
/// half-lives have passed.
pub proof fn lemma_follow_factor_range(dt: int, strength: int)
    requires
        dt >= 0,
        strength >= 0,
    ensures
        0 <= follow_factor_spec(dt, strength) <= FACTOR_SCALE,
        dt == 0 ==> follow_factor_spec(dt, strength) == 0,
        strength == 0 ==> follow_factor_spec(dt, strength) == 0,
        dt * strength > 0 ==> follow_factor_spec(dt, strength) > 0,
        dt * strength >= 21000000 ==> follow_factor_spec(dt, strength) == FACTOR_SCALE,
{
    let x = half_lives(dt, strength);
    assert(dt * strength >= 0) by (nonlinear_arith)
        requires
            dt >= 0,
            strength >= 0,
    ;
    let f = x % 1000000;
    let k = x / 1000000;
    lemma_fraction_power_range(f);
    lemma_two_to_ge(k as nat);
    let d = two_to(k as nat) as int;
    let p = fraction_power(f);
    assert(0 <= p / d <= p) by (nonlinear_arith)
        requires
            0 <= p,
            d >= 1,
    ;
    if dt == 0 || strength == 0 {
        assert(dt * strength == 0) by (nonlinear_arith)
            requires
                dt == 0 || strength == 0,
        ;
        assert(f == 0 && k == 0);
        assert(two_to(0) == 1);
        assert(p / d == 1000000000) by (nonlinear_arith)
            requires
                d == 1,
                p == 1000000000,
        ;
    }
    if dt * strength >= 21000000 {
        assert(k >= 21);
        assert(p / d < 500) by (nonlinear_arith)
            requires
                0 <= p <= 1000000000,
                d >= 2097152,
        ;
    }
    if x > 0 {
        if k == 0 {
            assert(f == x && f >= 1);
            lemma_fraction_power_antitone(1, f);
            assert(fraction_power(1) == 999999311);
            assert(p / d <= p) by (nonlinear_arith)
                requires
                    0 <= p,
                    d >= 1,
            ;
        } else {
            assert(p / d <= 500000000) by (nonlinear_arith)
                requires
                    0 <= p <= 1000000000,
                    d >= 2,
            ;
        }
    }
}

/// The interpolated power of a fraction of a half-life lies between one half
/// and one, and is one at zero.
pub proof fn lemma_fraction_power_range(f: int)
    requires
        0 <= f < 1000000,
    ensures
        500000000 <= fraction_power(f) <= 1000000000,
        f == 0 ==> fraction_power(f) == 1000000000,
{
    let q = f / 15625;
    let r = f % 15625;
    let hi = decay_table(q);
    let lo = decay_table(q + 1);
    lemma_decay_table_step(q);
    lemma_decay_table_step(q + 1);
    if f == 0 {
        assert(q == 0 && r == 0);
        assert((hi - lo) * r == 0) by (nonlinear_arith)
            requires
                r == 0,
        ;
    }
    assert(0 <= (hi - lo) * r <= (hi - lo) * 15625) by (nonlinear_arith)
        requires
            hi >= lo,
            0 <= r < 15625,
    ;
    assert((hi - lo) * r / 15625 <= hi - lo) by (nonlinear_arith)
        requires
            0 <= (hi - lo) * r <= (hi - lo) * 15625,
    ;
}

/// A step with factor one lands exactly on the goal; a step with factor zero
/// stays exactly where it was.
pub proof fn lemma_follow_position_ends(current: Vec3, goal: Vec3)
    ensures
        follow_position(current, goal, FACTOR_SCALE as int) == goal,
        follow_position(current, goal, 0) == current,
{
    lemma_lerp_toward_between(current.x as int, goal.x as int, FACTOR_SCALE as int);
    lemma_lerp_toward_between(current.y as int, goal.y as int, FACTOR_SCALE as int);
    lemma_lerp_toward_between(current.z as int, goal.z as int, FACTOR_SCALE as int);
    lemma_lerp_toward_between(current.x as int, goal.x as int, 0);
    lemma_lerp_toward_between(current.y as int, goal.y as int, 0);
    lemma_lerp_toward_between(current.z as int, goal.z as int, 0);
}

/// After one step the camera stands exactly at the followed point once the
/// factor rounds to one (twenty-one half-lives or more), and exactly where it was
/// when no time passes.
pub proof fn lemma_follow_step_ends(cam: FollowCamera, target: Vec3, dt: int)
    requires
        dt >= 0,
    ensures
        dt * cam.follow.strength >= 21000000 ==> follow_step_spec(
            cam,
            target,
            dt,
        ).position == follow_point(target, cam.follow.vertical_offset as int),
        dt == 0 ==> follow_step_spec(cam, target, dt).position == cam.position,
{
    lemma_follow_factor_range(dt, cam.follow.strength as int);
    lemma_follow_position_ends(cam.position, follow_point(target, cam.follow.vertical_offset as int));
}

proof fn lemma_fraction_power_antitone(f1: int, f2: int)
    requires
        0 <= f1 <= f2 < 1000000,
    ensures
        fraction_power(f1) >= fraction_power(f2),
{
    let (q1, q2) = (f1 / 15625, f2 / 15625);
    let (r1, r2) = (f1 % 15625, f2 % 15625);
    lemma_div_is_ordered(f1, f2, 15625);
    lemma_fundamental_div_mod(f1, 15625);
    lemma_fundamental_div_mod(f2, 15625);
    lemma_decay_table_step(q1);
    lemma_decay_table_step(q2);
    let (hi1, lo1) = (decay_table(q1), decay_table(q1 + 1));
    let (hi2, lo2) = (decay_table(q2), decay_table(q2 + 1));
    assert(0 <= (hi1 - lo1) * r1 <= (hi1 - lo1) * 15625) by (nonlinear_arith)
        requires
            hi1 >= lo1,
            0 <= r1 < 15625,
    ;
    assert((hi1 - lo1) * r1 / 15625 <= hi1 - lo1) by (nonlinear_arith)
        requires
            0 <= (hi1 - lo1) * r1 <= (hi1 - lo1) * 15625,
    ;
    assert(0 <= (hi2 - lo2) * r2) by (nonlinear_arith)
        requires
            hi2 >= lo2,
            0 <= r2,
    ;
    assert(0 <= (hi2 - lo2) * r2 / 15625);
    if q1 == q2 {
        assert((hi1 - lo1) * r1 <= (hi1 - lo1) * r2) by (nonlinear_arith)
            requires
                hi1 >= lo1,
                r1 <= r2,
        ;
        lemma_div_is_ordered((hi1 - lo1) * r1, (hi1 - lo1) * r2, 15625);
    } else {
        lemma_decay_table_antitone(q1 + 1, q2);
    }
}

proof fn lemma_decay_remaining_antitone(x1: int, x2: int)
    requires
        0 <= x1 <= x2,
    ensures
        decay_remaining(x1) >= decay_remaining(x2),
{
    let (k1, k2) = (x1 / 1000000, x2 / 1000000);
    let (f1, f2) = (x1 % 1000000, x2 % 1000000);
    lemma_div_is_ordered(x1, x2, 1000000);
    lemma_fundamental_div_mod(x1, 1000000);
    lemma_fundamental_div_mod(x2, 1000000);
    lemma_fraction_power_range(f1);
    lemma_fraction_power_range(f2);
    let d1 = two_to(k1 as nat) as int;
    let d2 = two_to(k2 as nat) as int;
    lemma_two_to_pos(k1 as nat);
    let (p1, p2) = (fraction_power(f1), fraction_power(f2));
    if k1 == k2 {
        lemma_fraction_power_antitone(f1, f2);
        lemma_div_is_ordered(p2, p1, d1);
    } else {
        lemma_two_to_mono((k1 + 1) as nat, k2 as nat);
        assert(two_to((k1 + 1) as nat) == 2 * two_to(k1 as nat));
        lemma_div_is_ordered(p2, 1000000000, d2);
        lemma_div_is_ordered_by_denominator(1000000000, 2 * d1, d2);
        lemma_div_denominator(1000000000, 2, d1);
        lemma_div_is_ordered(500000000, p1, d1);
    }
    lemma_div_is_ordered(p2 / d2 + 500, p1 / d1 + 500, 1000);
}

/// The follow factor never decreases as more time passes, so the camera
/// closes at least as much of the gap in a longer frame.
pub proof fn lemma_follow_factor_monotone(dt1: int, dt2: int, strength: int)
    requires
        0 <= dt1 <= dt2,
        strength >= 0,
    ensures
        follow_factor_spec(dt1, strength) <= follow_factor_spec(dt2, strength),
{
    assert(0 <= dt1 * strength <= dt2 * strength) by (nonlinear_arith)
        requires
            0 <= dt1 <= dt2,
            strength >= 0,
    ;
    lemma_decay_remaining_antitone(half_lives(dt1, strength), half_lives(dt2, strength));
}

} // verus!
