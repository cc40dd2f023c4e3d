//! Geometry and prediction helpers.
//!
//! Vectors are integer 3D points whose `z` component is only a drawing
//! layer; gameplay distances are planar. The intercept solver treats a
//! target as moving linearly and finds where a constant-speed projectile
//! fired now can meet it, by the quadratic the distance equation expands to.

use vstd::prelude::*;
use crate::intmath::clamp_abs;
use crate::intmath::div_trunc128;
use crate::intmath::is_sqrt_floor;
use crate::intmath::isqrt;
use crate::intmath::lemma_sqrt_floor;
use vstd::arithmetic::div_mod::lemma_div_of0;
use crate::intmath::lemma_tdiv_bounds;
use crate::intmath::lemma_tdiv_le;
use crate::intmath::lemma_mul_range;
use crate::intmath::lemma_tdiv_sq;
use crate::intmath::sqrt_floor;
use crate::intmath::tdiv;

verus! {

/// Componentwise bound on every stored position.
pub const POS_LIMIT: i64 = 2097152;

/// Componentwise bound on every stored velocity (world units per second).
pub const VEL_LIMIT: i64 = 2097152;

/// Componentwise bound on every stored acceleration.
pub const ACC_LIMIT: i64 = 2097152;

/// Aim directions may point far outside the arena (the intercept solver
/// extrapolates), so they carry a wider componentwise bound.
pub const AIM_LIMIT: i64 = 2199023255552;

/// The intercept point is clamped componentwise into this bound.
pub const PRED_LIMIT: i64 = 1099511627776;

/// Bound on the positions handed to the intercept solver.
pub const PRED_IN_LIMIT: i64 = 67108864;

/// Bound on the coordinates and radii handed to the circle-overlap test.
pub const GEOM_LIMIT: i64 = 2199023255552;

/// Bound on the velocities handed to the speed clamp.
pub const CLAMP_IN_LIMIT: i64 = 33554432;

/// An integer 3D vector. `x` and `y` are the gameplay plane; `z` is a
/// fixed depth layer that only orders drawing.
#[derive(Clone, Copy, PartialEq, Eq, Structural, Debug)]
pub struct V3 {
    pub x: i64,
    pub y: i64,
    pub z: i64,
}

impl V3 {
    /// Every component lies in `[-m, m]`.
    pub open spec fn in_box(self, m: int) -> bool {
        &&& -m <= self.x <= m
        &&& -m <= self.y <= m
        &&& -m <= self.z <= m
    }

    /// Squared 3D length.
    pub open spec fn len_sq(self) -> int {
        self.x * self.x + self.y * self.y + self.z * self.z
    }

}

/// The same point moved onto the gameplay plane: `z` zeroed out.
pub open spec fn project_to_plane(v: V3) -> V3 {
    V3 { x: v.x, y: v.y, z: 0 }
}

/// Types that can be projected onto the X-Y plane while staying themselves.
pub trait Projection: Sized {
    fn reduce(&self) -> Self;
}

impl Projection for V3 {
    /// Project the vector onto the X-Y plane, but remain a `V3`.
    fn reduce(&self) -> (r: V3)
        ensures
            r == project_to_plane(*self),
    {
        V3 { x: self.x, y: self.y, z: 0 }
    }
}

/// Squared distance in the gameplay plane (the depth component is dropped
/// before distancing).
pub open spec fn planar_dist_sq(a: V3, b: V3) -> int {
    (a.x - b.x) * (a.x - b.x) + (a.y - b.y) * (a.y - b.y)
}

/// Two circles overlap when their planar squared distance is at most the
/// square of the sum of their radii (an inclusive boundary).
pub open spec fn circles_overlap(a_pos: V3, a_r: int, b_pos: V3, b_r: int) -> bool {
    planar_dist_sq(a_pos, b_pos) <= (a_r + b_r) * (a_r + b_r)
}

/// Circle overlap is symmetric in its two circles.
pub proof fn lemma_circles_overlap_symmetric(a_pos: V3, a_r: int, b_pos: V3, b_r: int)
    ensures
        circles_overlap(a_pos, a_r, b_pos, b_r) == circles_overlap(b_pos, b_r, a_pos, a_r),
{
    assert(planar_dist_sq(a_pos, b_pos) == planar_dist_sq(b_pos, a_pos)) by (nonlinear_arith);
}

/// A planar distance exactly equal to the radius sum still counts as
/// overlap: the boundary is inclusive.
pub proof fn lemma_circles_overlap_boundary(a_pos: V3, a_r: int, b_pos: V3, b_r: int)
    requires
        planar_dist_sq(a_pos, b_pos) == (a_r + b_r) * (a_r + b_r),
    ensures
        circles_overlap(a_pos, a_r, b_pos, b_r),
{
}

/// Whether the circle at `a_pos` with radius `a_r` overlaps the circle at
/// `b_pos` with radius `b_r`, in the gameplay plane.
pub fn circle_intersection(a_pos: V3, a_r: i64, b_pos: V3, b_r: i64) -> (r: bool)
    requires
        a_pos.in_box(GEOM_LIMIT as int),
        b_pos.in_box(GEOM_LIMIT as int),
        0 <= a_r <= GEOM_LIMIT,
        0 <= b_r <= GEOM_LIMIT,
    ensures
        r == circles_overlap(a_pos, a_r as int, b_pos, b_r as int),
{
    let dx = (a_pos.x - b_pos.x) as i128;
    let dy = (a_pos.y - b_pos.y) as i128;
    let min_dist = (a_r + b_r) as i128;
    proof {
        assert(dx * dx <= (GEOM_LIMIT as int * 2) * (GEOM_LIMIT as int * 2) && dx * dx >= 0)
            by (nonlinear_arith)
            requires
                -(GEOM_LIMIT as int * 2) <= dx <= GEOM_LIMIT as int * 2,
        ;
        assert(dy * dy <= (GEOM_LIMIT as int * 2) * (GEOM_LIMIT as int * 2) && dy * dy >= 0)
            by (nonlinear_arith)
            requires
                -(GEOM_LIMIT as int * 2) <= dy <= GEOM_LIMIT as int * 2,
        ;
        assert(min_dist * min_dist <= (GEOM_LIMIT as int * 2) * (GEOM_LIMIT as int * 2)
            && min_dist * min_dist >= 0) by (nonlinear_arith)
            requires
                0 <= min_dist <= GEOM_LIMIT as int * 2,
        ;
    }
    dx * dx + dy * dy <= min_dist * min_dist
}

/// The vector rescaled to length `s` (rounding toward zero), or the `+X`
/// axis scaled by `s` when the vector is zero: the fixed fallback every
/// degenerate normalization uses.
pub open spec fn scale_spec(v: V3, s: int) -> V3 {
    if v.x == 0 && v.y == 0 && v.z == 0 {
        V3 { x: s as i64, y: 0, z: 0 }
    } else {
        let l = sqrt_floor(v.len_sq());
        V3 {
            x: tdiv(v.x * s, l) as i64,
            y: tdiv(v.y * s, l) as i64,
            z: tdiv(v.z * s, l) as i64,
        }
    }
}

/// Rescale `v` to length `s` (truncated), with the `+X` fallback for the
/// zero vector. The result is componentwise bounded by `s`.
pub fn scale_to_length(v: V3, s: i64) -> (r: V3)
    requires
        v.in_box(AIM_LIMIT as int),
        0 <= s <= VEL_LIMIT,
    ensures
        r == scale_spec(v, s as int),
        r.in_box(s as int),
{
    if v.x == 0 && v.y == 0 && v.z == 0 {
        return V3 { x: s, y: 0, z: 0 };
    }
    let xi = v.x as i128;
    let yi = v.y as i128;
    let zi = v.z as i128;
    proof {
        lemma_comp_sq_bound(xi as int, AIM_LIMIT as int);
        lemma_comp_sq_bound(yi as int, AIM_LIMIT as int);
        lemma_comp_sq_bound(zi as int, AIM_LIMIT as int);
    }
    let n = xi * xi + yi * yi + zi * zi;
    proof {
        assert(n >= 1) by (nonlinear_arith)
            requires
                n == xi * xi + yi * yi + zi * zi,
                !(xi == 0 && yi == 0 && zi == 0),
        ;
    }
    let l = isqrt(n as u128);
    proof {
        assert(l as int >= 1) by (nonlinear_arith)
            requires
                is_sqrt_floor(n as int, l as int),
                n as int >= 1,
        ;
    }
    let li = l as i128;
    let rx = scale_axis(xi, s, li, Ghost(n as int));
    let ry = scale_axis(yi, s, li, Ghost(n as int));
    let rz = scale_axis(zi, s, li, Ghost(n as int));
    V3 { x: rx, y: ry, z: rz }
}

/// `|x| <= m` gives `x * x <= m * m`.
proof fn lemma_comp_sq_bound(x: int, m: int)
    requires
        -m <= x <= m,
    ensures
        0 <= x * x <= m * m,
{
    assert(0 <= x * x <= m * m) by (nonlinear_arith)
        requires
            -m <= x <= m,
    ;
}

/// One axis of the rescale: `x * s / l`, truncated; bounded by `s` because
/// `|x| <= l` whenever `x*x` is a summand of `n` and `l` is `n`'s root.
fn scale_axis(x: i128, s: i64, l: i128, n: Ghost<int>) -> (r: i64)
    requires
        0 <= s <= VEL_LIMIT,
        1 <= l <= 0x1_0000_0000_0000_0000i128,
        x * x <= n@,
        is_sqrt_floor(n@, l as int),
    ensures
        r as int == tdiv(x as int * s as int, l as int),
        -s <= r <= s,
{
    proof {
        assert(-(l as int) <= x as int <= l as int) by (nonlinear_arith)
            requires
                x * x <= n@,
                is_sqrt_floor(n@, l as int),
        ;
        assert(-(s as int * l as int) <= x as int * s as int <= s as int * l as int)
            by (nonlinear_arith)
            requires
                -(l as int) <= x as int <= l as int,
                0 <= s as int,
        ;
        lemma_tdiv_le(x as int * s as int, s as int, l as int);
        assert(s as int * l as int <= 2097152 * 0x1_0000_0000_0000_0000) by (nonlinear_arith)
            requires
                0 <= s as int <= 2097152,
                1 <= l as int <= 0x1_0000_0000_0000_0000,
        ;
    }
    let p = x * s as i128;
    let q = div_trunc128(p, l);
    q as i64
}

/// The velocity clamp: unchanged while the squared speed is within
/// `max * max`, otherwise rescaled to a length at most `max` by dividing by
/// one more than the floor root of the squared speed.
pub open spec fn clamp_speed_spec(v: V3, max: int) -> V3 {
    if v.len_sq() <= max * max {
        v
    } else {
        let u = sqrt_floor(v.len_sq()) + 1;
        V3 {
            x: tdiv(v.x * max, u) as i64,
            y: tdiv(v.y * max, u) as i64,
            z: tdiv(v.z * max, u) as i64,
        }
    }
}

/// Clamp a velocity's magnitude to `max`. The result's squared length
/// never exceeds `max * max`, and each component stays within `max`.
pub fn clamp_speed(v: V3, max: i64) -> (r: V3)
    requires
        v.in_box(CLAMP_IN_LIMIT as int),
        0 <= max <= VEL_LIMIT,
    ensures
        r == clamp_speed_spec(v, max as int),
        r.in_box(max as int),
        r.len_sq() <= max * max,
{
    let xi = v.x as i128;
    let yi = v.y as i128;
    let zi = v.z as i128;
    proof {
        lemma_comp_sq_bound(xi as int, CLAMP_IN_LIMIT as int);
        lemma_comp_sq_bound(yi as int, CLAMP_IN_LIMIT as int);
        lemma_comp_sq_bound(zi as int, CLAMP_IN_LIMIT as int);
    }
    let n = xi * xi + yi * yi + zi * zi;
    let maxi = max as i128;
    proof {
        lemma_comp_sq_bound(maxi as int, VEL_LIMIT as int);
    }
    if n <= maxi * maxi {
        proof {
            lemma_within_box_of_len(v, max as int);
        }
        v
    } else {
        let l = isqrt(n as u128);
        proof {
            assert(n as int >= 1) by (nonlinear_arith)
                requires
                    n as int > (maxi as int) * (maxi as int),
                    0 <= maxi as int,
            ;
            assert(l as int >= 1) by (nonlinear_arith)
                requires
                    is_sqrt_floor(n as int, l as int),
                    n as int >= 1,
            ;
        }
        let u = (l as i128) + 1;
        let rx = clamp_axis(xi, max, u, Ghost(n as int));
        let ry = clamp_axis(yi, max, u, Ghost(n as int));
        let rz = clamp_axis(zi, max, u, Ghost(n as int));
        let r = V3 { x: rx, y: ry, z: rz };
        proof {
            lemma_clamped_len(
                xi as int,
                yi as int,
                zi as int,
                rx as int,
                ry as int,
                rz as int,
                max as int,
                u as int,
                n as int,
            );
        }
        r
    }
}

/// A vector whose squared length is within `m * m` is componentwise within
/// `m`.
proof fn lemma_within_box_of_len(v: V3, m: int)
    requires
        v.len_sq() <= m * m,
        0 <= m,
    ensures
        v.in_box(m),
{
    assert(-m <= v.x <= m && -m <= v.y <= m && -m <= v.z <= m) by (nonlinear_arith)
        requires
            v.x * v.x + v.y * v.y + v.z * v.z <= m * m,
            0 <= m,
    ;
}

/// One axis of the speed clamp.
fn clamp_axis(x: i128, max: i64, u: i128, n: Ghost<int>) -> (r: i64)
    requires
        0 <= max <= VEL_LIMIT,
        2 <= u <= 0x1_0000_0000_0000_0001i128,
        x * x <= n@,
        is_sqrt_floor(n@, u as int - 1),
    ensures
        r as int == tdiv(x as int * max as int, u as int),
        -max <= r <= max,
{
    proof {
        assert(-(u as int) <= x as int <= u as int) by (nonlinear_arith)
            requires
                x * x <= n@,
                is_sqrt_floor(n@, u as int - 1),
        ;
        assert(-(max as int * u as int) <= x as int * max as int <= max as int * u as int)
            by (nonlinear_arith)
            requires
                -(u as int) <= x as int <= u as int,
                0 <= max as int,
        ;
        lemma_tdiv_le(x as int * max as int, max as int, u as int);
        assert(max as int * u as int <= 2097152 * 0x1_0000_0000_0000_0001) by (nonlinear_arith)
            requires
                0 <= max as int <= 2097152,
                2 <= u as int <= 0x1_0000_0000_0000_0001,
        ;
    }
    let p = x * max as i128;
    let q = div_trunc128(p, u);
    q as i64
}

/// Summing the per-axis truncation bounds: the rescaled vector's squared
/// length stays within `max * max`.
proof fn lemma_clamped_len(
    x: int,
    y: int,
    z: int,
    rx: int,
    ry: int,
    rz: int,
    max: int,
    u: int,
    n: int,
)
    requires
        0 <= max,
        2 <= u,
        n == x * x + y * y + z * z,
        n < u * u,
        rx == tdiv(x * max, u),
        ry == tdiv(y * max, u),
        rz == tdiv(z * max, u),
    ensures
        rx * rx + ry * ry + rz * rz <= max * max,
{
    lemma_tdiv_sq(x * max, u);
    lemma_tdiv_sq(y * max, u);
    lemma_tdiv_sq(z * max, u);
    assert((x * max) * (x * max) == (x * x) * (max * max)) by (nonlinear_arith);
    assert((y * max) * (y * max) == (y * y) * (max * max)) by (nonlinear_arith);
    assert((z * max) * (z * max) == (z * z) * (max * max)) by (nonlinear_arith);
    let sum = rx * rx + ry * ry + rz * rz;
    assert(0 <= n) by (nonlinear_arith)
        requires
            n == x * x + y * y + z * z,
    ;
    assert(0 <= sum) by (nonlinear_arith)
        requires
            sum == rx * rx + ry * ry + rz * rz,
    ;
    assert(sum * (u * u) <= n * (max * max)) by (nonlinear_arith)
        requires
            rx * rx * (u * u) <= (x * x) * (max * max),
            ry * ry * (u * u) <= (y * y) * (max * max),
            rz * rz * (u * u) <= (z * z) * (max * max),
            sum == rx * rx + ry * ry + rz * rz,
            n == x * x + y * y + z * z,
    ;
    assert(sum <= max * max) by (nonlinear_arith)
        requires
            sum * (u * u) <= n * (max * max),
            n < u * u,
            0 <= n,
            2 <= u,
            0 <= max,
            0 <= sum,
    ;
}

/// Quadratic coefficient of the intercept equation:
/// `|target_vel|^2 - proj_speed^2`.
pub open spec fn predict_a(target_vel: V3, proj_speed: int) -> int {
    target_vel.len_sq() - proj_speed * proj_speed
}

/// Linear coefficient of the intercept equation:
/// `2 * target_vel . (target_pos - proj_pos)`.
pub open spec fn predict_b(target_pos: V3, target_vel: V3, proj_pos: V3) -> int {
    2 * (target_vel.x * (target_pos.x - proj_pos.x) + target_vel.y * (target_pos.y - proj_pos.y)
        + target_vel.z * (target_pos.z - proj_pos.z))
}

/// Constant coefficient of the intercept equation:
/// `|target_pos - proj_pos|^2`.
pub open spec fn predict_c(target_pos: V3, proj_pos: V3) -> int {
    (target_pos.x - proj_pos.x) * (target_pos.x - proj_pos.x) + (target_pos.y - proj_pos.y) * (
    target_pos.y - proj_pos.y) + (target_pos.z - proj_pos.z) * (target_pos.z - proj_pos.z)
}

/// Discriminant of the intercept equation.
pub open spec fn predict_disc(target_pos: V3, target_vel: V3, proj_pos: V3, proj_speed: int) -> int {
    let a = predict_a(target_vel, proj_speed);
    let b = predict_b(target_pos, target_vel, proj_pos);
    let c = predict_c(target_pos, proj_pos);
    b * b - 4 * a * c
}

/// Positive denominator shared by both intercept-time roots (meaningful
/// when the quadratic coefficient is nonzero).
pub open spec fn predict_den(target_vel: V3, proj_speed: int) -> int {
    let a = predict_a(target_vel, proj_speed);
    if a > 0 {
        2 * a
    } else {
        -2 * a
    }
}

/// The smaller root numerator over `predict_den`.
pub open spec fn predict_num_lo(target_pos: V3, target_vel: V3, proj_pos: V3, proj_speed: int) -> int {
    let b = predict_b(target_pos, target_vel, proj_pos);
    let rt = sqrt_floor(predict_disc(target_pos, target_vel, proj_pos, proj_speed));
    if predict_a(target_vel, proj_speed) > 0 {
        -b - rt
    } else {
        b - rt
    }
}

/// The larger root numerator over `predict_den`.
pub open spec fn predict_num_hi(target_pos: V3, target_vel: V3, proj_pos: V3, proj_speed: int) -> int {
    let b = predict_b(target_pos, target_vel, proj_pos);
    let rt = sqrt_floor(predict_disc(target_pos, target_vel, proj_pos, proj_speed));
    if predict_a(target_vel, proj_speed) > 0 {
        -b + rt
    } else {
        b + rt
    }
}

/// Numerator of the chosen intercept time: the smaller root when it is in
/// the future (nonnegative), else the larger; none when both roots lie in
/// the past.
pub open spec fn predict_time_num(
    target_pos: V3,
    target_vel: V3,
    proj_pos: V3,
    proj_speed: int,
) -> Option<int> {
    let n1 = predict_num_lo(target_pos, target_vel, proj_pos, proj_speed);
    let n2 = predict_num_hi(target_pos, target_vel, proj_pos, proj_speed);
    if n1 >= 0 {
        Option::Some(n1)
    } else if n2 >= 0 {
        Option::Some(n2)
    } else {
        Option::None
    }
}

/// The intercept point: `target_pos + target_vel * t` at the chosen root
/// time `t` (componentwise truncated, clamped into `PRED_LIMIT`); none when
/// the quadratic degenerates, the target is unreachable at that speed, or
/// every root time is negative.
pub open spec fn predict_spec(
    target_pos: V3,
    target_vel: V3,
    proj_pos: V3,
    proj_speed: int,
) -> Option<V3> {
    let a = predict_a(target_vel, proj_speed);
    if a == 0 {
        Option::None
    } else if predict_disc(target_pos, target_vel, proj_pos, proj_speed) < 0 {
        Option::None
    } else {
        match predict_time_num(target_pos, target_vel, proj_pos, proj_speed) {
            Option::None => Option::None,
            Option::Some(n) => {
                let d = predict_den(target_vel, proj_speed);
                Option::Some(
                    V3 {
                        x: clamp_abs(target_pos.x + tdiv(target_vel.x * n, d), PRED_LIMIT as int) as i64,
                        y: clamp_abs(target_pos.y + tdiv(target_vel.y * n, d), PRED_LIMIT as int) as i64,
                        z: clamp_abs(target_pos.z + tdiv(target_vel.z * n, d), PRED_LIMIT as int) as i64,
                    },
                )
            },
        }
    }
}

/// One axis of the intercept point: `tpx + tvx * n / den`, truncated and
/// clamped into `PRED_LIMIT`.
fn intercept_axis(tpx: i64, tvx: i64, n: i128, den: i128) -> (r: i64)
    requires
        -67108864 <= tpx <= 67108864,
        -2097152 <= tvx <= 2097152,
        0 <= n <= 9007199254740992,
        1 <= den,
    ensures
        r as int == clamp_abs(tpx as int + tdiv(tvx as int * n as int, den as int), PRED_LIMIT as int),
{
    proof {
        assert(-18889465931478580854784 <= (tvx as int) * (n as int) <= 18889465931478580854784)
            by (nonlinear_arith)
            requires
                -2097152 <= tvx as int <= 2097152,
                0 <= n as int <= 9007199254740992,
        ;
        assert(18889465931478580854784 * (den as int) >= 18889465931478580854784)
            by (nonlinear_arith)
            requires
                1 <= den as int,
        ;
        lemma_tdiv_le((tvx as int) * (n as int), 18889465931478580854784, den as int);
    }
    let p = (tvx as i128) * n;
    let off = div_trunc128(p, den);
    let val = (tpx as i128) + off;
    let lim = PRED_LIMIT as i128;
    let clamped = if val > lim {
        lim
    } else if val < -lim {
        -lim
    } else {
        val
    };
    clamped as i64
}

/// Finds the future position of a moving target at which a projectile
/// fired now from `proj_pos` at `proj_speed` can meet it, treating the
/// target as moving linearly. Returns the smaller nonnegative-time root's
/// position; `None` when the quadratic degenerates, the discriminant is
/// negative (target unreachable at that speed) or both roots lie in the
/// past. Due to the complexity of this function, it should be used
/// sparingly.
pub fn predict(target_pos: V3, target_vel: V3, proj_pos: V3, proj_speed: i64) -> (r: Option<V3>)
    requires
        target_pos.in_box(PRED_IN_LIMIT as int),
        proj_pos.in_box(PRED_IN_LIMIT as int),
        target_vel.in_box(VEL_LIMIT as int),
        0 <= proj_speed <= VEL_LIMIT,
    ensures
        r == predict_spec(target_pos, target_vel, proj_pos, proj_speed as int),
        r is Some ==> r->Some_0.in_box(PRED_LIMIT as int),
{
    let tvx = target_vel.x as i128;
    let tvy = target_vel.y as i128;
    let tvz = target_vel.z as i128;
    let dx = (target_pos.x - proj_pos.x) as i128;
    let dy = (target_pos.y - proj_pos.y) as i128;
    let dz = (target_pos.z - proj_pos.z) as i128;
    let si = proj_speed as i128;
    proof {
        lemma_comp_sq_bound(tvx as int, VEL_LIMIT as int);
        lemma_comp_sq_bound(tvy as int, VEL_LIMIT as int);
        lemma_comp_sq_bound(tvz as int, VEL_LIMIT as int);
        lemma_comp_sq_bound(si as int, VEL_LIMIT as int);
        lemma_comp_sq_bound(dx as int, 134217728);
        lemma_comp_sq_bound(dy as int, 134217728);
        lemma_comp_sq_bound(dz as int, 134217728);
        lemma_mul_range(tvx as int, dx as int, 2097152, 134217728);
        lemma_mul_range(tvy as int, dy as int, 2097152, 134217728);
        lemma_mul_range(tvz as int, dz as int, 2097152, 134217728);
    }
    let a = tvx * tvx + tvy * tvy + tvz * tvz - si * si;
    if a == 0 {
        return None;
    }
    let b = 2 * (tvx * dx + tvy * dy + tvz * dz);
    let c = dx * dx + dy * dy + dz * dz;
    proof {
        lemma_mul_range(b as int, b as int, 1688849860263936, 1688849860263936);
        lemma_mul_range(4 * (a as int), c as int, 70368744177664, 54043195528445952);
    }
    let disc = b * b - 4 * a * c;
    proof {
        assert(a as int == predict_a(target_vel, proj_speed as int));
        assert(b as int == predict_b(target_pos, target_vel, proj_pos));
        assert(c as int == predict_c(target_pos, proj_pos));
        assert(disc as int == predict_disc(target_pos, target_vel, proj_pos, proj_speed as int));
    }
    if disc < 0 {
        return None;
    }
    let rt = isqrt(disc as u128) as i128;
    proof {
        assert(disc as int <= 6655165651198204357857691828224);
        assert(rt as int <= 4503599627370496) by (nonlinear_arith)
            requires
                is_sqrt_floor(disc as int, rt as int),
                0 <= disc as int,
                (disc as int) <= 6655165651198204357857691828224,
        ;
        assert(-1688849860263936 <= b as int <= 1688849860263936);
    }
    let den = if a > 0 {
        2 * a
    } else {
        -(2 * a)
    };
    let n1 = if a > 0 {
        -b - rt
    } else {
        b - rt
    };
    let n2 = if a > 0 {
        -b + rt
    } else {
        b + rt
    };
    let n = if n1 >= 0 {
        n1
    } else if n2 >= 0 {
        n2
    } else {
        return None;
    };
    proof {
        assert(0 <= n as int <= 6192449487634432);
    }
    let px = intercept_axis(target_pos.x, target_vel.x, n, den);
    let py = intercept_axis(target_pos.y, target_vel.y, n, den);
    let pz = intercept_axis(target_pos.z, target_vel.z, n, den);
    Some(V3 { x: px, y: py, z: pz })
}



/// The offset from `tpx` to `px`, scaled by the positive denominator `d`,
/// has the sign of `tvx * n` and magnitude at most `tvx * n`: along this
/// axis, `px` lies between the target's position and the target's position
/// `n / d` seconds later.
pub open spec fn between_on_axis(px: int, tpx: int, tvx: int, n: int, d: int) -> bool {
    if tvx * n >= 0 {
        0 <= (px - tpx) * d <= tvx * n
    } else {
        tvx * n <= (px - tpx) * d <= 0
    }
}

proof fn lemma_axis_between(tpx: int, tvx: int, n: int, d: int)
    requires
        1 <= d,
        0 <= n,
        -(PRED_LIMIT as int) < tpx < PRED_LIMIT as int,
    ensures
        between_on_axis(clamp_abs(tpx + tdiv(tvx * n, d), PRED_LIMIT as int), tpx, tvx, n, d),
{
    let w = tvx * n;
    let t = tdiv(w, d);
    lemma_tdiv_bounds(w, d);
    let lim = PRED_LIMIT as int;
    let px = clamp_abs(tpx + t, lim);
    if w >= 0 {
        assert(0 <= px - tpx <= t);
        assert(0 <= (px - tpx) * d <= t * d) by (nonlinear_arith)
            requires
                0 <= px - tpx <= t,
                1 <= d,
        ;
    } else {
        assert(t <= px - tpx <= 0);
        assert(t * d <= (px - tpx) * d <= 0) by (nonlinear_arith)
            requires
                t <= px - tpx <= 0,
                1 <= d,
        ;
    }
}

/// A stationary target is intercepted exactly where it stands: with zero
/// target velocity the solver returns `target_pos` itself.
pub proof fn lemma_predict_stationary(target_pos: V3, proj_pos: V3, proj_speed: int)
    requires
        target_pos.in_box(PRED_IN_LIMIT as int),
        1 <= proj_speed,
    ensures
        (predict_spec(target_pos, (V3 { x: 0, y: 0, z: 0 }), proj_pos, proj_speed) == Option::Some(
            target_pos,
        )),
{
    let tv = V3 { x: 0, y: 0, z: 0 };
    let a = predict_a(tv, proj_speed);
    assert(tv.len_sq() == 0);
    assert(a <= -1) by (nonlinear_arith)
        requires
            a == 0 - proj_speed * proj_speed,
            1 <= proj_speed,
    ;
    let b = predict_b(target_pos, tv, proj_pos);
    assert(b == 0);
    let c = predict_c(target_pos, proj_pos);
    let cx = target_pos.x - proj_pos.x;
    let cy = target_pos.y - proj_pos.y;
    let cz = target_pos.z - proj_pos.z;
    assert(0 <= cx * cx && 0 <= cy * cy && 0 <= cz * cz) by (nonlinear_arith);
    assert(c >= 0);
    let disc = predict_disc(target_pos, tv, proj_pos, proj_speed);
    assert(disc >= 0) by (nonlinear_arith)
        requires
            disc == 0 - 4 * a * c,
            a <= -1,
            c >= 0,
    ;
    lemma_sqrt_floor(disc);
    let rt = sqrt_floor(disc);
    let den = predict_den(tv, proj_speed);
    assert(den >= 2);
    assert(predict_num_lo(target_pos, tv, proj_pos, proj_speed) == -rt);
    assert(predict_num_hi(target_pos, tv, proj_pos, proj_speed) == rt);
    let tn = predict_time_num(target_pos, tv, proj_pos, proj_speed);
    assert(tn is Some);
    let n = tn->Some_0;
    assert(n >= 0);
    lemma_div_of0(den);
    assert(tdiv(0 * n, den) == 0);
    assert(clamp_abs(target_pos.x + 0, PRED_LIMIT as int) == target_pos.x);
    assert(clamp_abs(target_pos.y + 0, PRED_LIMIT as int) == target_pos.y);
    assert(clamp_abs(target_pos.z + 0, PRED_LIMIT as int) == target_pos.z);
}

/// When the projectile is strictly faster than the target and the target
/// is not already at the shooter, interception always succeeds: the solver
/// returns a point, the chosen intercept time is nonnegative and finite (a
/// numerator over a positive denominator), and on each axis the point lies
/// between the target's position now and its position at that time.
pub proof fn lemma_predict_overtakes(target_pos: V3, target_vel: V3, proj_pos: V3, proj_speed: int)
    requires
        target_pos.in_box(PRED_IN_LIMIT as int),
        target_vel.len_sq() < proj_speed * proj_speed,
        predict_c(target_pos, proj_pos) > 0,
    ensures
        predict_spec(target_pos, target_vel, proj_pos, proj_speed) is Some,
        predict_time_num(target_pos, target_vel, proj_pos, proj_speed) is Some,
        predict_time_num(target_pos, target_vel, proj_pos, proj_speed)->Some_0 >= 0,
        predict_den(target_vel, proj_speed) >= 2,
        ({
            let p = predict_spec(target_pos, target_vel, proj_pos, proj_speed)->Some_0;
            let n = predict_time_num(target_pos, target_vel, proj_pos, proj_speed)->Some_0;
            let d = predict_den(target_vel, proj_speed);
            between_on_axis(p.x as int, target_pos.x as int, target_vel.x as int, n, d)
                && between_on_axis(p.y as int, target_pos.y as int, target_vel.y as int, n, d)
                && between_on_axis(p.z as int, target_pos.z as int, target_vel.z as int, n, d)
        }),
{
    let a = predict_a(target_vel, proj_speed);
    let b = predict_b(target_pos, target_vel, proj_pos);
    let c = predict_c(target_pos, proj_pos);
    let disc = predict_disc(target_pos, target_vel, proj_pos, proj_speed);
    assert(a <= -1);
    assert(disc > b * b) by (nonlinear_arith)
        requires
            disc == b * b - 4 * a * c,
            a <= -1,
            c >= 1,
    ;
    assert(disc >= 0) by (nonlinear_arith)
        requires
            disc > b * b,
    ;
    lemma_sqrt_floor(disc);
    let rt = sqrt_floor(disc);
    assert(rt >= b && rt >= -b) by (nonlinear_arith)
        requires
            0 <= rt,
            b * b < (rt + 1) * (rt + 1),
    ;
    let den = predict_den(target_vel, proj_speed);
    assert(den >= 2);
    assert(predict_num_hi(target_pos, target_vel, proj_pos, proj_speed) == b + rt);
    let tn = predict_time_num(target_pos, target_vel, proj_pos, proj_speed);
    assert(tn is Some);
    let n = tn->Some_0;
    assert(n >= 0);
    lemma_axis_between(target_pos.x as int, target_vel.x as int, n, den);
    lemma_axis_between(target_pos.y as int, target_vel.y as int, n, den);
    lemma_axis_between(target_pos.z as int, target_vel.z as int, n, den);
    assert(-(PRED_LIMIT as int) <= clamp_abs(
        target_pos.x + tdiv(target_vel.x * n, den),
        PRED_LIMIT as int,
    ) <= PRED_LIMIT as int);
    assert(-(PRED_LIMIT as int) <= clamp_abs(
        target_pos.y + tdiv(target_vel.y * n, den),
        PRED_LIMIT as int,
    ) <= PRED_LIMIT as int);
    assert(-(PRED_LIMIT as int) <= clamp_abs(
        target_pos.z + tdiv(target_vel.z * n, den),
        PRED_LIMIT as int,
    ) <= PRED_LIMIT as int);
}

} // verus!
