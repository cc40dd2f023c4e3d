use dot_destroyer::helpers::circle_intersection;
use dot_destroyer::helpers::clamp_speed;
use dot_destroyer::helpers::predict;
use dot_destroyer::helpers::scale_to_length;
use dot_destroyer::helpers::Projection;
use dot_destroyer::helpers::V3;
use dot_destroyer::intmath::div_trunc;
use dot_destroyer::intmath::isqrt;
use dot_destroyer::intmath::mod_euclid;

fn v(x: i64, y: i64, z: i64) -> V3 {
    V3 { x, y, z }
}

#[test]
fn isqrt_exact_and_floor() {
    assert_eq!(isqrt(0), 0);
    assert_eq!(isqrt(1), 1);
    assert_eq!(isqrt(15), 3);
    assert_eq!(isqrt(16), 4);
    assert_eq!(isqrt(1000000), 1000);
    assert_eq!(isqrt(999999), 999);
}

#[test]
fn div_trunc_rounds_toward_zero() {
    assert_eq!(div_trunc(7, 2), 3);
    assert_eq!(div_trunc(-7, 2), -3);
    assert_eq!(div_trunc(0, 5), 0);
}

#[test]
fn mod_euclid_true_modulo() {
    assert_eq!(mod_euclid(7, 3), 1);
    assert_eq!(mod_euclid(-7, 3), 2);
    assert_eq!(mod_euclid(-6, 3), 0);
    assert_eq!(mod_euclid(0, 3), 0);
}

#[test]
fn reduce_zeroes_depth() {
    let p = v(1, 2, 3).reduce();
    assert_eq!(p, v(1, 2, 0));
}

#[test]
fn circles_overlap_is_symmetric() {
    let a = v(0, 0, 0);
    let b = v(10, 5, 0);
    assert_eq!(
        circle_intersection(a, 7, b, 5),
        circle_intersection(b, 5, a, 7)
    );
    assert_eq!(
        circle_intersection(a, 2, b, 3),
        circle_intersection(b, 3, a, 2)
    );
}

#[test]
fn circles_overlap_boundary_inclusive() {
    // distance 25 equals the radius sum 3 + 22: still an overlap
    assert!(circle_intersection(v(0, 0, 0), 3, v(25, 0, 0), 22));
    // one unit farther: no overlap
    assert!(!circle_intersection(v(0, 0, 0), 3, v(26, 0, 0), 22));
}

#[test]
fn circles_overlap_ignores_depth() {
    // planar distance 5 equals the radius sum even though z differs by 100
    assert!(circle_intersection(v(0, 0, 0), 3, v(3, 4, 100), 2));
}

#[test]
fn predict_stationary_target_returns_target_pos() {
    let tp = v(100, 50, 0);
    let r = predict(tp, v(0, 0, 0), v(0, 0, 0), 400);
    assert_eq!(r, Some(tp));
}

#[test]
fn predict_moving_target_leads_the_target() {
    // target at (5,0,0) moving (0,4,0), projectile speed 5 from the origin:
    // intercept time is 5/3 s, so the point is (5, floor(4 * 5/3), 0)
    let r = predict(v(5, 0, 0), v(0, 4, 0), v(0, 0, 0), 5);
    let p = r.expect("a faster projectile always intercepts");
    assert_eq!(p, v(5, 6, 0));
    // the point lies strictly between the target now and its path forward
    assert!(p.y > 0 && p.y < 7);
    assert_eq!(p.x, 5);
}

#[test]
fn predict_receding_target_has_no_future_root() {
    // both roots lie in the past: a root-selection bug that accepted a
    // negative time would return a point here
    assert_eq!(predict(v(10, 0, 0), v(10, 0, 0), v(0, 0, 0), 1), None);
}

#[test]
fn predict_unreachable_target_none() {
    // negative discriminant: the slow projectile can never catch the target
    assert_eq!(predict(v(0, 10, 0), v(10, 0, 0), v(0, 0, 0), 1), None);
}

#[test]
fn predict_degenerate_quadratic_none() {
    // |target_vel| equals the projectile speed: the quadratic degenerates
    assert_eq!(predict(v(10, 0, 0), v(5, 0, 0), v(0, 0, 0), 5), None);
}

#[test]
fn scale_to_length_exact() {
    assert_eq!(scale_to_length(v(3, 4, 0), 400), v(240, 320, 0));
    assert_eq!(scale_to_length(v(0, -10, 0), 5), v(0, -5, 0));
}

#[test]
fn scale_to_length_zero_vector_falls_back_to_x() {
    assert_eq!(scale_to_length(v(0, 0, 0), 400), v(400, 0, 0));
}

#[test]
fn clamp_speed_leaves_slow_vectors_alone() {
    assert_eq!(clamp_speed(v(3, 4, 0), 5), v(3, 4, 0));
    assert_eq!(clamp_speed(v(-2, 1, 0), 5), v(-2, 1, 0));
}

#[test]
fn clamp_speed_caps_fast_vectors() {
    let r = clamp_speed(v(30, 40, 0), 25);
    assert_eq!(r, v(14, 19, 0));
    assert!(r.x * r.x + r.y * r.y + r.z * r.z <= 25 * 25);
    let s = clamp_speed(v(1000, 0, 0), 400);
    assert_eq!(s, v(399, 0, 0));
}
