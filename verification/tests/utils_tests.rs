use pathtracer::aabb::Vector3;
use pathtracer::material::clamped_fuzz;
use pathtracer::utils::{clamp, de_nan};

#[test]
fn clamp_holds_to_the_range() {
    assert_eq!(clamp(5, 0, 10), 5);
    assert_eq!(clamp(-5, 0, 10), 0);
    assert_eq!(clamp(15, 0, 10), 10);
    assert_eq!(clamp(0, 0, 10), 0);
    assert_eq!(clamp(10, 0, 10), 10);
}

#[test]
fn de_nan_zeroes_what_is_not_finite() {
    let c = Vector3::new(5, 100, -100);
    assert_eq!(de_nan(c, -100, 100, 0).e, [5, 0, 0]);
    let c = Vector3::new(101, -101, 99);
    assert_eq!(de_nan(c, -100, 100, 0).e, [0, 0, 99]);
    let c = Vector3::new(1, 2, 3);
    assert_eq!(de_nan(c, -100, 100, 0).e, [1, 2, 3]);
}

#[test]
fn fuzz_is_at_most_one() {
    assert_eq!(clamped_fuzz(3, 10), 3);
    assert_eq!(clamped_fuzz(10, 10), 10);
    assert_eq!(clamped_fuzz(1000, 10), 10);
}
