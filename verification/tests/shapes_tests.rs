use pathtracer::shapes::{in_window, inside_rect, sphere_root};

#[test]
fn sphere_prefers_the_nearer_root() {
    assert_eq!(sphere_root(true, 3, 9, 0, 100), Some(3));
    assert_eq!(sphere_root(true, 3, 9, 0, 4), Some(3));
}

#[test]
fn sphere_falls_back_to_the_farther_root() {
    // the ray starts inside the sphere
    assert_eq!(sphere_root(true, -3, 9, 0, 100), Some(9));
    assert_eq!(sphere_root(true, 3, 9, 3, 100), Some(9));
}

#[test]
fn sphere_window_is_open() {
    assert_eq!(sphere_root(true, 3, 9, 0, 3), None);
    assert_eq!(sphere_root(true, 3, 9, 3, 9), None);
    assert_eq!(sphere_root(true, 3, 9, 9, 100), None);
    assert_eq!(sphere_root(true, 3, 9, 4, 9), None);
}

#[test]
fn sphere_without_roots_is_missed() {
    assert_eq!(sphere_root(false, 3, 9, 0, 100), None);
}

#[test]
fn narrowing_a_sphere_window_only_filters() {
    for near in -2..8 {
        for far in near..8 {
            for t_max in -2..9 {
                let full = sphere_root(true, near, far, 0, t_max);
                for upper in -3..=t_max {
                    let narrowed = sphere_root(true, near, far, 0, upper);
                    match full {
                        Some(t) if t < upper => assert_eq!(narrowed, Some(t)),
                        _ => assert_eq!(narrowed, None),
                    }
                }
            }
        }
    }
}

#[test]
fn rect_window_is_closed() {
    assert!(in_window(5, 5, 9));
    assert!(in_window(9, 5, 9));
    assert!(in_window(7, 5, 9));
    assert!(!in_window(4, 5, 9));
    assert!(!in_window(10, 5, 9));
}

#[test]
fn rect_edges_are_inside() {
    assert!(inside_rect(0, 0, 4, 9, 7, 9));
    assert!(inside_rect(4, 0, 4, 7, 7, 9));
    assert!(inside_rect(2, 0, 4, 8, 7, 9));
    assert!(!inside_rect(-1, 0, 4, 8, 7, 9));
    assert!(!inside_rect(5, 0, 4, 8, 7, 9));
    assert!(!inside_rect(2, 0, 4, 6, 7, 9));
    assert!(!inside_rect(2, 0, 4, 10, 7, 9));
}
