use platformer_core::geometry::{aabb_test, distance2d, line2box, line2line};

#[test]
fn aabb_overlapping_boxes() {
    assert!(aabb_test(0, 0, 40, 30, 30, 40));
    assert!(aabb_test(10, 10, 40, 0, 0, 40));
    assert!(!aabb_test(0, 0, 40, 100, 0, 40));
}

#[test]
fn aabb_is_symmetric() {
    let cases = [
        (0, 0, 40, 30, 30, 40),
        (5, -3, 40, -20, 10, 40),
        (0, 0, 8, 39, 0, 40),
        (0, 0, 40, 40, 0, 40),
        (100, 100, 8, 90, 90, 40),
    ];
    for (x1, y1, s1, x2, y2, s2) in cases {
        assert_eq!(aabb_test(x1, y1, s1, x2, y2, s2), aabb_test(x2, y2, s2, x1, y1, s1));
    }
}

#[test]
fn aabb_touching_edges_do_not_overlap() {
    // e1's right edge exactly on e2's left edge.
    assert!(!aabb_test(0, 0, 40, 40, 0, 40));
    assert!(!aabb_test(40, 0, 40, 0, 0, 40));
    assert!(!aabb_test(0, 0, 40, 0, 40, 40));
    assert!(!aabb_test(0, 40, 40, 0, 0, 40));
    // One pixel closer and they overlap.
    assert!(aabb_test(1, 0, 40, 40, 0, 40));
}

#[test]
fn segments_crossing() {
    assert!(line2line(0, 0, 10, 10, 0, 10, 10, 0));
    assert!(line2line(0, 5, 10, 5, 5, 0, 5, 10));
}

#[test]
fn segments_apart() {
    assert!(!line2line(0, 0, 10, 0, 20, 5, 30, 5));
    // Parallel, distinct carrying lines.
    assert!(!line2line(0, 0, 10, 0, 0, 1, 10, 1));
}

#[test]
fn segments_collinear_share_line() {
    assert!(line2line(0, 0, 10, 0, 5, 0, 15, 0));
}

#[test]
fn line_through_box() {
    // Horizontal segment straight through the box.
    assert!(line2box(-10, 20, 60, 20, 0, 0, 40));
    // Segment far above the box.
    assert!(!line2box(-10, -30, 60, -30, 0, 0, 40));
    // Segment stopping short of the box.
    assert!(!line2box(-30, 20, -10, 20, 0, 0, 40));
}

#[test]
fn distance_exact_values() {
    assert_eq!(distance2d(0, 0, 3, 4), 5);
    assert_eq!(distance2d(0, 0, 0, 0), 0);
    assert_eq!(distance2d(0, 0, 1, 1), 2); // ceil(sqrt(2))
    assert_eq!(distance2d(10, 10, 10, 17), 7);
    assert_eq!(distance2d(-3, 0, 0, -4), 5);
    assert_eq!(distance2d(0, 0, 250, 0), 250);
}
