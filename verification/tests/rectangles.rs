use rightkeys::rect::{origin_within, rect_overlap};

#[test]
fn rect_overlap_disjoint_is_zero() {
    assert_eq!(rect_overlap((0, 0, 10, 10), (100, 100, 10, 10)), 0);
}

#[test]
fn rect_overlap_partial_is_intersection() {
    assert_eq!(rect_overlap((0, 0, 10, 10), (5, 5, 10, 10)), 25);
}

#[test]
fn rect_overlap_edge_touching_is_zero() {
    assert_eq!(rect_overlap((0, 0, 10, 10), (10, 0, 10, 10)), 0);
}

#[test]
fn origin_within_top_left_corner_is_inside() {
    assert!(origin_within(0, 0, 0, 0, 100, 100));
}

#[test]
fn origin_within_bottom_right_edge_is_outside() {
    // Exclusive at the far edge: abutting elements don't count as inside.
    assert!(!origin_within(100, 100, 0, 0, 100, 100));
    assert!(origin_within(99, 99, 0, 0, 100, 100));
}

#[test]
fn origin_within_negative_origin_is_outside() {
    // The pile-at-left-edge bug: elements reported by AT-SPI with origins
    // at negative x (clamped to 0 by the renderer) must be filtered out.
    assert!(!origin_within(-1, 50, 0, 0, 100, 100));
    assert!(!origin_within(50, -1, 0, 0, 100, 100));
}
