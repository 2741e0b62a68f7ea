use vadadee_doc::node::{path_anchor_point_indices, remove_anchors_plan, reversed_anchor_indices};

#[test]
fn anchors_of_mixed_verbs() {
    // move, line, quad, cubic, close
    let verbs = vec![0u8, 1, 2, 3, 4];
    assert_eq!(path_anchor_point_indices(&verbs, 7), vec![0, 1, 3, 6]);
    // A cubic short of its last point takes two points and names no anchor.
    assert_eq!(path_anchor_point_indices(&vec![0u8, 3, 1], 3), vec![0]);
    assert_eq!(path_anchor_point_indices(&vec![0u8, 3, 1], 4), vec![0, 3]);
    // Verbs past the points are skipped.
    assert_eq!(path_anchor_point_indices(&vec![0u8, 1, 1], 2), vec![0, 1]);
    assert!(path_anchor_point_indices(&vec![], 3).is_empty());
}

#[test]
fn removing_anchors_keeps_a_minimum() {
    assert_eq!(remove_anchors_plan(4, false, &vec![1]), Some(vec![0, 2, 3]));
    assert_eq!(remove_anchors_plan(4, false, &vec![3, 0, 3]), Some(vec![1, 2]));
    // Too few would remain.
    assert_eq!(remove_anchors_plan(4, true, &vec![0, 1]), None);
    assert_eq!(remove_anchors_plan(3, false, &vec![0, 2]), None);
    // Nothing named on the path: nothing to do.
    assert_eq!(remove_anchors_plan(4, false, &vec![9]), None);
}

#[test]
fn reversing_renumbers_smooth_anchors() {
    assert_eq!(reversed_anchor_indices(5, &vec![0, 3]), vec![1, 4]);
    assert_eq!(reversed_anchor_indices(3, &vec![2, 1, 0]), vec![0, 1, 2]);
    assert!(reversed_anchor_indices(4, &vec![]).is_empty());
}
