use squiggle::ribbon::ribbon;

#[test]
fn a_single_point_is_not_a_line() {
    assert!(ribbon(1).is_none());
    assert!(ribbon(0).is_none());
}

#[test]
fn every_point_contributes_both_sides() {
    let mesh = ribbon(5).expect("five points make a line");
    assert_eq!(mesh.points.len(), 10);
}

#[test]
fn each_segment_gets_two_triangles() {
    let mesh = ribbon(5).expect("five points make a line");
    let indices = &mesh.indices;
    assert_eq!(indices.len(), 4 * 6);
    assert!(indices.iter().all(|i| (*i as usize) < mesh.points.len()));
}

#[test]
fn line_ends_repeat_themselves_as_their_own_neighbour() {
    let mesh = ribbon(3).expect("three points make a line");
    let previous = &mesh.previous;
    // Both vertices of the first point look back at the first point.
    assert_eq!(previous[0], 0);
    assert_eq!(previous[1], 0);
    // Later points look back at their real predecessor.
    assert_eq!(previous[2], 0);
    assert_eq!(previous[4], 1);
}

#[test]
fn the_last_point_looks_ahead_at_itself() {
    let mesh = ribbon(3).expect("three points make a line");
    assert_eq!(mesh.next, vec![1, 1, 2, 2, 2, 2]);
    assert_eq!(mesh.points, vec![0, 0, 1, 1, 2, 2]);
    assert_eq!(mesh.sides, vec![-1, 1, -1, 1, -1, 1]);
}

#[test]
fn two_points_make_one_quad() {
    let mesh = ribbon(2).expect("two points make a line");
    assert_eq!(mesh.indices, vec![0, 1, 2, 1, 3, 2]);
    let longer = ribbon(3).expect("three points make a line");
    assert_eq!(longer.indices, vec![0, 1, 2, 1, 3, 2, 2, 3, 4, 3, 5, 4]);
}
