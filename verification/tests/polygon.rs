use polyscan::error::ErrorKind;
use polyscan::math::Point;
use polyscan::polygon::Polygon;

fn pts(coords: &[(i32, i32)]) -> Vec<Point> {
    coords.iter().map(|&(x, y)| Point::new(x, y)).collect()
}

fn square() -> Polygon {
    Polygon::new(pts(&[(0, 0), (4, 0), (4, 4), (0, 4)])).unwrap()
}

fn triangle() -> Polygon {
    Polygon::new(pts(&[(0, 0), (4, 0), (2, 4)])).unwrap()
}

#[test]
fn new_closes_an_open_loop() {
    let p = square();
    let stored = p.loop_points();
    assert_eq!(stored.len(), 5);
    assert_eq!(stored[0], *stored.last().unwrap());
    assert_eq!(p.len(), 4);
    assert_eq!(p.points(), pts(&[(0, 0), (4, 0), (4, 4), (0, 4)]));
}

#[test]
fn new_keeps_an_already_closed_loop() {
    let p = Polygon::new(pts(&[(0, 0), (4, 0), (2, 4), (0, 0)])).unwrap();
    let stored = p.loop_points();
    assert_eq!(stored.len(), 4);
    assert_eq!(stored[0], *stored.last().unwrap());
    assert_eq!(p.len(), 3);
}

#[test]
fn new_removes_consecutive_duplicates() {
    let p = Polygon::new(pts(&[(0, 0), (0, 0), (4, 0), (4, 0), (4, 4), (0, 4)])).unwrap();
    assert_eq!(p.points(), pts(&[(0, 0), (4, 0), (4, 4), (0, 4)]));
}

#[test]
fn new_rejects_too_few_unique_points() {
    let r = Polygon::new(pts(&[(0, 0), (0, 0), (1, 1)]));
    let e = r.err().expect("two unique points must be rejected");
    assert_eq!(e.kind(), ErrorKind::Abstract);
    assert_eq!(e.message().as_str(), "Not enough points (Required 3 or more)");
}

#[test]
fn new_rejects_empty_input() {
    assert!(Polygon::new(Vec::new()).is_err());
    assert!(Polygon::new(pts(&[(1, 1)])).is_err());
    assert!(Polygon::new(pts(&[(1, 1), (2, 2)])).is_err());
}

#[test]
fn square_vertical_scan_hits_both_sides() {
    let p = square();
    assert_eq!(p.intersections_at_y(2), pts(&[(0, 2), (4, 2)]));
}

#[test]
fn triangle_vertical_scan_hits_both_slopes() {
    let p = triangle();
    assert_eq!(p.intersections_at_y(2), pts(&[(1, 2), (3, 2)]));
}

#[test]
fn square_horizontal_scan_hits_top_and_bottom() {
    let p = square();
    assert_eq!(p.intersections_at_x(2), pts(&[(2, 0), (2, 4)]));
}

#[test]
fn scan_outside_the_extent_is_empty() {
    let p = square();
    assert_eq!(p.intersections_at_y(5), pts(&[]));
    assert_eq!(p.intersections_at_y(-1), pts(&[]));
}

#[test]
fn scan_with_negative_coordinates() {
    let p = Polygon::new(pts(&[(-4, -4), (4, -4), (0, 4)])).unwrap();
    assert_eq!(p.intersections_at_y(0), pts(&[(-2, 0), (2, 0)]));
}

#[test]
fn edge_filter_drops_edges_parallel_to_the_scan() {
    let p = square();
    assert_eq!(p.functions(None).len(), 4);
    assert_eq!(p.functions(Some(polyscan::math::Variable::Y)).len(), 2);
    assert_eq!(p.functions(Some(polyscan::math::Variable::X)).len(), 2);
}

#[test]
fn extents_bound_every_vertex() {
    let p = triangle();
    assert_eq!(p.x_min(), 0);
    assert_eq!(p.x_max(), 4);
    assert_eq!(p.y_min(), 0);
    assert_eq!(p.y_max(), 4);
    for v in p.points() {
        assert!(p.x_min() <= v.x && v.x <= p.x_max());
        assert!(p.y_min() <= v.y && v.y <= p.y_max());
    }
}

#[test]
fn fill_spans_cover_the_square_row_by_row() {
    let p = square();
    let spans = p.fill_spans(1);
    assert_eq!(spans.len(), 5);
    for (y, span) in spans.iter().enumerate() {
        assert_eq!(*span, (Point::new(0, y as i32), Point::new(4, y as i32)));
    }
}

#[test]
fn fill_spans_step_by_density() {
    let p = square();
    let spans = p.fill_spans(2);
    assert_eq!(
        spans,
        vec![
            (Point::new(0, 0), Point::new(4, 0)),
            (Point::new(0, 2), Point::new(4, 2)),
            (Point::new(0, 4), Point::new(4, 4)),
        ]
    );
}

#[test]
fn odd_intersection_row_drops_the_trailing_point() {
    // A staircase: the row through the inner step corner meets three edges.
    let p = Polygon::new(pts(&[(0, 0), (2, 0), (2, 2), (4, 2), (4, 4), (0, 4)])).unwrap();
    assert_eq!(p.intersections_at_y(2), pts(&[(0, 2), (2, 2), (4, 2)]));
    let spans = p.fill_spans(1);
    let row2: Vec<_> = spans.iter().filter(|s| s.0.y == 2).collect();
    assert_eq!(row2, vec![&(Point::new(0, 2), Point::new(2, 2))]);
}

#[test]
fn triangle_fill_narrows_toward_the_apex() {
    let p = triangle();
    let spans = p.fill_spans(1);
    assert_eq!(
        spans,
        vec![
            (Point::new(0, 0), Point::new(4, 0)),
            (Point::new(0, 1), Point::new(3, 1)),
            (Point::new(1, 2), Point::new(3, 2)),
            (Point::new(1, 3), Point::new(2, 3)),
            (Point::new(2, 4), Point::new(2, 4)),
        ]
    );
}
