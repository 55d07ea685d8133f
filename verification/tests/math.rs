use polyscan::error::{Error, ErrorKind};
use polyscan::math::{Function, FunctionType, Interval, Point, Variable};

#[test]
fn variable_tags() {
    assert!(Variable::X.is_x());
    assert!(!Variable::X.is_y());
    assert!(Variable::Y.is_y());
    assert!(!Variable::Y.is_x());
    assert_eq!(Variable::X.to_string(), "x");
    assert_eq!(Variable::Y.to_string(), "y");
}

#[test]
fn interval_normalizes_swapped_endpoints() {
    let i = Interval::new((4, 0), (3, -1));
    assert!(i.within(Point::new(0, -1)));
    assert!(i.within(Point::new(4, 3)));
    assert!(i.within(Point::new(2, 1)));
    assert!(!i.within(Point::new(5, 1)));
    assert!(!i.within(Point::new(2, 4)));
    assert!(!i.within(Point::new(-1, 1)));
}

#[test]
fn interval_containment_is_inclusive() {
    let i = Interval::new((0, 2), (0, 2));
    assert!(i.within(Point::new(0, 0)));
    assert!(i.within(Point::new(2, 2)));
    assert!(i.within(Point::new(0, 2)));
    assert!(!i.within(Point::new(3, 1)));
}

#[test]
fn vertical_segment_is_constant_on_x() {
    let e = Function::from((Point::new(0, 0), Point::new(0, 5)));
    assert!(matches!(
        e.function(),
        FunctionType::Constant { var: Variable::X, val: 0 }
    ));
    assert_eq!(e.solve(Variable::Y, 3), Some(0));
    assert_eq!(e.solve(Variable::X, 0), Some(0));
    assert_eq!(e.solve(Variable::X, 1), None);
}

#[test]
fn horizontal_segment_is_constant_on_y() {
    let e = Function::from((Point::new(1, 2), Point::new(6, 2)));
    assert!(matches!(
        e.function(),
        FunctionType::Constant { var: Variable::Y, val: 2 }
    ));
    assert_eq!(e.solve(Variable::X, 4), Some(2));
    assert_eq!(e.solve(Variable::Y, 2), Some(2));
    assert_eq!(e.solve(Variable::Y, 3), None);
}

#[test]
fn diagonal_segment_is_linear_with_unit_slope() {
    let e = Function::from((Point::new(0, 0), Point::new(5, 5)));
    // slope = dy/dx = 1, intercept = c/dx = 0
    match e.function() {
        FunctionType::Linear { dy, dx, c } => {
            assert_eq!(*dy, 5);
            assert_eq!(*dx, 5);
            assert_eq!(*c, 0);
        }
        other => panic!("expected a linear function, got {:?}", other),
    }
    assert_eq!(e.solve(Variable::X, 3), Some(3));
    assert_eq!(e.solve(Variable::Y, 3), Some(3));
}

#[test]
fn linear_solutions_truncate_toward_zero() {
    // The line y = (2/3) x: non-integer solutions lose their fractional
    // part toward zero on both sides of the origin.
    let e = Function::from((Point::new(-3, -2), Point::new(3, 2)));
    assert_eq!(e.solve(Variable::X, 2), Some(1)); // 4/3 -> 1
    assert_eq!(e.solve(Variable::X, -2), Some(-1)); // -4/3 -> -1
    assert_eq!(e.solve(Variable::X, 3), Some(2));
    assert_eq!(e.solve(Variable::X, -3), Some(-2));
    assert_eq!(e.solve(Variable::Y, 1), Some(1)); // 3/2 -> 1
    assert_eq!(e.solve(Variable::Y, -1), Some(-1)); // -3/2 -> -1
}

#[test]
fn edge_derivation_ignores_endpoint_order() {
    let a = Point::new(1, 1);
    let b = Point::new(4, 7);
    let f1 = Function::from((a, b));
    let f2 = Function::from((b, a));
    assert_eq!(f1.function(), f2.function());
    assert_eq!(f1.interval(), f2.interval());
}

#[test]
fn point_on_line_test_is_unbounded() {
    let e = Function::from((Point::new(0, 0), Point::new(2, 2)));
    assert!(e.equal(Point::new(5, 5))); // on the line, outside the segment
    assert!(!e.equal(Point::new(5, 4)));
    assert!(!e.within(Point::new(5, 5))); // the interval does bound it
    assert!(e.within(Point::new(1, 1)));

    let c = Function::from((Point::new(3, 0), Point::new(3, 9)));
    assert!(c.equal(Point::new(3, -100)));
    assert!(!c.equal(Point::new(4, 0)));
}

#[test]
fn error_carries_kind_and_message() {
    let e = Error::new(ErrorKind::Window, String::from("no window"));
    assert_eq!(e.kind(), ErrorKind::Window);
    assert_eq!(e.message().as_str(), "no window");

    let from_msg = Error::from(String::from("something went wrong"));
    assert_eq!(from_msg.kind(), ErrorKind::Abstract);
    assert_eq!(from_msg.message().as_str(), "something went wrong");

    assert_eq!(ErrorKind::from(String::from("any")), ErrorKind::Abstract);
}
