use falling_blocks::point::Point;
use std::cmp::Ordering;

#[test]
fn new_keeps_both_components() {
    let p = Point::new(3, -8);
    assert_eq!(p.get_x(), 3);
    assert_eq!(p.get_y(), -8);
    assert_eq!(p.x, 3);
    assert_eq!(p.y, -8);
}

#[test]
fn add_is_component_wise() {
    let sum = Point::new(3, -8).add(&Point::new(-5, 10));
    assert_eq!(sum, Point::new(-2, 2));
    assert_eq!(Point::new(0, 0).add(&Point::new(7, 9)), Point::new(7, 9));
    assert_eq!(
        Point::new(i32::MAX, i32::MIN).add(&Point::new(0, 0)),
        Point::new(i32::MAX, i32::MIN)
    );
    assert_eq!(
        Point::new(i32::MAX - 1, i32::MIN + 1).add(&Point::new(1, -1)),
        Point::new(i32::MAX, i32::MIN)
    );
}

#[test]
fn not_negative_needs_both_components() {
    assert!(Point::new(0, 0).not_negative());
    assert!(Point::new(5, 0).not_negative());
    assert!(!Point::new(-1, 0).not_negative());
    assert!(!Point::new(0, -1).not_negative());
    assert!(!Point::new(-1, -1).not_negative());
}

#[test]
fn order_is_by_row_then_by_column() {
    assert!(Point::new(9, 0) < Point::new(0, 1));
    assert!(Point::new(0, 1) < Point::new(1, 1));
    assert!(Point::new(1, 1) <= Point::new(1, 1));
    assert!(Point::new(1, 2) > Point::new(5, 1));
    assert_eq!(Point::new(9, 0).partial_cmp(&Point::new(0, 1)), Some(Ordering::Less));
    assert_eq!(Point::new(2, 2).partial_cmp(&Point::new(2, 2)), Some(Ordering::Equal));
    assert_eq!(Point::new(3, 2).partial_cmp(&Point::new(2, 2)), Some(Ordering::Greater));
}

#[test]
fn total_order_agrees_with_partial_order() {
    let points = [
        Point::new(0, 0),
        Point::new(9, 0),
        Point::new(0, 1),
        Point::new(-4, 3),
        Point::new(4, -3),
        Point::new(1, 1),
    ];
    for a in points {
        for b in points {
            assert_eq!(a.partial_cmp(&b), Some(a.cmp(&b)));
            assert_eq!(a.cmp(&b), (a.get_y(), a.get_x()).cmp(&(b.get_y(), b.get_x())));
        }
    }
}

#[test]
fn sorting_by_the_total_order_is_row_major() {
    let mut points = vec![
        Point::new(1, 1),
        Point::new(0, 1),
        Point::new(3, 0),
        Point::new(0, 0),
        Point::new(2, -1),
    ];
    points.sort();
    assert_eq!(
        points,
        vec![
            Point::new(2, -1),
            Point::new(0, 0),
            Point::new(3, 0),
            Point::new(0, 1),
            Point::new(1, 1),
        ]
    );
}
