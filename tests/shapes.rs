use simple_gui::{Circle, Point, Polygon, Shape};

#[test]
fn test_point_add() {
    let p1 = Point::new(16, 16);
    let p2 = p1 + Point::new(-4, 3);
    assert_eq!(p2, Point::new(12, 19));
}

#[test]
fn test_polygon_left_most_point() {
    let p1 = Point::new(12, 13);
    let p2 = Point::new(16, 16);

    let mut poly = Polygon::new();
    poly.add_point(p1);
    poly.add_point(p2);
    assert_eq!(poly.left_most_point(), Some(p1));
}

#[test]
fn test_polygon_iter() {
    let p1 = Point::new(12, 13);
    let p2 = Point::new(16, 16);

    let mut poly = Polygon::new();
    poly.add_point(p1);
    poly.add_point(p2);

    let points = poly.iter().cloned().collect::<Vec<_>>();
    assert_eq!(points, vec![Point::new(12, 13), Point::new(16, 16)]);
}

#[test]
fn left_most_point_prefers_the_last_of_equal_x() {
    let mut poly = Polygon::new();
    poly.add_point(Point::new(3, 1));
    poly.add_point(Point::new(1, 2));
    poly.add_point(Point::new(5, 0));
    poly.add_point(Point::new(1, 7));
    assert_eq!(poly.left_most_point(), Some(Point::new(1, 7)));
}

#[test]
fn shapes_wrap_their_parts() {
    let mut poly = Polygon::new();
    poly.add_point(Point::new(12, 13));
    match Shape::from(poly) {
        Shape::Polygon(p) => assert_eq!(p.points, vec![Point::new(12, 13)]),
        Shape::Circle(_) => panic!("expected a polygon"),
    }
    match Shape::from(Circle::new(Point::new(10, 20), 5)) {
        Shape::Circle(c) => {
            assert_eq!(c.point, Point::new(10, 20));
            assert_eq!(c.radius, 5);
        }
        Shape::Polygon(_) => panic!("expected a circle"),
    }
}
