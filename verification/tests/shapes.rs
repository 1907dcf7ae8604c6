use drawing::circle::Circle;
use drawing::cube::Cube;
use drawing::line::Line;
use drawing::pentagon::Pentagon;
use drawing::point::Point;
use drawing::rectangle::Rectangle;
use drawing::triangle::Triangle;

#[test]
fn test_point_new() {
    let p = Point::new(10, 20);
    assert_eq!(p, Point { x: 10, y: 20 });
}

#[test]
fn test_point_random() {
    let p = Point::random(100, 200);
    assert!(p.x < 100);
    assert!(p.y < 200);
}

#[test]
fn test_line_new() {
    let p1 = Point::new(10, 20);
    let p2 = Point::new(30, 40);
    let l = Line::new(&p1, &p2);
    assert_eq!(l, Line { start: p1, end: p2 });
}

#[test]
fn test_line_random() {
    let l = Line::random(100, 200);
    assert!(l.start.x < 100);
    assert!(l.start.y < 200);
    assert!(l.end.x < 100);
    assert!(l.end.y < 200);
}

#[test]
fn test_triangle_new() {
    let p1 = Point::new(10, 20);
    let p2 = Point::new(30, 40);
    let p3 = Point::new(50, 60);
    let t = Triangle::new(&p1, &p2, &p3);
    assert_eq!(t, Triangle { pnt1: p1, pnt2: p2, pnt3: p3 });
}

#[test]
fn test_triangle_random() {
    let t = Triangle::random(100, 200);
    assert!(t.pnt1.x < 100);
    assert!(t.pnt1.y < 200);
    assert!(t.pnt2.x < 100);
    assert!(t.pnt2.y < 200);
    assert!(t.pnt3.x < 100);
    assert!(t.pnt3.y < 200);
}

#[test]
fn test_rectangle_new() {
    let p1 = Point::new(10, 20);
    let p2 = Point::new(30, 40);
    let r = Rectangle::new(&p1, &p2);
    assert_eq!(r, Rectangle { pnt1: p1, pnt2: p2 });
}

#[test]
fn test_rectangle_random() {
    let r = Rectangle::random(100, 200);
    assert!(r.pnt1.x < 100);
    assert!(r.pnt1.y < 200);
    assert!(r.pnt2.x < 100);
    assert!(r.pnt2.y < 200);
}

#[test]
fn test_cube_new() {
    let p = Point::new(10, 20);
    let c = Cube::new(&p, 100, 200, 50);
    assert_eq!(c, Cube { origin: p, width: 100, height: 200, depth: 50 });
}

#[test]
fn test_cube_random() {
    let c = Cube::random(100, 200);
    assert!(c.origin.x < 100);
    assert!(c.origin.y < 200);
    assert!(c.width >= 20 && c.width < 120);
    assert!(c.height >= 20 && c.height < 120);
    assert!(c.depth >= 20 && c.depth < 120);
}

#[test]
fn test_circle_new() {
    let p = Point::new(10, 20);
    let c = Circle::new(&p, 100);
    assert_eq!(c, Circle { center: p, radius: 100 });
}

#[test]
fn test_circle_random() {
    let c = Circle::random(100, 200);
    assert!(c.center.x < 100);
    assert!(c.center.y < 200);
    assert!(c.radius < 100);
}

#[test]
fn test_pentagon_new() {
    let p = Point::new(10, 20);
    let pentagon = Pentagon::new(p, 100);
    assert_eq!(pentagon, Pentagon { center: p, radius: 100 });
}

#[test]
fn test_pentagon_random() {
    let p = Pentagon::random(100, 200);
    assert!(p.center.x < 100);
    assert!(p.center.y < 200);
    assert!(p.radius >= 20 && p.radius < 120);
}

#[test]
fn test_pentagon_points() {
    let p = Point::new(100, 100);
    let pentagon = Pentagon::new(p, 50);
    let points = pentagon.points();
    assert_eq!(points.len(), 5);

    let expected_points = [
        Point::new(100, 50),
        Point::new(147, 84),
        Point::new(129, 140),
        Point::new(70, 140),
        Point::new(52, 84),
    ];

    for i in 0..5 {
        assert!(
            (points[i].x - expected_points[i].x).abs() <= 1,
            "x diff for point {}",
            i
        );
        assert!(
            (points[i].y - expected_points[i].y).abs() <= 1,
            "y diff for point {}",
            i
        );
    }
}
