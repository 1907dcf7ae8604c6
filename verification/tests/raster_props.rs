use drawing::canvas::display;
use drawing::circle::{circle_points, Circle};
use drawing::color::Rgb;
use drawing::cube::Cube;
use drawing::line::{bresenham_points, Line};
use drawing::pentagon::Pentagon;
use drawing::point::Point;
use drawing::rectangle::Rectangle;
use drawing::triangle::Triangle;
use std::collections::HashSet;

fn pixel(img: &raster::Image, x: i32, y: i32) -> (u8, u8, u8, u8) {
    let i = ((y * img.width + x) * 4) as usize;
    (img.bytes[i], img.bytes[i + 1], img.bytes[i + 2], img.bytes[i + 3])
}

fn colored_pixels(img: &raster::Image, c: &Rgb) -> HashSet<(i32, i32)> {
    let mut out = HashSet::new();
    for y in 0..img.height {
        for x in 0..img.width {
            if pixel(img, x, y) == (c.r, c.g, c.b, 255) {
                out.insert((x, y));
            }
        }
    }
    out
}

#[test]
fn test_degenerate_line_single_pixel() {
    let mut image = raster::Image::blank(10, 10);
    let p = Point::new(3, 4);
    let c = Rgb::new(10, 20, 30);
    Line::new(&p, &p).draw_with_color(&mut image, &c);
    let hits = colored_pixels(&image, &c);
    assert_eq!(hits.len(), 1);
    assert!(hits.contains(&(3, 4)));
}

#[test]
fn test_line_path_exact() {
    let pts = bresenham_points(&Point::new(0, 0), &Point::new(5, 2));
    let expected = [(0, 0), (1, 0), (2, 1), (3, 1), (4, 2), (5, 2)];
    assert_eq!(pts.len(), expected.len());
    for (p, e) in pts.iter().zip(expected.iter()) {
        assert_eq!((p.x, p.y), *e);
    }
}

#[test]
fn test_line_swap_pixel_set() {
    let cases = [
        ((0, 0), (9, 0)),
        ((0, 0), (0, 9)),
        ((0, 0), (6, 6)),
        ((0, 0), (7, 3)),
        ((5, 2), (-3, 2)),
    ];
    for ((ax, ay), (bx, by)) in cases {
        let a = Point::new(ax, ay);
        let b = Point::new(bx, by);
        let fwd: HashSet<(i32, i32)> =
            bresenham_points(&a, &b).iter().map(|p| (p.x, p.y)).collect();
        let bwd: HashSet<(i32, i32)> =
            bresenham_points(&b, &a).iter().map(|p| (p.x, p.y)).collect();
        assert_eq!(fwd, bwd);
    }
}

#[test]
fn test_circle_path_exact() {
    let pts = circle_points(&Point::new(10, 10), 3);
    let expected = [
        (13, 10),
        (10, 13),
        (10, 13),
        (7, 10),
        (7, 10),
        (10, 7),
        (10, 7),
        (13, 10),
        (12, 11),
        (11, 12),
        (9, 12),
        (8, 11),
        (8, 9),
        (9, 8),
        (11, 8),
        (12, 9),
    ];
    assert_eq!(pts.len(), expected.len());
    for (p, e) in pts.iter().zip(expected.iter()) {
        assert_eq!((p.x, p.y), *e);
    }
}

#[test]
fn test_circle_ring_distance() {
    let r: i64 = 10;
    let pts = circle_points(&Point::new(50, 50), r as i32);
    let set: HashSet<(i32, i32)> = pts.iter().map(|p| (p.x, p.y)).collect();
    for p in pts.iter() {
        let dx = (p.x - 50) as i64;
        let dy = (p.y - 50) as i64;
        let d2 = dx * dx + dy * dy;
        assert!(d2 <= r * r);
        assert!(4 * d2 >= (2 * r - 3) * (2 * r - 3));
        // the eight reflections of every plotted point are plotted too
        let reflections = [
            (50 + dx, 50 + dy),
            (50 + dy, 50 + dx),
            (50 - dy, 50 + dx),
            (50 - dx, 50 + dy),
            (50 - dx, 50 - dy),
            (50 - dy, 50 - dx),
            (50 + dy, 50 - dx),
            (50 + dx, 50 - dy),
        ];
        for (qx, qy) in reflections {
            assert!(set.contains(&(qx as i32, qy as i32)));
        }
    }
}

#[test]
fn test_circle_radius_zero() {
    let pts = circle_points(&Point::new(5, 5), 0);
    assert_eq!(pts.len(), 8);
    for p in pts.iter() {
        assert_eq!((p.x, p.y), (5, 5));
    }
    let mut image = raster::Image::blank(10, 10);
    let c = Rgb::new(200, 100, 50);
    Circle::new(&Point::new(5, 5), 0).draw_with_color(&mut image, &c);
    let hits = colored_pixels(&image, &c);
    assert_eq!(hits.len(), 1);
    assert!(hits.contains(&(5, 5)));
}

#[test]
fn test_rectangle_edges() {
    let mut image = raster::Image::blank(100, 100);
    let c = Rgb::new(1, 2, 3);
    Rectangle::new(&Point::new(10, 20), &Point::new(30, 40)).draw_with_color(&mut image, &c);
    let mut expected: HashSet<(i32, i32)> = HashSet::new();
    for x in 10..=30 {
        expected.insert((x, 20));
        expected.insert((x, 40));
    }
    for y in 20..=40 {
        expected.insert((10, y));
        expected.insert((30, y));
    }
    assert_eq!(colored_pixels(&image, &c), expected);
}

#[test]
fn test_draw_twice_identical() {
    let mut image = raster::Image::blank(60, 60);
    let c = Rgb::new(99, 88, 77);
    let t = Triangle::new(&Point::new(5, 5), &Point::new(50, 12), &Point::new(20, 55));
    t.draw_with_color(&mut image, &c);
    let once = image.bytes.clone();
    t.draw_with_color(&mut image, &c);
    assert_eq!(image.bytes, once);
}

#[test]
fn test_display_out_of_bounds() {
    let mut image = raster::Image::blank(8, 6);
    let before = image.bytes.clone();
    let c = Rgb::new(10, 10, 10);
    display(&mut image, 8, 0, &c);
    display(&mut image, 0, 6, &c);
    display(&mut image, -1, 0, &c);
    display(&mut image, 0, -1, &c);
    assert_eq!(image.bytes, before);
    display(&mut image, 2, 3, &c);
    assert_eq!(pixel(&image, 2, 3), (10, 10, 10, 255));
}

#[test]
fn test_random_in_bounds_repeated() {
    for _ in 0..200 {
        let p = Point::random(17, 23);
        assert!(0 <= p.x && p.x < 17);
        assert!(0 <= p.y && p.y < 23);
        let c = Circle::random(100, 200);
        assert!(0 <= c.radius && c.radius < 100);
        let g = Pentagon::random(100, 200);
        assert!(20 <= g.radius && g.radius < 120);
    }
}

#[test]
fn test_pentagon_points_exact() {
    let pentagon = Pentagon::new(Point::new(100, 100), 50);
    let points = pentagon.points();
    let expected = [(100, 50), (147, 85), (129, 140), (71, 140), (53, 85)];
    assert_eq!(points.len(), 5);
    for (p, e) in points.iter().zip(expected.iter()) {
        assert_eq!((p.x, p.y), *e);
    }
}

#[test]
fn test_triangle_edge_pixels() {
    let mut image = raster::Image::blank(10, 10);
    let c = Rgb::new(7, 7, 7);
    Triangle::new(&Point::new(0, 0), &Point::new(4, 0), &Point::new(0, 4))
        .draw_with_color(&mut image, &c);
    let mut expected: HashSet<(i32, i32)> = HashSet::new();
    for k in 0..=4 {
        expected.insert((k, 0));
        expected.insert((0, k));
        expected.insert((4 - k, k));
    }
    assert_eq!(colored_pixels(&image, &c), expected);
}

#[test]
fn test_cube_corner_pixels() {
    let mut image = raster::Image::blank(50, 50);
    let c = Rgb::new(5, 6, 7);
    Cube::new(&Point::new(10, 30), 5, 5, 3).draw_with_color(&mut image, &c);
    let hits = colored_pixels(&image, &c);
    let front = [(10, 30), (15, 30), (15, 35), (10, 35)];
    let back = [(13, 27), (18, 27), (18, 32), (13, 32)];
    for (x, y) in front.iter().chain(back.iter()) {
        assert!(hits.contains(&(*x, *y)));
    }
}

#[test]
fn test_draw_sampled_colors_smoke() {
    let mut image = raster::Image::blank(300, 300);
    Point::new(10, 10).draw(&mut image);
    Line::new(&Point::new(20, 20), &Point::new(100, 20)).draw(&mut image);
    Triangle::new(&Point::new(50, 150), &Point::new(10, 200), &Point::new(90, 200))
        .draw(&mut image);
    Rectangle::new(&Point::new(110, 150), &Point::new(200, 200)).draw(&mut image);
    Pentagon::new(Point::new(150, 80), 50).draw(&mut image);
    Circle::new(&Point::new(250, 100), 40).draw(&mut image);
    Cube::new(&Point::new(220, 220), 50, 60, 25).draw(&mut image);
    assert_eq!(image.bytes.len(), 300 * 300 * 4);
}

#[test]
fn test_line_clipped_to_canvas() {
    let mut image = raster::Image::blank(4, 4);
    let c = Rgb::new(40, 50, 60);
    Line::new(&Point::new(-2, 1), &Point::new(6, 1)).draw_with_color(&mut image, &c);
    let expected: HashSet<(i32, i32)> = (0..4).map(|x| (x, 1)).collect();
    assert_eq!(colored_pixels(&image, &c), expected);
}
