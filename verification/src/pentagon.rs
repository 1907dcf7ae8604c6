use vstd::prelude::*;
use vstd::arithmetic::div_mod::{lemma_fundamental_div_mod, lemma_mod_bound};
use vstd::math::abs;
use crate::canvas::{canvas_view, img_wf, lemma_paint_concat, paint};
use crate::color::Rgb;
use crate::line::{line_path, Line};
use crate::point::{in_i32, Point};
use crate::rng::{sample_below, sample_color};

verus! {

/// A regular pentagon given by its center and circumradius. Its five
/// vertices are derived on demand, evenly spaced by 72 degrees starting at
/// the top (-90 degrees), so the edge cycle traces the convex boundary.
#[derive(Debug, PartialEq, Eq, Structural, Clone, Copy)]
pub struct Pentagon {
    pub center: Point,
    pub radius: i32,
}

/// The cosine of vertex angle `i` (that is, of `-90 + 72 i` degrees),
/// scaled by 100000 and rounded.
pub open spec fn pent_cos(i: int) -> int {
    if i == 0 {
        0
    } else if i == 1 {
        95106
    } else if i == 2 {
        58779
    } else if i == 3 {
        -58779
    } else {
        -95106
    }
}

/// The sine of vertex angle `i`, scaled by 100000 and rounded.
pub open spec fn pent_sin(i: int) -> int {
    if i == 0 {
        -100000
    } else if i == 1 {
        -30902
    } else if i == 2 {
        80902
    } else if i == 3 {
        80902
    } else {
        -30902
    }
}

/// Division by the fixed-point scale, truncated toward zero.
pub open spec fn scale_div(n: int) -> int {
    if n >= 0 {
        n / 100000
    } else {
        -((-n) / 100000)
    }
}

/// Vertex `i` of the pentagon: the center displaced by the scaled cosine
/// and sine of the vertex angle.
pub open spec fn pentagon_vertex(p: Pentagon, i: int) -> (int, int) {
    (
        p.center.x + scale_div(p.radius * pent_cos(i)),
        p.center.y + scale_div(p.radius * pent_sin(i)),
    )
}

/// Every vertex coordinate fits a 32-bit coordinate: the center displaced
/// by the circumradius stays representable on both axes.
pub open spec fn pentagon_fits(p: Pentagon) -> bool {
    &&& in_i32(p.center.x - abs(p.radius as int))
    &&& in_i32(p.center.x + abs(p.radius as int))
    &&& in_i32(p.center.y - abs(p.radius as int))
    &&& in_i32(p.center.y + abs(p.radius as int))
}

/// The pixel sequence of the pentagon: its five edges around the vertex
/// cycle, rasterized in order.
pub open spec fn pentagon_pixels(p: Pentagon) -> Seq<(int, int)> {
    line_path(pentagon_vertex(p, 0), pentagon_vertex(p, 1)) + line_path(
        pentagon_vertex(p, 1),
        pentagon_vertex(p, 2),
    ) + line_path(pentagon_vertex(p, 2), pentagon_vertex(p, 3)) + line_path(
        pentagon_vertex(p, 3),
        pentagon_vertex(p, 4),
    ) + line_path(pentagon_vertex(p, 4), pentagon_vertex(p, 0))
}

/// A scaled displacement never exceeds the radius in magnitude.
proof fn lemma_scale_div_bound(r: int, c: int)
    requires
        -100000 <= c <= 100000,
    ensures
        -abs(r) <= scale_div(r * c) <= abs(r),
{
    let p = r * c;
    assert(-(abs(r) * 100000) <= p <= abs(r) * 100000) by (nonlinear_arith)
        requires
            p == r * c,
            -100000 <= c <= 100000,
    ;
    if p >= 0 {
        lemma_fundamental_div_mod(p, 100000);
        lemma_mod_bound(p, 100000);
        assert(0 <= p / 100000 <= abs(r)) by (nonlinear_arith)
            requires
                p == 100000 * (p / 100000) + (p % 100000),
                0 <= p % 100000 < 100000,
                0 <= p <= abs(r) * 100000,
        ;
    } else {
        lemma_fundamental_div_mod(-p, 100000);
        lemma_mod_bound(-p, 100000);
        assert(0 <= (-p) / 100000 <= abs(r)) by (nonlinear_arith)
            requires
                -p == 100000 * ((-p) / 100000) + ((-p) % 100000),
                0 <= (-p) % 100000 < 100000,
                0 <= -p <= abs(r) * 100000,
        ;
    }
}

/// The scaled displacement of `radius` along a fixed-point factor,
/// truncated toward zero as the rasterizer's cast truncates.
fn scaled(radius: i32, factor: i64) -> (off: i64)
    requires
        -100000 <= factor <= 100000,
    ensures
        off == scale_div(radius as int * factor as int),
        -abs(radius as int) <= off <= abs(radius as int),
{
    proof {
        lemma_scale_div_bound(radius as int, factor as int);
    }
    let prod: i64 = radius as i64 * factor;
    if prod >= 0 {
        prod / 100000
    } else {
        -((-prod) / 100000)
    }
}

impl Pentagon {
    pub fn new(center: Point, radius: i32) -> (p: Pentagon)
        ensures
            p == (Pentagon { center, radius }),
    {
        Pentagon { center, radius }
    }

    /// A pentagon with its center sampled from the `width` by `height`
    /// rectangle and its radius sampled from `[20, 120)`: the floor of 20
    /// guarantees a visible minimum size.
    pub fn random(width: i32, height: i32) -> (p: Pentagon)
        requires
            1 <= width,
            1 <= height,
        ensures
            0 <= p.center.x < width,
            0 <= p.center.y < height,
            20 <= p.radius < 120,
    {
        Pentagon { center: Point::random(width, height), radius: sample_below(100) + 20 }
    }

    /// The five vertices, in cycle order starting at the top.
    pub fn points(&self) -> (pts: Vec<Point>)
        requires
            pentagon_fits(*self),
        ensures
            pts@.len() == 5,
            forall|i: int| 0 <= i < 5 ==> #[trigger] pts@[i].coords() == pentagon_vertex(*self, i),
    {
        let mut pts: Vec<Point> = Vec::new();
        let cx = self.center.x;
        let cy = self.center.y;
        let r = self.radius;
        let ox0 = scaled(r, 0);
        let oy0 = scaled(r, -100000);
        pts.push(Point { x: (cx as i64 + ox0) as i32, y: (cy as i64 + oy0) as i32 });
        let ox1 = scaled(r, 95106);
        let oy1 = scaled(r, -30902);
        pts.push(Point { x: (cx as i64 + ox1) as i32, y: (cy as i64 + oy1) as i32 });
        let ox2 = scaled(r, 58779);
        let oy2 = scaled(r, 80902);
        pts.push(Point { x: (cx as i64 + ox2) as i32, y: (cy as i64 + oy2) as i32 });
        let ox3 = scaled(r, -58779);
        let oy3 = scaled(r, 80902);
        pts.push(Point { x: (cx as i64 + ox3) as i32, y: (cy as i64 + oy3) as i32 });
        let ox4 = scaled(r, -95106);
        let oy4 = scaled(r, -30902);
        pts.push(Point { x: (cx as i64 + ox4) as i32, y: (cy as i64 + oy4) as i32 });
        proof {
            assert forall|i: int| 0 <= i < 5 implies #[trigger] pts@[i].coords()
                == pentagon_vertex(*self, i) by {
                assert(pts@[0].coords() == pentagon_vertex(*self, 0));
                assert(pts@[1].coords() == pentagon_vertex(*self, 1));
                assert(pts@[2].coords() == pentagon_vertex(*self, 2));
                assert(pts@[3].coords() == pentagon_vertex(*self, 3));
                assert(pts@[4].coords() == pentagon_vertex(*self, 4));
            }
        }
        pts
    }

    /// Rasterize the five edges of the vertex cycle, in order and all in
    /// the one given color, every pixel clipped to the canvas.
    pub fn draw_with_color(&self, image: &mut raster::Image, color: &Rgb)
        requires
            img_wf(*old(image)),
            pentagon_fits(*self),
        ensures
            img_wf(*final(image)),
            final(image).width == old(image).width,
            final(image).height == old(image).height,
            canvas_view(*final(image)) == paint(
                canvas_view(*old(image)),
                old(image).width as int,
                old(image).height as int,
                pentagon_pixels(*self),
                color.channels(),
            ),
    {
        let pts = self.points();
        let ghost m0 = canvas_view(*old(image));
        let ghost w = old(image).width as int;
        let ghost h = old(image).height as int;
        let ghost ch = color.channels();
        let ghost e1 = line_path(pentagon_vertex(*self, 0), pentagon_vertex(*self, 1));
        let ghost e2 = line_path(pentagon_vertex(*self, 1), pentagon_vertex(*self, 2));
        let ghost e3 = line_path(pentagon_vertex(*self, 2), pentagon_vertex(*self, 3));
        let ghost e4 = line_path(pentagon_vertex(*self, 3), pentagon_vertex(*self, 4));
        let ghost e5 = line_path(pentagon_vertex(*self, 4), pentagon_vertex(*self, 0));
        Line::new(&pts[0], &pts[1]).draw_with_color(image, color);
        Line::new(&pts[1], &pts[2]).draw_with_color(image, color);
        proof {
            lemma_paint_concat(m0, w, h, e1, e2, ch);
        }
        Line::new(&pts[2], &pts[3]).draw_with_color(image, color);
        proof {
            lemma_paint_concat(m0, w, h, e1 + e2, e3, ch);
        }
        Line::new(&pts[3], &pts[4]).draw_with_color(image, color);
        proof {
            lemma_paint_concat(m0, w, h, e1 + e2 + e3, e4, ch);
        }
        Line::new(&pts[4], &pts[0]).draw_with_color(image, color);
        proof {
            lemma_paint_concat(m0, w, h, e1 + e2 + e3 + e4, e5, ch);
        }
    }

    /// Rasterize the five edges in one freshly sampled shared color: the
    /// pentagon's boundary is monochrome.
    pub fn draw(&self, image: &mut raster::Image)
        requires
            img_wf(*old(image)),
            pentagon_fits(*self),
        ensures
            img_wf(*final(image)),
            final(image).width == old(image).width,
            final(image).height == old(image).height,
            exists|c: Rgb|
                canvas_view(*final(image)) == paint(
                    canvas_view(*old(image)),
                    old(image).width as int,
                    old(image).height as int,
                    pentagon_pixels(*self),
                    c.channels(),
                ),
    {
        let color = self.color();
        self.draw_with_color(image, &color);
    }

    /// A freshly sampled color.
    pub fn color(&self) -> Rgb {
        sample_color()
    }
}

} // verus!
