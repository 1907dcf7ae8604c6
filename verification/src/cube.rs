use vstd::prelude::*;
use crate::canvas::{canvas_view, img_wf, lemma_paint_concat, paint};
use crate::color::Rgb;
use crate::line::{line_path, Line};
use crate::point::{in_i32, Point};
use crate::rng::{sample_below, sample_color};

verus! {

/// A wireframe cube: a front rectangle at `origin`, a back rectangle offset
/// by `(depth, -depth)` from it, and four edges connecting corresponding
/// corners. The offset is an illustrative 2-D skew, not a camera
/// projection.
#[derive(Debug, PartialEq, Eq, Structural, Clone, Copy)]
pub struct Cube {
    pub origin: Point,
    pub width: i32,
    pub height: i32,
    pub depth: i32,
}

/// Corner `i` of the front face, counted from the origin clockwise through
/// `(+width, 0)`, `(+width, +height)`, `(0, +height)`.
pub open spec fn cube_front(c: Cube, i: int) -> (int, int) {
    let o = c.origin.coords();
    if i == 0 {
        o
    } else if i == 1 {
        (o.0 + c.width, o.1)
    } else if i == 2 {
        (o.0 + c.width, o.1 + c.height)
    } else {
        (o.0, o.1 + c.height)
    }
}

/// Corner `i` of the back face: the front corner skewed by
/// `(depth, -depth)`.
pub open spec fn cube_back(c: Cube, i: int) -> (int, int) {
    let f = cube_front(c, i);
    (f.0 + c.depth, f.1 - c.depth)
}

/// Every corner coordinate of the wireframe fits a 32-bit coordinate.
pub open spec fn cube_fits(c: Cube) -> bool {
    let x = c.origin.x as int;
    let y = c.origin.y as int;
    let w = c.width as int;
    let h = c.height as int;
    let d = c.depth as int;
    &&& in_i32(x + w)
    &&& in_i32(y + h)
    &&& in_i32(x + d)
    &&& in_i32(y - d)
    &&& in_i32(x + w + d)
    &&& in_i32(y + h - d)
}

/// The pixel sequence of the wireframe: the front cycle, the back cycle,
/// then the four connecting edges, each rasterized in order.
pub open spec fn cube_pixels(c: Cube) -> Seq<(int, int)> {
    line_path(cube_front(c, 0), cube_front(c, 1)) + line_path(cube_front(c, 1), cube_front(c, 2))
        + line_path(cube_front(c, 2), cube_front(c, 3)) + line_path(
        cube_front(c, 3),
        cube_front(c, 0),
    ) + line_path(cube_back(c, 0), cube_back(c, 1)) + line_path(cube_back(c, 1), cube_back(c, 2))
        + line_path(cube_back(c, 2), cube_back(c, 3)) + line_path(cube_back(c, 3), cube_back(c, 0))
        + line_path(cube_front(c, 0), cube_back(c, 0)) + line_path(
        cube_front(c, 1),
        cube_back(c, 1),
    ) + line_path(cube_front(c, 2), cube_back(c, 2)) + line_path(cube_front(c, 3), cube_back(c, 3))
}

impl Cube {
    pub fn new(origin: &Point, width: i32, height: i32, depth: i32) -> (c: Cube)
        ensures
            c == (Cube { origin: *origin, width, height, depth }),
    {
        Cube { origin: *origin, width, height, depth }
    }

    /// A cube with its origin sampled from the `width` by `height`
    /// rectangle and each extent sampled from `[20, 120)`: the floor of 20
    /// guarantees a visible minimum size.
    pub fn random(width: i32, height: i32) -> (c: Cube)
        requires
            1 <= width,
            1 <= height,
        ensures
            0 <= c.origin.x < width,
            0 <= c.origin.y < height,
            20 <= c.width < 120,
            20 <= c.height < 120,
            20 <= c.depth < 120,
    {
        Cube {
            origin: Point::random(width, height),
            width: sample_below(100) + 20,
            height: sample_below(100) + 20,
            depth: sample_below(100) + 20,
        }
    }

    /// Rasterize the twelve edges of the wireframe, in order and all in the
    /// one given color, every pixel clipped to the canvas.
    pub fn draw_with_color(&self, image: &mut raster::Image, color: &Rgb)
        requires
            img_wf(*old(image)),
            cube_fits(*self),
        ensures
            img_wf(*final(image)),
            final(image).width == old(image).width,
            final(image).height == old(image).height,
            canvas_view(*final(image)) == paint(
                canvas_view(*old(image)),
                old(image).width as int,
                old(image).height as int,
                cube_pixels(*self),
                color.channels(),
            ),
    {
        let f1 = self.origin;
        let f2 = Point::new(f1.x + self.width, f1.y);
        let f3 = Point::new(f1.x + self.width, f1.y + self.height);
        let f4 = Point::new(f1.x, f1.y + self.height);
        let b1 = Point::new(f1.x + self.depth, f1.y - self.depth);
        let b2 = Point::new(f2.x + self.depth, f2.y - self.depth);
        let b3 = Point::new(f3.x + self.depth, f3.y - self.depth);
        let b4 = Point::new(f4.x + self.depth, f4.y - self.depth);
        let ghost m0 = canvas_view(*old(image));
        let ghost w = old(image).width as int;
        let ghost h = old(image).height as int;
        let ghost ch = color.channels();
        let ghost e1 = line_path(cube_front(*self, 0), cube_front(*self, 1));
        let ghost e2 = line_path(cube_front(*self, 1), cube_front(*self, 2));
        let ghost e3 = line_path(cube_front(*self, 2), cube_front(*self, 3));
        let ghost e4 = line_path(cube_front(*self, 3), cube_front(*self, 0));
        let ghost e5 = line_path(cube_back(*self, 0), cube_back(*self, 1));
        let ghost e6 = line_path(cube_back(*self, 1), cube_back(*self, 2));
        let ghost e7 = line_path(cube_back(*self, 2), cube_back(*self, 3));
        let ghost e8 = line_path(cube_back(*self, 3), cube_back(*self, 0));
        let ghost e9 = line_path(cube_front(*self, 0), cube_back(*self, 0));
        let ghost e10 = line_path(cube_front(*self, 1), cube_back(*self, 1));
        let ghost e11 = line_path(cube_front(*self, 2), cube_back(*self, 2));
        let ghost e12 = line_path(cube_front(*self, 3), cube_back(*self, 3));
        Line::new(&f1, &f2).draw_with_color(image, color);
        Line::new(&f2, &f3).draw_with_color(image, color);
        proof {
            lemma_paint_concat(m0, w, h, e1, e2, ch);
        }
        Line::new(&f3, &f4).draw_with_color(image, color);
        proof {
            lemma_paint_concat(m0, w, h, e1 + e2, e3, ch);
        }
        Line::new(&f4, &f1).draw_with_color(image, color);
        proof {
            lemma_paint_concat(m0, w, h, e1 + e2 + e3, e4, ch);
        }
        Line::new(&b1, &b2).draw_with_color(image, color);
        proof {
            lemma_paint_concat(m0, w, h, e1 + e2 + e3 + e4, e5, ch);
        }
        Line::new(&b2, &b3).draw_with_color(image, color);
        proof {
            lemma_paint_concat(m0, w, h, e1 + e2 + e3 + e4 + e5, e6, ch);
        }
        Line::new(&b3, &b4).draw_with_color(image, color);
        proof {
            lemma_paint_concat(m0, w, h, e1 + e2 + e3 + e4 + e5 + e6, e7, ch);
        }
        Line::new(&b4, &b1).draw_with_color(image, color);
        proof {
            lemma_paint_concat(m0, w, h, e1 + e2 + e3 + e4 + e5 + e6 + e7, e8, ch);
        }
        Line::new(&f1, &b1).draw_with_color(image, color);
        proof {
            lemma_paint_concat(m0, w, h, e1 + e2 + e3 + e4 + e5 + e6 + e7 + e8, e9, ch);
        }
        Line::new(&f2, &b2).draw_with_color(image, color);
        proof {
            lemma_paint_concat(m0, w, h, e1 + e2 + e3 + e4 + e5 + e6 + e7 + e8 + e9, e10, ch);
        }
        Line::new(&f3, &b3).draw_with_color(image, color);
        proof {
            lemma_paint_concat(m0, w, h, e1 + e2 + e3 + e4 + e5 + e6 + e7 + e8 + e9 + e10, e11, ch);
        }
        Line::new(&f4, &b4).draw_with_color(image, color);
        proof {
            lemma_paint_concat(
                m0,
                w,
                h,
                e1 + e2 + e3 + e4 + e5 + e6 + e7 + e8 + e9 + e10 + e11,
                e12,
                ch,
            );
        }
    }

    /// Rasterize the twelve edges in one freshly sampled shared color: the
    /// wireframe is monochrome.
    pub fn draw(&self, image: &mut raster::Image)
        requires
            img_wf(*old(image)),
            cube_fits(*self),
        ensures
            img_wf(*final(image)),
            final(image).width == old(image).width,
            final(image).height == old(image).height,
            exists|c: Rgb|
                canvas_view(*final(image)) == paint(
                    canvas_view(*old(image)),
                    old(image).width as int,
                    old(image).height as int,
                    cube_pixels(*self),
                    c.channels(),
                ),
    {
        let color = self.color();
        self.draw_with_color(image, &color);
    }

    /// A freshly sampled color.
    pub fn color(&self) -> Rgb {
        sample_color()
    }
}

} // verus!
