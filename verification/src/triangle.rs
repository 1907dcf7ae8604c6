use vstd::prelude::*;
use crate::canvas::{canvas_view, img_wf, lemma_paint_concat, paint};
use crate::color::Rgb;
use crate::line::{line_path, Line};
use crate::point::Point;
use crate::rng::sample_color;

verus! {

/// Three vertices joined by a closed cycle of lines. Collinear vertices are
/// legal and produce overlapping edges.
#[derive(Debug, PartialEq, Eq, Structural, Clone, Copy)]
pub struct Triangle {
    pub pnt1: Point,
    pub pnt2: Point,
    pub pnt3: Point,
}

/// The pixel sequence of a triangle: its three edges, rasterized in order.
pub open spec fn triangle_pixels(t: Triangle) -> Seq<(int, int)> {
    line_path(t.pnt1.coords(), t.pnt2.coords()) + line_path(t.pnt2.coords(), t.pnt3.coords())
        + line_path(t.pnt3.coords(), t.pnt1.coords())
}

impl Triangle {
    pub fn new(pnt1: &Point, pnt2: &Point, pnt3: &Point) -> (t: Triangle)
        ensures
            t == (Triangle { pnt1: *pnt1, pnt2: *pnt2, pnt3: *pnt3 }),
    {
        Triangle { pnt1: Point::new(pnt1.x, pnt1.y), pnt2: Point::new(pnt2.x, pnt2.y), pnt3: Point::new(pnt3.x, pnt3.y) }
    }

    /// A triangle with all three vertices sampled from the `width` by
    /// `height` rectangle.
    pub fn random(width: i32, height: i32) -> (t: Triangle)
        requires
            1 <= width,
            1 <= height,
        ensures
            0 <= t.pnt1.x < width,
            0 <= t.pnt1.y < height,
            0 <= t.pnt2.x < width,
            0 <= t.pnt2.y < height,
            0 <= t.pnt3.x < width,
            0 <= t.pnt3.y < height,
    {
        Triangle {
            pnt1: Point::random(width, height),
            pnt2: Point::random(width, height),
            pnt3: Point::random(width, height),
        }
    }

    /// Rasterize the three edges in the given shared color, every pixel
    /// clipped to the canvas.
    pub fn draw_with_color(&self, image: &mut raster::Image, color: &Rgb)
        requires
            img_wf(*old(image)),
        ensures
            img_wf(*final(image)),
            final(image).width == old(image).width,
            final(image).height == old(image).height,
            canvas_view(*final(image)) == paint(
                canvas_view(*old(image)),
                old(image).width as int,
                old(image).height as int,
                triangle_pixels(*self),
                color.channels(),
            ),
    {
        let ghost m0 = canvas_view(*old(image));
        let ghost w = old(image).width as int;
        let ghost h = old(image).height as int;
        let ghost ch = color.channels();
        let ghost e1 = line_path(self.pnt1.coords(), self.pnt2.coords());
        let ghost e2 = line_path(self.pnt2.coords(), self.pnt3.coords());
        let ghost e3 = line_path(self.pnt3.coords(), self.pnt1.coords());
        Line { start: self.pnt1, end: self.pnt2 }.draw_with_color(image, color);
        Line { start: self.pnt2, end: self.pnt3 }.draw_with_color(image, color);
        proof {
            lemma_paint_concat(m0, w, h, e1, e2, ch);
        }
        Line { start: self.pnt3, end: self.pnt1 }.draw_with_color(image, color);
        proof {
            lemma_paint_concat(m0, w, h, e1 + e2, e3, ch);
        }
    }

    /// Rasterize the three edges in one freshly sampled shared color: a
    /// triangle's edges are monochrome.
    pub fn draw(&self, image: &mut raster::Image)
        requires
            img_wf(*old(image)),
        ensures
            img_wf(*final(image)),
            final(image).width == old(image).width,
            final(image).height == old(image).height,
            exists|c: Rgb|
                canvas_view(*final(image)) == paint(
                    canvas_view(*old(image)),
                    old(image).width as int,
                    old(image).height as int,
                    triangle_pixels(*self),
                    c.channels(),
                ),
    {
        let g = self.color();
        self.draw_with_color(image, &g);
    }

    /// A freshly sampled color.
    pub fn color(&self) -> Rgb {
        sample_color()
    }
}

} // verus!
