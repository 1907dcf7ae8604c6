use vstd::prelude::*;
use crate::canvas::{canvas_view, img_wf, lemma_paint_concat, paint};
use crate::color::Rgb;
use crate::line::{line_path, Line};
use crate::point::Point;
use crate::rng::sample_color;

verus! {

/// An axis-aligned rectangle given by two opposite corners; the other two
/// corners are derived, not stored.
#[derive(Debug, PartialEq, Eq, Structural, Clone, Copy)]
pub struct Rectangle {
    pub pnt1: Point,
    pub pnt2: Point,
}

/// The pixel sequence of a rectangle: its four edges
/// `pnt1 - (pnt2.x, pnt1.y) - pnt2 - (pnt1.x, pnt2.y) - pnt1`,
/// rasterized in order.
pub open spec fn rectangle_pixels(r: Rectangle) -> Seq<(int, int)> {
    let c1 = r.pnt1.coords();
    let c2 = r.pnt2.coords();
    let c3 = (c2.0, c1.1);
    let c4 = (c1.0, c2.1);
    line_path(c1, c3) + line_path(c3, c2) + line_path(c2, c4) + line_path(c4, c1)
}

impl Rectangle {
    pub fn new(pnt1: &Point, pnt2: &Point) -> (r: Rectangle)
        ensures
            r == (Rectangle { pnt1: *pnt1, pnt2: *pnt2 }),
    {
        Rectangle { pnt1: *pnt1, pnt2: *pnt2 }
    }

    /// A rectangle with both given corners sampled from the `width` by
    /// `height` rectangle.
    pub fn random(width: i32, height: i32) -> (r: Rectangle)
        requires
            1 <= width,
            1 <= height,
        ensures
            0 <= r.pnt1.x < width,
            0 <= r.pnt1.y < height,
            0 <= r.pnt2.x < width,
            0 <= r.pnt2.y < height,
    {
        Rectangle { pnt1: Point::random(width, height), pnt2: Point::random(width, height) }
    }

    /// Rasterize exactly the four edges, in order and all in the one given
    /// color, every pixel clipped to the canvas.
    pub fn draw_with_color(&self, image: &mut raster::Image, color: &Rgb)
        requires
            img_wf(*old(image)),
        ensures
            img_wf(*final(image)),
            final(image).width == old(image).width,
            final(image).height == old(image).height,
            canvas_view(*final(image)) == paint(
                canvas_view(*old(image)),
                old(image).width as int,
                old(image).height as int,
                rectangle_pixels(*self),
                color.channels(),
            ),
    {
        let pnt3 = Point::new(self.pnt2.x, self.pnt1.y);
        let pnt4 = Point::new(self.pnt1.x, self.pnt2.y);
        let ghost m0 = canvas_view(*old(image));
        let ghost w = old(image).width as int;
        let ghost h = old(image).height as int;
        let ghost ch = color.channels();
        let ghost e1 = line_path(self.pnt1.coords(), pnt3.coords());
        let ghost e2 = line_path(pnt3.coords(), self.pnt2.coords());
        let ghost e3 = line_path(self.pnt2.coords(), pnt4.coords());
        let ghost e4 = line_path(pnt4.coords(), self.pnt1.coords());
        Line::new(&self.pnt1, &pnt3).draw_with_color(image, color);
        Line::new(&pnt3, &self.pnt2).draw_with_color(image, color);
        proof {
            lemma_paint_concat(m0, w, h, e1, e2, ch);
        }
        Line::new(&self.pnt2, &pnt4).draw_with_color(image, color);
        proof {
            lemma_paint_concat(m0, w, h, e1 + e2, e3, ch);
        }
        Line::new(&pnt4, &self.pnt1).draw_with_color(image, color);
        proof {
            lemma_paint_concat(m0, w, h, e1 + e2 + e3, e4, ch);
        }
    }

    /// Rasterize the four edges in one freshly sampled shared color: a
    /// rectangle's edges are monochrome.
    pub fn draw(&self, image: &mut raster::Image)
        requires
            img_wf(*old(image)),
        ensures
            img_wf(*final(image)),
            final(image).width == old(image).width,
            final(image).height == old(image).height,
            exists|c: Rgb|
                canvas_view(*final(image)) == paint(
                    canvas_view(*old(image)),
                    old(image).width as int,
                    old(image).height as int,
                    rectangle_pixels(*self),
                    c.channels(),
                ),
    {
        let color = self.color();
        self.draw_with_color(image, &color);
    }

    /// A freshly sampled color.
    pub fn color(&self) -> Rgb {
        sample_color()
    }
}

} // verus!
