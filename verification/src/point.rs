use vstd::prelude::*;
use crate::canvas::{canvas_view, display, img_wf, lemma_paint_concat, lemma_paint_single, paint, write_at};
use crate::color::Rgb;
use crate::rng::{sample_below, sample_color};

verus! {

/// A 2-D integer coordinate: the atomic drawable unit. Coordinates may be
/// negative or beyond the canvas; bounds are enforced only at write time.
#[derive(Debug, PartialEq, Eq, Structural, Clone, Copy)]
pub struct Point {
    pub x: i32,
    pub y: i32,
}

/// The coordinate pairs of a point sequence, as unbounded integers.
pub open spec fn seq_coords(s: Seq<Point>) -> Seq<(int, int)> {
    s.map_values(|p: Point| p.coords())
}

/// Whether `v` is representable as a 32-bit signed coordinate.
pub open spec fn in_i32(v: int) -> bool {
    i32::MIN <= v <= i32::MAX
}

impl Point {
    /// The coordinate pair of this point, as unbounded integers.
    pub open spec fn coords(self) -> (int, int) {
        (self.x as int, self.y as int)
    }

    pub fn new(x: i32, y: i32) -> (p: Point)
        ensures
            p == (Point { x, y }),
    {
        Point { x, y }
    }

    /// A point sampled from the `width` by `height` rectangle: never on or
    /// beyond either bound.
    pub fn random(width: i32, height: i32) -> (p: Point)
        requires
            1 <= width,
            1 <= height,
        ensures
            0 <= p.x < width,
            0 <= p.y < height,
    {
        Point { x: sample_below(width), y: sample_below(height) }
    }

    /// Write this point's single pixel in the given color, clipped to the
    /// canvas.
    pub fn draw_with_color(&self, image: &mut raster::Image, color: &Rgb)
        requires
            img_wf(*old(image)),
        ensures
            img_wf(*final(image)),
            final(image).width == old(image).width,
            final(image).height == old(image).height,
            canvas_view(*final(image)) == write_at(
                canvas_view(*old(image)),
                old(image).width as int,
                old(image).height as int,
                self.coords(),
                color.channels(),
            ),
    {
        display(image, self.x, self.y, color);
    }

    /// Write this point's single pixel in one freshly sampled color,
    /// clipped to the canvas.
    pub fn draw(&self, image: &mut raster::Image)
        requires
            img_wf(*old(image)),
        ensures
            img_wf(*final(image)),
            final(image).width == old(image).width,
            final(image).height == old(image).height,
            exists|c: Rgb|
                canvas_view(*final(image)) == write_at(
                    canvas_view(*old(image)),
                    old(image).width as int,
                    old(image).height as int,
                    self.coords(),
                    c.channels(),
                ),
    {
        let color = self.color();
        self.draw_with_color(image, &color);
    }

    /// A freshly sampled color.
    pub fn color(&self) -> Rgb {
        sample_color()
    }
}

/// Write every point of `pts` in the shared color `color`, in order, each
/// clipped to the canvas.
pub(crate) fn blit(image: &mut raster::Image, pts: &Vec<Point>, color: &Rgb)
    requires
        img_wf(*old(image)),
    ensures
        img_wf(*final(image)),
        final(image).width == old(image).width,
        final(image).height == old(image).height,
        canvas_view(*final(image)) == paint(
            canvas_view(*old(image)),
            old(image).width as int,
            old(image).height as int,
            seq_coords(pts@),
            color.channels(),
        ),
{
    let ghost m0 = canvas_view(*old(image));
    let ghost w = old(image).width as int;
    let ghost h = old(image).height as int;
    let ghost all = seq_coords(pts@);
    let mut i: usize = 0;
    while i < pts.len()
        invariant
            i <= pts.len(),
            all == seq_coords(pts@),
            img_wf(*image),
            image.width as int == w,
            image.height as int == h,
            canvas_view(*image) == paint(m0, w, h, all.take(i as int), color.channels()),
        decreases pts.len() - i,
    {
        let p = pts[i];
        display(image, p.x, p.y, color);
        proof {
            let pre = all.take(i as int);
            let q = all[i as int];
            let c = color.channels();
            let mpre = paint(m0, w, h, pre, c);
            assert(q == pts@[i as int].coords());
            assert(all.take(i + 1) =~= pre + seq![q]);
            lemma_paint_concat(m0, w, h, pre, seq![q], c);
            lemma_paint_single(mpre, w, h, q, c);
        }
        i = i + 1;
    }
    proof {
        assert(all.take(pts@.len() as int) =~= all);
    }
}

} // verus!
