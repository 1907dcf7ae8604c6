use vstd::prelude::*;
use crate::color::Rgb;

verus! {

/// Declares raster's image type to the verifier. The canvas is a row-major
/// RGBA byte buffer together with its width and height.
#[verifier::external_type_specification]
pub struct ExImage(raster::Image);

/// The canvas contents as a map from in-bounds coordinates to RGBA channel
/// quadruples.
pub type PixelMap = Map<(int, int), (u8, u8, u8, u8)>;

/// A well-formed canvas: the byte buffer holds exactly `width * height`
/// RGBA quadruples and the byte count fits the accessors' `i32` index
/// arithmetic.
pub open spec fn img_wf(img: raster::Image) -> bool {
    &&& 0 <= img.width
    &&& 0 <= img.height
    &&& img.bytes@.len() == img.width * img.height * 4
    &&& img.width * img.height * 4 <= i32::MAX
}

/// Whether `(x, y)` lies on a canvas of width `w` and height `h`.
pub open spec fn in_rect(w: int, h: int, x: int, y: int) -> bool {
    0 <= x < w && 0 <= y < h
}

/// Whether `(x, y)` lies on the canvas of `img`.
pub open spec fn in_canvas(img: raster::Image, x: int, y: int) -> bool {
    in_rect(img.width as int, img.height as int, x, y)
}

/// The byte offset of pixel `(x, y)` in the buffer.
pub open spec fn byte_index(img: raster::Image, x: int, y: int) -> int {
    4 * (y * img.width + x)
}

/// The canvas of `img`, read as a coordinate-to-color map.
pub open spec fn canvas_view(img: raster::Image) -> PixelMap {
    Map::new(
        |p: (int, int)| in_canvas(img, p.0, p.1),
        |p: (int, int)|
            (
                img.bytes@[byte_index(img, p.0, p.1)],
                img.bytes@[byte_index(img, p.0, p.1) + 1],
                img.bytes@[byte_index(img, p.0, p.1) + 2],
                img.bytes@[byte_index(img, p.0, p.1) + 3],
            ),
    )
}

/// One clipped pixel write on the abstract canvas: inside the `w` by `h`
/// rectangle the pixel takes color `c`, outside nothing changes.
pub open spec fn write_at(m: PixelMap, w: int, h: int, p: (int, int), c: (u8, u8, u8, u8)) -> PixelMap {
    if in_rect(w, h, p.0, p.1) {
        m.insert(p, c)
    } else {
        m
    }
}

/// A sequence of clipped pixel writes, all with one color, first point
/// first.
pub open spec fn paint(m: PixelMap, w: int, h: int, pts: Seq<(int, int)>, c: (u8, u8, u8, u8)) -> PixelMap
    decreases pts.len(),
{
    if pts.len() == 0 {
        m
    } else {
        paint(write_at(m, w, h, pts[0], c), w, h, pts.drop_first(), c)
    }
}

proof fn lemma_byte_index_bounds(img: raster::Image, x: int, y: int)
    requires
        img_wf(img),
        in_canvas(img, x, y),
    ensures
        0 <= byte_index(img, x, y),
        byte_index(img, x, y) + 4 <= img.bytes@.len(),
{
    let w = img.width as int;
    let h = img.height as int;
    assert(0 <= y * w + x && y * w + x <= h * w - 1) by (nonlinear_arith)
        requires
            0 <= x < w && 0 <= y < h,
    ;
    assert(4 * (y * w + x) + 4 <= 4 * (h * w)) by (nonlinear_arith)
        requires
            y * w + x <= h * w - 1,
    ;
    assert(w * h * 4 == 4 * (h * w)) by (nonlinear_arith);
}

proof fn lemma_byte_index_disjoint(img: raster::Image, x1: int, y1: int, x2: int, y2: int)
    requires
        img_wf(img),
        in_canvas(img, x1, y1),
        in_canvas(img, x2, y2),
        (x1, y1) != (x2, y2),
    ensures
        byte_index(img, x1, y1) + 4 <= byte_index(img, x2, y2)
            || byte_index(img, x2, y2) + 4 <= byte_index(img, x1, y1),
{
    let w = img.width as int;
    assert((y1 * w + x1) + 1 <= y2 * w + x2 || (y2 * w + x2) + 1 <= y1 * w + x1)
        by (nonlinear_arith)
        requires
            0 <= x1 < w && 0 <= x2 < w && (x1 != x2 || y1 != y2),
    ;
}

/// Relies on raster's `Image::set_pixel` and `Color::rgb`: with coordinates
/// inside a well-formed canvas, the call writes the pixel's four channel
/// bytes (alpha 255) at its offset and returns Ok, leaving every other byte
/// and the dimensions unchanged.
#[verifier::external_body]
pub(crate) fn put_pixel(image: &mut raster::Image, x: i32, y: i32, color: &Rgb)
    requires
        img_wf(*old(image)),
        in_canvas(*old(image), x as int, y as int),
    ensures
        final(image).width == old(image).width,
        final(image).height == old(image).height,
        final(image).bytes@ == old(image).bytes@
            .update(byte_index(*old(image), x as int, y as int), color.r)
            .update(byte_index(*old(image), x as int, y as int) + 1, color.g)
            .update(byte_index(*old(image), x as int, y as int) + 2, color.b)
            .update(byte_index(*old(image), x as int, y as int) + 3, 255u8),
{
    let _ = image.set_pixel(x, y, raster::Color::rgb(color.r, color.g, color.b));
}

/// The display adapter: write `color` at `(x, y)` when that coordinate lies
/// on the canvas, and silently discard the write otherwise. Clipping is the
/// policy, not an error.
pub fn display(image: &mut raster::Image, x: i32, y: i32, color: &Rgb)
    requires
        img_wf(*old(image)),
    ensures
        img_wf(*final(image)),
        final(image).width == old(image).width,
        final(image).height == old(image).height,
        canvas_view(*final(image)) == write_at(
            canvas_view(*old(image)),
            old(image).width as int,
            old(image).height as int,
            (x as int, y as int),
            color.channels(),
        ),
        !in_canvas(*old(image), x as int, y as int) ==> *final(image) == *old(image),
{
    if x >= 0 && x < image.width && y >= 0 && y < image.height {
        put_pixel(image, x, y, color);
        proof {
            lemma_put_pixel_view(*old(image), *image, x as int, y as int, *color);
        }
    }
}

proof fn lemma_put_pixel_view(i0: raster::Image, i1: raster::Image, x: int, y: int, c: Rgb)
    requires
        img_wf(i0),
        in_canvas(i0, x, y),
        i1.width == i0.width,
        i1.height == i0.height,
        i1.bytes@ == i0.bytes@
            .update(byte_index(i0, x, y), c.r)
            .update(byte_index(i0, x, y) + 1, c.g)
            .update(byte_index(i0, x, y) + 2, c.b)
            .update(byte_index(i0, x, y) + 3, 255u8),
    ensures
        img_wf(i1),
        canvas_view(i1) == canvas_view(i0).insert((x, y), c.channels()),
{
    lemma_byte_index_bounds(i0, x, y);
    assert forall|p: (int, int)| in_canvas(i1, p.0, p.1) && p != (x, y) implies
        canvas_view(i1)[p] == canvas_view(i0)[p]
    by {
        lemma_byte_index_disjoint(i0, p.0, p.1, x, y);
        lemma_byte_index_bounds(i0, p.0, p.1);
    }
    assert(canvas_view(i1)[(x, y)] == c.channels());
    assert(canvas_view(i1) =~= canvas_view(i0).insert((x, y), c.channels()));
}

/// Appending one pixel sequence after another paints the same as painting
/// the two in turn.
pub proof fn lemma_paint_concat(m: PixelMap, w: int, h: int, s1: Seq<(int, int)>, s2: Seq<(int, int)>, c: (u8, u8, u8, u8))
    ensures
        paint(m, w, h, s1 + s2, c) == paint(paint(m, w, h, s1, c), w, h, s2, c),
    decreases s1.len(),
{
    if s1.len() == 0 {
        assert(s1 + s2 =~= s2);
    } else {
        assert((s1 + s2).drop_first() =~= s1.drop_first() + s2);
        lemma_paint_concat(write_at(m, w, h, s1[0], c), w, h, s1.drop_first(), s2, c);
    }
}

/// Painting a one-point sequence is a single clipped write: a degenerate
/// line, whose path is one point, writes exactly one pixel.
pub proof fn lemma_paint_single(m: PixelMap, w: int, h: int, p: (int, int), c: (u8, u8, u8, u8))
    ensures
        paint(m, w, h, seq![p], c) == write_at(m, w, h, p, c),
{
    assert(seq![p].drop_first() =~= Seq::<(int, int)>::empty());
    assert(paint(m, w, h, seq![p], c) == paint(write_at(m, w, h, p, c), w, h, seq![p].drop_first(), c));
}

/// The pixels a paint call overwrites, as a map of their own: the in-bounds
/// points of the sequence, all sent to `c`.
pub open spec fn paint_layer(w: int, h: int, pts: Seq<(int, int)>, c: (u8, u8, u8, u8)) -> PixelMap {
    Map::new(|p: (int, int)| pts.contains(p) && in_rect(w, h, p.0, p.1), |p: (int, int)| c)
}

/// Painting lays `paint_layer` over the canvas: pixels of the sequence take
/// the shared color, all others keep their old value.
pub proof fn lemma_paint_layer(m: PixelMap, w: int, h: int, pts: Seq<(int, int)>, c: (u8, u8, u8, u8))
    ensures
        paint(m, w, h, pts, c) == m.union_prefer_right(paint_layer(w, h, pts, c)),
    decreases pts.len(),
{
    if pts.len() == 0 {
        assert(paint(m, w, h, pts, c) =~= m.union_prefer_right(paint_layer(w, h, pts, c)));
    } else {
        let rest = pts.drop_first();
        lemma_paint_layer(write_at(m, w, h, pts[0], c), w, h, rest, c);
        assert forall|q: (int, int)| #[trigger] pts.contains(q) implies
            q == pts[0] || rest.contains(q)
        by {
            let i = choose|i: int| 0 <= i < pts.len() && pts[i] == q;
            if i > 0 {
                assert(rest[i - 1] == q);
            }
        }
        assert forall|q: (int, int)| #[trigger] rest.contains(q) implies pts.contains(q) by {
            let i = choose|i: int| 0 <= i < rest.len() && rest[i] == q;
            assert(pts[i + 1] == q);
        }
        assert(pts.contains(pts[0]));
        assert(paint(m, w, h, pts, c) =~= m.union_prefer_right(paint_layer(w, h, pts, c)));
    }
}

/// Painting a pixel sequence twice with one shared color leaves the canvas
/// exactly as painting it once does: a shape redrawn in the same color
/// produces the identical pixel contents.
pub proof fn lemma_paint_idempotent(m: PixelMap, w: int, h: int, pts: Seq<(int, int)>, c: (u8, u8, u8, u8))
    ensures
        paint(paint(m, w, h, pts, c), w, h, pts, c) == paint(m, w, h, pts, c),
{
    lemma_paint_layer(m, w, h, pts, c);
    lemma_paint_layer(m.union_prefer_right(paint_layer(w, h, pts, c)), w, h, pts, c);
    assert(m.union_prefer_right(paint_layer(w, h, pts, c)).union_prefer_right(
        paint_layer(w, h, pts, c),
    ) =~= m.union_prefer_right(paint_layer(w, h, pts, c)));
}

} // verus!
