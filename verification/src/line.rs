use vstd::prelude::*;
use vstd::arithmetic::div_mod::{lemma_fundamental_div_mod, lemma_fundamental_div_mod_converse_div, lemma_fundamental_div_mod_converse_mod, lemma_mod_bound};
use crate::canvas::{canvas_view, img_wf, paint};
use crate::color::Rgb;
use crate::point::{blit, seq_coords, Point};
use crate::rng::sample_color;

verus! {

/// A straight segment between two points, rasterized with integer Bresenham
/// stepping. Equal endpoints are valid: such a line draws a single pixel.
#[derive(Debug, PartialEq, Eq, Structural, Clone, Copy)]
pub struct Line {
    pub start: Point,
    pub end: Point,
}

/// The absolute difference of two coordinates.
pub open spec fn span(from: int, to: int) -> int {
    if to >= from {
        to - from
    } else {
        from - to
    }
}

/// The direction a Bresenham walk steps along one axis: up when `from` lies
/// strictly below `to`, otherwise down.
pub open spec fn step_sign(from: int, to: int) -> int {
    if from < to {
        1
    } else {
        -1
    }
}

/// The minor-axis offset after `k` dominant-axis steps of a Bresenham walk
/// over spans `da` (dominant) and `db` (minor): the closed form of the
/// integer error stepping.
pub open spec fn minor_off(k: int, da: int, db: int) -> int {
    (2 * k * db + da - 1) / (2 * da)
}

/// The error term the rasterizer keeps after `k` dominant-axis steps; the
/// walk steps along the minor axis exactly when it is positive.
pub open spec fn bres_err(k: int, da: int, db: int) -> int {
    2 * (k + 1) * db - (2 * minor_off(k, da, db) + 1) * da
}

/// The Bresenham pixel path from `s` to `e`: the exact coordinate sequence
/// the rasterizer visits, both endpoints included. The dominant axis
/// advances every step; the minor axis follows the rounded slope.
pub open spec fn line_path(s: (int, int), e: (int, int)) -> Seq<(int, int)> {
    let dx = span(s.0, e.0);
    let dy = span(s.1, e.1);
    let sx = step_sign(s.0, e.0);
    let sy = step_sign(s.1, e.1);
    if dx > dy {
        Seq::new((dx + 1) as nat, |k: int| (s.0 + k * sx, s.1 + minor_off(k, dx, dy) * sy))
    } else if dy >= 1 {
        Seq::new((dy + 1) as nat, |k: int| (s.0 + minor_off(k, dy, dx) * sx, s.1 + k * sy))
    } else {
        seq![s]
    }
}

/// The pixel path of a line value.
pub open spec fn line_pixels(l: Line) -> Seq<(int, int)> {
    line_path(l.start.coords(), l.end.coords())
}

pub(crate) proof fn lemma_div_unique(n: int, d: int, q: int)
    requires
        1 <= d,
        d * q <= n,
        n < d * (q + 1),
    ensures
        n / d == q,
{
    assert(0 <= n - d * q < d && n == q * d + (n - d * q)) by (nonlinear_arith)
        requires
            d * q <= n,
            n < d * (q + 1),
            1 <= d,
    ;
    lemma_fundamental_div_mod_converse_div(n, d, q, n - d * q);
}

/// The minor offset starts at zero, ends at the minor span, and stays
/// between the two.
proof fn lemma_minor_off_bounds(k: int, da: int, db: int)
    requires
        1 <= da,
        0 <= db <= da,
        0 <= k <= da,
    ensures
        0 <= minor_off(k, da, db) <= db,
        k == 0 ==> minor_off(k, da, db) == 0,
        k == da ==> minor_off(k, da, db) == db,
{
    let n = 2 * k * db + da - 1;
    let d = 2 * da;
    lemma_fundamental_div_mod(n, d);
    lemma_mod_bound(n, d);
    let q = n / d;
    let r = n % d;
    assert(0 <= n && n < d * (db + 1)) by (nonlinear_arith)
        requires
            n == 2 * k * db + da - 1,
            d == 2 * da,
            0 <= k <= da,
            0 <= db,
            1 <= da,
    ;
    assert(0 <= q && q <= db) by (nonlinear_arith)
        requires
            n == d * q + r,
            0 <= r < d,
            0 <= n,
            n < d * (db + 1),
            1 <= d,
    ;
    if k == 0 {
        assert(d * 0 <= n && n < d * 1) by (nonlinear_arith)
            requires
                n == 2 * k * db + da - 1,
                k == 0,
                d == 2 * da,
                1 <= da,
        ;
        lemma_div_unique(n, d, 0);
    }
    if k == da {
        assert(d * db <= n && n < d * (db + 1)) by (nonlinear_arith)
            requires
                n == 2 * da * db + da - 1,
                d == 2 * da,
                0 <= db,
                1 <= da,
        ;
        lemma_div_unique(n, d, db);
    }
}

/// One step of the walk: the minor offset grows by one exactly when the
/// error term is positive.
proof fn lemma_minor_step(k: int, da: int, db: int)
    requires
        1 <= da,
        0 <= db <= da,
        0 <= k < da,
    ensures
        bres_err(k, da, db) > 0 ==> minor_off(k + 1, da, db) == minor_off(k, da, db) + 1,
        bres_err(k, da, db) <= 0 ==> minor_off(k + 1, da, db) == minor_off(k, da, db),
{
    let n = 2 * k * db + da - 1;
    let d = 2 * da;
    let n1 = 2 * (k + 1) * db + da - 1;
    lemma_fundamental_div_mod(n, d);
    lemma_mod_bound(n, d);
    let m = n / d;
    let r = n % d;
    assert(minor_off(k, da, db) == m);
    let idp = bres_err(k, da, db);
    assert(idp == 2 * (k + 1) * db - (2 * m + 1) * da);
    assert(n1 == n + 2 * db) by (nonlinear_arith)
        requires
            n == 2 * k * db + da - 1,
            n1 == 2 * (k + 1) * db + da - 1,
    ;
    if idp > 0 {
        assert(d * (m + 1) <= n1 && n1 < d * (m + 2)) by (nonlinear_arith)
            requires
                idp == 2 * (k + 1) * db - (2 * m + 1) * da,
                idp > 0,
                n1 == 2 * (k + 1) * db + da - 1,
                n == d * m + r,
                0 <= r < d,
                n1 == n + 2 * db,
                d == 2 * da,
                0 <= db <= da,
                1 <= da,
        ;
        lemma_div_unique(n1, d, m + 1);
    } else {
        assert(d * m <= n1 && n1 < d * (m + 1)) by (nonlinear_arith)
            requires
                idp == 2 * (k + 1) * db - (2 * m + 1) * da,
                idp <= 0,
                n1 == 2 * (k + 1) * db + da - 1,
                n == d * m + r,
                0 <= r < d,
                n1 == n + 2 * db,
                d == 2 * da,
                0 <= db <= da,
                1 <= da,
        ;
        lemma_div_unique(n1, d, m);
    }
}

/// A line's path begins at its start, ends at its end, and has one point
/// per dominant-axis step.
pub proof fn lemma_line_path_endpoints(s: (int, int), e: (int, int))
    ensures
        line_path(s, e).len() == 1 + (if span(s.0, e.0) >= span(s.1, e.1) {
            span(s.0, e.0)
        } else {
            span(s.1, e.1)
        }),
        line_path(s, e).first() == s,
        line_path(s, e).last() == e,
{
    let dx = span(s.0, e.0);
    let dy = span(s.1, e.1);
    if dx > dy {
        lemma_minor_off_bounds(0, dx, dy);
        lemma_minor_off_bounds(dx, dx, dy);
    } else if dy >= 1 {
        lemma_minor_off_bounds(0, dy, dx);
        lemma_minor_off_bounds(dy, dy, dx);
    }
}

/// A degenerate line, both endpoints equal, visits exactly its one point:
/// drawing it writes exactly one pixel.
pub proof fn lemma_degenerate_line(p: (int, int))
    ensures
        line_path(p, p) == seq![p],
{
}

proof fn lemma_reversed_same_set(s1: Seq<(int, int)>, s2: Seq<(int, int)>)
    requires
        s1.len() == s2.len(),
        forall|k: int| 0 <= k < s1.len() ==> s2[k] == s1[s1.len() - 1 - k],
    ensures
        s1.to_set() == s2.to_set(),
{
    assert forall|q: (int, int)| s1.contains(q) implies s2.contains(q) by {
        let i = choose|i: int| 0 <= i < s1.len() && s1[i] == q;
        assert(s2[s1.len() - 1 - i] == q);
    }
    assert forall|q: (int, int)| s2.contains(q) implies s1.contains(q) by {
        let i = choose|i: int| 0 <= i < s2.len() && s2[i] == q;
        assert(s2[i] == s1[s1.len() - 1 - i]);
    }
    assert(s1.to_set() =~= s2.to_set());
}

/// A walk over spans `da` (dominant) and `db` (minor) is tie-free when its
/// scaled error numerator never lands exactly on the rounding boundary. A
/// tie makes the rounding break toward the direction of travel, and the
/// pixel set then changes when the endpoints swap.
pub open spec fn tie_free(da: int, db: int) -> bool {
    forall|k: int| 0 <= k <= da ==> #[trigger] ((2 * k * db + da - 1) % (2 * da)) != 2 * da - 1
}

proof fn lemma_no_tie(k: int, da: int, db: int)
    requires
        1 <= da,
        0 <= db <= da,
        0 <= k <= da,
        db == 0 || da == db || da % 2 == 1,
    ensures
        (2 * k * db + da - 1) % (2 * da) != 2 * da - 1,
{
    let d = 2 * da;
    let n = 2 * k * db + da - 1;
    lemma_fundamental_div_mod(n, d);
    lemma_mod_bound(n, d);
    let q = n / d;
    let r = n % d;
    if r == d - 1 {
        assert(n + 1 == d * (q + 1)) by (nonlinear_arith)
            requires
                n == d * q + r,
                r == d - 1,
        ;
        if db == 0 {
            assert(false) by (nonlinear_arith)
                requires
                    n + 1 == d * (q + 1),
                    n == 2 * k * db + da - 1,
                    db == 0,
                    d == 2 * da,
                    1 <= da,
            ;
        } else if da == db {
            assert(false) by (nonlinear_arith)
                requires
                    n + 1 == d * (q + 1),
                    n == 2 * k * db + da - 1,
                    da == db,
                    d == 2 * da,
                    1 <= da,
            ;
        } else {
            assert(da == 2 * (da * (q + 1) - k * db)) by (nonlinear_arith)
                requires
                    n + 1 == d * (q + 1),
                    n == 2 * k * db + da - 1,
                    d == 2 * da,
            ;
            lemma_fundamental_div_mod_converse_mod(da, 2, da * (q + 1) - k * db, 0);
        }
    }
}

/// Equal spans, a zero minor span, or an odd dominant span rule out every
/// rounding tie.
pub proof fn lemma_spans_tie_free(da: int, db: int)
    requires
        1 <= da,
        0 <= db <= da,
        db == 0 || da == db || da % 2 == 1,
    ensures
        tie_free(da, db),
{
    assert forall|k: int| 0 <= k <= da implies #[trigger] ((2 * k * db + da - 1) % (2 * da)) != 2
        * da - 1 by {
        lemma_no_tie(k, da, db);
    }
}

/// In a tie-free walk, the minor offsets of the walk and of the reversed
/// walk complement each other to the minor span.
proof fn lemma_minor_off_complement(k: int, da: int, db: int)
    requires
        1 <= da,
        0 <= db <= da,
        0 <= k <= da,
        tie_free(da, db),
    ensures
        minor_off(k, da, db) + minor_off(da - k, da, db) == db,
{
    let d = 2 * da;
    let n1 = 2 * k * db + da - 1;
    let n2 = 2 * (da - k) * db + da - 1;
    lemma_fundamental_div_mod(n1, d);
    lemma_mod_bound(n1, d);
    lemma_fundamental_div_mod(n2, d);
    lemma_mod_bound(n2, d);
    assert((2 * k * db + da - 1) % (2 * da) != 2 * da - 1);
    assert((2 * (da - k) * db + da - 1) % (2 * da) != 2 * da - 1);
    let q1 = n1 / d;
    let r1 = n1 % d;
    let q2 = n2 / d;
    let r2 = n2 % d;
    assert(n1 + n2 == d * (db + 1) - 2) by (nonlinear_arith)
        requires
            n1 == 2 * k * db + da - 1,
            n2 == 2 * (da - k) * db + da - 1,
            d == 2 * da,
    ;
    let s = db + 1 - q1 - q2;
    assert(r1 + r2 == d * s - 2) by (nonlinear_arith)
        requires
            n1 == d * q1 + r1,
            n2 == d * q2 + r2,
            n1 + n2 == d * (db + 1) - 2,
            s == db + 1 - q1 - q2,
    ;
    assert(s == 1) by (nonlinear_arith)
        requires
            r1 + r2 == d * s - 2,
            0 <= r1 <= d - 2,
            0 <= r2 <= d - 2,
            d >= 2,
    ;
}

/// Swapping the endpoints of a tie-free line traces the same pixel set in
/// the opposite order. `lemma_spans_tie_free` discharges the
/// premise for equal spans, a zero minor span, or an odd dominant span.
pub proof fn lemma_line_path_swap_symmetric(s: (int, int), e: (int, int))
    requires
        ({
            let da = if span(s.0, e.0) >= span(s.1, e.1) {
                span(s.0, e.0)
            } else {
                span(s.1, e.1)
            };
            let db = if span(s.0, e.0) >= span(s.1, e.1) {
                span(s.1, e.1)
            } else {
                span(s.0, e.0)
            };
            da == 0 || tie_free(da, db)
        }),
    ensures
        line_path(e, s).to_set() == line_path(s, e).to_set(),
{
    let dx = span(s.0, e.0);
    let dy = span(s.1, e.1);
    let p1 = line_path(s, e);
    let p2 = line_path(e, s);
    let sx = step_sign(s.0, e.0);
    let sy = step_sign(s.1, e.1);
    if dx == 0 && dy == 0 {
        assert(p1 =~= p2);
    } else if dx > dy {
        assert forall|k: int| 0 <= k < p1.len() implies p2[k] == p1[p1.len() - 1 - k] by {
            lemma_minor_off_complement(k, dx, dy);
            lemma_minor_off_bounds(k, dx, dy);
            lemma_minor_off_bounds(dx - k, dx, dy);
            let m2 = minor_off(k, dx, dy);
            assert(p2[k] == (e.0 + k * step_sign(e.0, s.0), e.1 + m2 * step_sign(e.1, s.1)));
            assert(e.0 + k * step_sign(e.0, s.0) == s.0 + (dx - k) * sx) by (nonlinear_arith)
                requires
                    dx == span(s.0, e.0),
                    sx == step_sign(s.0, e.0),
                    s.0 != e.0,
                    0 <= k <= dx,
            ;
            assert(e.1 + m2 * step_sign(e.1, s.1) == s.1 + minor_off(dx - k, dx, dy) * sy)
                by (nonlinear_arith)
                requires
                    dy == span(s.1, e.1),
                    sy == step_sign(s.1, e.1),
                    m2 + minor_off(dx - k, dx, dy) == dy,
                    0 <= m2 <= dy,
                    0 <= minor_off(dx - k, dx, dy) <= dy,
            ;
        }
        lemma_reversed_same_set(p1, p2);
    } else {
        assert forall|k: int| 0 <= k < p1.len() implies p2[k] == p1[p1.len() - 1 - k] by {
            lemma_minor_off_complement(k, dy, dx);
            lemma_minor_off_bounds(k, dy, dx);
            lemma_minor_off_bounds(dy - k, dy, dx);
            let m2 = minor_off(k, dy, dx);
            assert(p2[k] == (e.0 + m2 * step_sign(e.0, s.0), e.1 + k * step_sign(e.1, s.1)));
            assert(e.1 + k * step_sign(e.1, s.1) == s.1 + (dy - k) * sy) by (nonlinear_arith)
                requires
                    dy == span(s.1, e.1),
                    sy == step_sign(s.1, e.1),
                    s.1 != e.1,
                    0 <= k <= dy,
            ;
            assert(e.0 + m2 * step_sign(e.0, s.0) == s.0 + minor_off(dy - k, dy, dx) * sx)
                by (nonlinear_arith)
                requires
                    dx == span(s.0, e.0),
                    sx == step_sign(s.0, e.0),
                    m2 + minor_off(dy - k, dy, dx) == dx,
                    0 <= m2 <= dx,
                    0 <= minor_off(dy - k, dy, dx) <= dx,
            ;
        }
        lemma_reversed_same_set(p1, p2);
    }
}

/// Rasterize the segment from `start` to `end`: the visited coordinates in
/// visiting order, both endpoints included.
pub fn bresenham_points(start: &Point, end: &Point) -> (pts: Vec<Point>)
    ensures
        seq_coords(pts@) == line_path(start.coords(), end.coords()),
{
    let x0 = start.x;
    let y0 = start.y;
    let x1 = end.x;
    let y1 = end.y;
    let dx: i64 = if x1 >= x0 {
        x1 as i64 - x0 as i64
    } else {
        x0 as i64 - x1 as i64
    };
    let dy: i64 = if y1 >= y0 {
        y1 as i64 - y0 as i64
    } else {
        y0 as i64 - y1 as i64
    };
    let sx: i32 = if x0 < x1 { 1 } else { -1 };
    let sy: i32 = if y0 < y1 { 1 } else { -1 };
    let ghost s = start.coords();
    let ghost e = end.coords();
    let ghost path = line_path(s, e);
    let ghost sxi = sx as int;
    let ghost syi = sy as int;
    let mut pts: Vec<Point> = Vec::new();
    if dx > dy {
        let ghost da = dx as int;
        let ghost db = dy as int;
        let mut tx = x0;
        let mut ty = y0;
        let mut idp: i64 = 2 * dy - dx;
        proof {
            lemma_minor_off_bounds(0, da, db);
        }
        while tx != x1
            invariant
                s == start.coords(),
                e == end.coords(),
                da == span(s.0, e.0),
                db == span(s.1, e.1),
                1 <= da,
                0 <= db,
                db < da,
                dx as int == da,
                dy as int == db,
                sxi == sx as int,
                syi == sy as int,
                sxi == step_sign(s.0, e.0),
                syi == step_sign(s.1, e.1),
                x1 as int == e.0,
                path == line_path(s, e),
                path.len() == da + 1,
                pts@.len() <= da,
                tx as int == s.0 + (pts@.len() as int) * sxi,
                ty as int == s.1 + minor_off(pts@.len() as int, da, db) * syi,
                0 <= minor_off(pts@.len() as int, da, db) <= db,
                idp as int == bres_err(pts@.len() as int, da, db),
                -2 * da <= idp as int <= 2 * db,
                seq_coords(pts@) == path.take(pts@.len() as int),
            decreases da - pts@.len(),
        {
            let ghost i = pts@.len() as int;
            proof {
                if i == da {
                    assert(tx as int == e.0) by (nonlinear_arith)
                        requires
                            tx as int == s.0 + da * sxi,
                            e.0 == if sxi == 1 { s.0 + da } else { s.0 - da },
                            sxi == 1 || sxi == -1,
                    ;
                }
                assert(i < da);
            }
            let ghost pre = pts@;
            pts.push(Point { x: tx, y: ty });
            proof {
                assert(path[i] == (tx as int, ty as int));
                assert forall|j: int| 0 <= j < i + 1 implies seq_coords(pts@)[j] == path.take(
                    i + 1,
                )[j] by {
                    if j < i {
                        assert(seq_coords(pre)[j] == path.take(i)[j]);
                    }
                }
                assert(seq_coords(pts@) =~= path.take(i + 1));
                lemma_minor_step(i, da, db);
                lemma_minor_off_bounds(i + 1, da, db);
            }
            let ghost m = minor_off(i, da, db);
            let ghost m1 = minor_off(i + 1, da, db);
            tx = tx + sx;
            proof {
                assert(tx as int == s.0 + (i + 1) * sxi) by (nonlinear_arith)
                    requires
                        tx as int == s.0 + i * sxi + sxi,
                ;
            }
            if idp > 0 {
                ty = ty + sy;
                idp = idp + 2 * (dy - dx);
                proof {
                    assert(m1 == m + 1);
                    assert(ty as int == s.1 + m1 * syi) by (nonlinear_arith)
                        requires
                            ty as int == s.1 + m * syi + syi,
                            m1 == m + 1,
                    ;
                    assert(idp as int == bres_err(i + 1, da, db)) by (nonlinear_arith)
                        requires
                            idp as int == 2 * (i + 1) * db - (2 * m + 1) * da + 2 * db - 2 * da,
                            bres_err(i + 1, da, db) == 2 * (i + 2) * db - (2 * m1 + 1) * da,
                            m1 == m + 1,
                    ;
                }
            } else {
                idp = idp + 2 * dy;
                proof {
                    assert(m1 == m);
                    assert(idp as int == bres_err(i + 1, da, db)) by (nonlinear_arith)
                        requires
                            idp as int == 2 * (i + 1) * db - (2 * m + 1) * da + 2 * db,
                            bres_err(i + 1, da, db) == 2 * (i + 2) * db - (2 * m1 + 1) * da,
                            m1 == m,
                    ;
                }
            }
        }
        let ghost i = pts@.len() as int;
        proof {
            if i < da {
                assert(tx as int != e.0) by (nonlinear_arith)
                    requires
                        tx as int == s.0 + i * sxi,
                        e.0 == if sxi == 1 { s.0 + da } else { s.0 - da },
                        sxi == 1 || sxi == -1,
                        0 <= i < da,
                ;
            }
            assert(i == da);
        }
        let ghost pre = pts@;
        pts.push(Point { x: tx, y: ty });
        proof {
            assert(path[i] == (tx as int, ty as int));
            assert forall|j: int| 0 <= j < i + 1 implies seq_coords(pts@)[j] == path[j] by {
                if j < i {
                    assert(seq_coords(pre)[j] == path.take(i)[j]);
                }
            }
            assert(seq_coords(pts@) =~= path);
        }
    } else {
        let ghost da = dy as int;
        let ghost db = dx as int;
        let mut tx = x0;
        let mut ty = y0;
        let mut idp: i64 = 2 * dx - dy;
        proof {
            if da >= 1 {
                lemma_minor_off_bounds(0, da, db);
            }
        }
        while ty != y1
            invariant
                s == start.coords(),
                e == end.coords(),
                da == span(s.1, e.1),
                db == span(s.0, e.0),
                0 <= db <= da,
                dy as int == da,
                dx as int == db,
                sxi == sx as int,
                syi == sy as int,
                sxi == step_sign(s.0, e.0),
                syi == step_sign(s.1, e.1),
                y1 as int == e.1,
                path == line_path(s, e),
                path.len() == da + 1,
                pts@.len() <= da,
                ty as int == s.1 + (pts@.len() as int) * syi,
                da >= 1 ==> tx as int == s.0 + minor_off(pts@.len() as int, da, db) * sxi,
                da >= 1 ==> 0 <= minor_off(pts@.len() as int, da, db) <= db,
                da == 0 ==> tx as int == s.0,
                da >= 1 ==> idp as int == bres_err(pts@.len() as int, da, db),
                -2 * da <= idp as int <= 2 * db,
                seq_coords(pts@) == path.take(pts@.len() as int),
            decreases da - pts@.len(),
        {
            let ghost i = pts@.len() as int;
            proof {
                if i == da {
                    assert(ty as int == e.1) by (nonlinear_arith)
                        requires
                            ty as int == s.1 + da * syi,
                            e.1 == if syi == 1 { s.1 + da } else { s.1 - da },
                            syi == 1 || syi == -1,
                    ;
                }
                assert(i < da);
            }
            let ghost pre = pts@;
            pts.push(Point { x: tx, y: ty });
            proof {
                assert(path[i] == (tx as int, ty as int));
                assert forall|j: int| 0 <= j < i + 1 implies seq_coords(pts@)[j] == path.take(
                    i + 1,
                )[j] by {
                    if j < i {
                        assert(seq_coords(pre)[j] == path.take(i)[j]);
                    }
                }
                assert(seq_coords(pts@) =~= path.take(i + 1));
                lemma_minor_step(i, da, db);
                lemma_minor_off_bounds(i + 1, da, db);
            }
            let ghost m = minor_off(i, da, db);
            let ghost m1 = minor_off(i + 1, da, db);
            ty = ty + sy;
            proof {
                assert(ty as int == s.1 + (i + 1) * syi) by (nonlinear_arith)
                    requires
                        ty as int == s.1 + i * syi + syi,
                ;
            }
            if idp > 0 {
                tx = tx + sx;
                idp = idp + 2 * (dx - dy);
                proof {
                    assert(m1 == m + 1);
                    assert(tx as int == s.0 + m1 * sxi) by (nonlinear_arith)
                        requires
                            tx as int == s.0 + m * sxi + sxi,
                            m1 == m + 1,
                    ;
                    assert(idp as int == bres_err(i + 1, da, db)) by (nonlinear_arith)
                        requires
                            idp as int == 2 * (i + 1) * db - (2 * m + 1) * da + 2 * db - 2 * da,
                            bres_err(i + 1, da, db) == 2 * (i + 2) * db - (2 * m1 + 1) * da,
                            m1 == m + 1,
                    ;
                }
            } else {
                idp = idp + 2 * dx;
                proof {
                    assert(m1 == m);
                    assert(idp as int == bres_err(i + 1, da, db)) by (nonlinear_arith)
                        requires
                            idp as int == 2 * (i + 1) * db - (2 * m + 1) * da + 2 * db,
                            bres_err(i + 1, da, db) == 2 * (i + 2) * db - (2 * m1 + 1) * da,
                            m1 == m,
                    ;
                }
            }
        }
        let ghost i = pts@.len() as int;
        proof {
            if i < da {
                assert(ty as int != e.1) by (nonlinear_arith)
                    requires
                        ty as int == s.1 + i * syi,
                        e.1 == if syi == 1 { s.1 + da } else { s.1 - da },
                        syi == 1 || syi == -1,
                        0 <= i < da,
                ;
            }
            assert(i == da);
        }
        let ghost pre = pts@;
        pts.push(Point { x: tx, y: ty });
        proof {
            assert(path[i] == (tx as int, ty as int));
            assert forall|j: int| 0 <= j < i + 1 implies seq_coords(pts@)[j] == path[j] by {
                if j < i {
                    assert(seq_coords(pre)[j] == path.take(i)[j]);
                }
            }
            assert(seq_coords(pts@) =~= path);
        }
    }
    pts
}

impl Line {
    pub fn new(start: &Point, end: &Point) -> (l: Line)
        ensures
            l == (Line { start: *start, end: *end }),
    {
        Line { start: *start, end: *end }
    }

    /// A line with both endpoints sampled from the `width` by `height`
    /// rectangle.
    pub fn random(width: i32, height: i32) -> (l: Line)
        requires
            1 <= width,
            1 <= height,
        ensures
            0 <= l.start.x < width,
            0 <= l.start.y < height,
            0 <= l.end.x < width,
            0 <= l.end.y < height,
    {
        Line { start: Point::random(width, height), end: Point::random(width, height) }
    }

    /// Rasterize this line in the given shared color, every visited pixel
    /// clipped to the canvas.
    pub fn draw_with_color(&self, image: &mut raster::Image, color: &Rgb)
        requires
            img_wf(*old(image)),
        ensures
            img_wf(*final(image)),
            final(image).width == old(image).width,
            final(image).height == old(image).height,
            canvas_view(*final(image)) == paint(
                canvas_view(*old(image)),
                old(image).width as int,
                old(image).height as int,
                line_pixels(*self),
                color.channels(),
            ),
    {
        let pts = bresenham_points(&self.start, &self.end);
        blit(image, &pts, color);
    }

    /// Rasterize this line in one freshly sampled color.
    pub fn draw(&self, image: &mut raster::Image)
        requires
            img_wf(*old(image)),
        ensures
            img_wf(*final(image)),
            final(image).width == old(image).width,
            final(image).height == old(image).height,
            exists|c: Rgb|
                canvas_view(*final(image)) == paint(
                    canvas_view(*old(image)),
                    old(image).width as int,
                    old(image).height as int,
                    line_pixels(*self),
                    c.channels(),
                ),
    {
        let color = self.color();
        self.draw_with_color(image, &color);
    }

    /// A freshly sampled color.
    pub fn color(&self) -> Rgb {
        sample_color()
    }
}

} // verus!
