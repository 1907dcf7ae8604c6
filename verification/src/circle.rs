use vstd::prelude::*;
use crate::canvas::{canvas_view, img_wf, paint};
use crate::color::Rgb;
use crate::point::{blit, in_i32, seq_coords, Point};
use crate::rng::{sample_below, sample_color};

verus! {

/// A circle given by its center and radius, rasterized with the integer
/// midpoint algorithm over eight-way symmetry. Radius zero draws the
/// center point; a negative radius draws nothing.
#[derive(Debug, PartialEq, Eq, Structural, Clone, Copy)]
pub struct Circle {
    pub center: Point,
    pub radius: i32,
}

/// The eight reflections of the offset `(x, y)` around the center
/// `(cx, cy)`, in the order the rasterizer writes them.
pub open spec fn octet(cx: int, cy: int, x: int, y: int) -> Seq<(int, int)> {
    seq![
        (cx + x, cy + y),
        (cx + y, cy + x),
        (cx - y, cy + x),
        (cx - x, cy + y),
        (cx - x, cy - y),
        (cx - y, cy - x),
        (cx + y, cy - x),
        (cx + x, cy - y),
    ]
}

/// The midpoint walk from the state `(x, y, err)` down to the diagonal:
/// while `x >= y`, emit the eight reflections of `(x, y)`, then raise `y`
/// when the error is not positive, and lower `x` when it then is.
pub open spec fn circle_steps(cx: int, cy: int, x: int, y: int, err: int) -> Seq<(int, int)>
    decreases x - y + 2,
{
    if x < y {
        Seq::empty()
    } else {
        let y1 = if err <= 0 {
            y + 1
        } else {
            y
        };
        let e1 = if err <= 0 {
            err + 2 * y1 + 1
        } else {
            err
        };
        let x1 = if e1 > 0 {
            x - 1
        } else {
            x
        };
        let e2 = if e1 > 0 {
            e1 - 2 * x1 - 1
        } else {
            e1
        };
        octet(cx, cy, x, y) + circle_steps(cx, cy, x1, y1, e2)
    }
}

/// The pixel sequence of a circle: the whole midpoint walk from the
/// easternmost point.
pub open spec fn circle_pixels(c: Circle) -> Seq<(int, int)> {
    circle_steps(c.center.x as int, c.center.y as int, c.radius as int, 0, 0)
}

/// Whether a circle of radius `r` around `(cx, cy)` fits 32-bit
/// coordinates on both axes.
pub open spec fn ring_fits(cx: int, cy: int, r: int) -> bool {
    r >= 0 ==> in_i32(cx - r) && in_i32(cx + r) && in_i32(cy - r) && in_i32(cy + r)
}

/// The drawable precondition of a circle value.
pub open spec fn circle_fits(c: Circle) -> bool {
    ring_fits(c.center.x as int, c.center.y as int, c.radius as int)
}

/// The squared distance between two coordinates.
pub open spec fn dist_sq(p: (int, int), q: (int, int)) -> int {
    (p.0 - q.0) * (p.0 - q.0) + (p.1 - q.1) * (p.1 - q.1)
}

proof fn lemma_concat_contains_left(a: Seq<(int, int)>, b: Seq<(int, int)>, q: (int, int))
    requires
        a.contains(q),
    ensures
        (a + b).contains(q),
{
    let i = choose|i: int| 0 <= i < a.len() && a[i] == q;
    assert((a + b)[i] == q);
}

proof fn lemma_concat_contains_split(a: Seq<(int, int)>, b: Seq<(int, int)>, q: (int, int))
    requires
        (a + b).contains(q),
    ensures
        a.contains(q) || b.contains(q),
{
    let i = choose|i: int| 0 <= i < (a + b).len() && (a + b)[i] == q;
    if i < a.len() {
        assert(a[i] == q);
    } else {
        assert(b[i - a.len()] == q);
    }
}

/// The reflections of a reflection of `(x, y)` are reflections of `(x, y)`
/// again: each entry of the reflected octet lies in the original octet.
proof fn lemma_octet_perm(cx: int, cy: int, x: int, y: int, u: int, v: int)
    requires
        (u == x && v == y) || (u == y && v == x) || (u == -y && v == x) || (u == -x && v == y) || (
        u == -x && v == -y) || (u == -y && v == -x) || (u == y && v == -x) || (u == x && v == -y),
    ensures
        forall|j: int|
            0 <= j < 8 ==> octet(cx, cy, x, y).contains(#[trigger] octet(cx, cy, u, v)[j]),
{
    let a = octet(cx, cy, x, y);
    let b = octet(cx, cy, u, v);
    assert forall|j: int| 0 <= j < 8 implies a.contains(b[j]) by {
        if u == x && v == y {
            assert(b[0] == a[0]);
            assert(b[1] == a[1]);
            assert(b[2] == a[2]);
            assert(b[3] == a[3]);
            assert(b[4] == a[4]);
            assert(b[5] == a[5]);
            assert(b[6] == a[6]);
            assert(b[7] == a[7]);
        } else if u == y && v == x {
            assert(b[0] == a[1]);
            assert(b[1] == a[0]);
            assert(b[2] == a[3]);
            assert(b[3] == a[2]);
            assert(b[4] == a[5]);
            assert(b[5] == a[4]);
            assert(b[6] == a[7]);
            assert(b[7] == a[6]);
        } else if u == -y && v == x {
            assert(b[0] == a[2]);
            assert(b[1] == a[7]);
            assert(b[2] == a[4]);
            assert(b[3] == a[1]);
            assert(b[4] == a[6]);
            assert(b[5] == a[3]);
            assert(b[6] == a[0]);
            assert(b[7] == a[5]);
        } else if u == -x && v == y {
            assert(b[0] == a[3]);
            assert(b[1] == a[6]);
            assert(b[2] == a[5]);
            assert(b[3] == a[0]);
            assert(b[4] == a[7]);
            assert(b[5] == a[2]);
            assert(b[6] == a[1]);
            assert(b[7] == a[4]);
        } else if u == -x && v == -y {
            assert(b[0] == a[4]);
            assert(b[1] == a[5]);
            assert(b[2] == a[6]);
            assert(b[3] == a[7]);
            assert(b[4] == a[0]);
            assert(b[5] == a[1]);
            assert(b[6] == a[2]);
            assert(b[7] == a[3]);
        } else if u == -y && v == -x {
            assert(b[0] == a[5]);
            assert(b[1] == a[4]);
            assert(b[2] == a[7]);
            assert(b[3] == a[6]);
            assert(b[4] == a[1]);
            assert(b[5] == a[0]);
            assert(b[6] == a[3]);
            assert(b[7] == a[2]);
        } else if u == y && v == -x {
            assert(b[0] == a[6]);
            assert(b[1] == a[3]);
            assert(b[2] == a[0]);
            assert(b[3] == a[5]);
            assert(b[4] == a[2]);
            assert(b[5] == a[7]);
            assert(b[6] == a[4]);
            assert(b[7] == a[1]);
        } else {
            assert(u == x && v == -y);
            assert(b[0] == a[7]);
            assert(b[1] == a[2]);
            assert(b[2] == a[1]);
            assert(b[3] == a[4]);
            assert(b[4] == a[3]);
            assert(b[5] == a[6]);
            assert(b[6] == a[5]);
            assert(b[7] == a[0]);
        }
    }
}

/// The invariant the midpoint walk maintains: the error tracks the squared
/// distance to the ring, and stays between `-2x` and `2y` while the walk
/// is above the diagonal.
spec fn walk_inv(x: int, y: int, err: int, r: int) -> bool {
    &&& err == x * x + y * y - r * r + 2 * y
    &&& 0 <= y
    &&& x <= r
    &&& (x >= y ==> -2 * x <= err && err <= 2 * y)
}

proof fn lemma_walk_inv_step(x: int, y: int, err: int, r: int)
    requires
        walk_inv(x, y, err, r),
        x >= y,
    ensures
        ({
            let y1 = if err <= 0 {
                y + 1
            } else {
                y
            };
            let e1 = if err <= 0 {
                err + 2 * y1 + 1
            } else {
                err
            };
            let x1 = if e1 > 0 {
                x - 1
            } else {
                x
            };
            let e2 = if e1 > 0 {
                e1 - 2 * x1 - 1
            } else {
                e1
            };
            walk_inv(x1, y1, e2, r)
        }),
{
    let y1 = if err <= 0 {
        y + 1
    } else {
        y
    };
    let e1 = if err <= 0 {
        err + 2 * y1 + 1
    } else {
        err
    };
    let x1 = if e1 > 0 {
        x - 1
    } else {
        x
    };
    let e2 = if e1 > 0 {
        e1 - 2 * x1 - 1
    } else {
        e1
    };
    assert(e1 == x * x + y1 * y1 - r * r + 2 * y1) by (nonlinear_arith)
        requires
            err == x * x + y * y - r * r + 2 * y,
            y1 == if err <= 0 {
                y + 1
            } else {
                y
            },
            e1 == if err <= 0 {
                err + 2 * y1 + 1
            } else {
                err
            },
    ;
    assert(e2 == x1 * x1 + y1 * y1 - r * r + 2 * y1) by (nonlinear_arith)
        requires
            e1 == x * x + y1 * y1 - r * r + 2 * y1,
            x1 == if e1 > 0 {
                x - 1
            } else {
                x
            },
            e2 == if e1 > 0 {
                e1 - 2 * x1 - 1
            } else {
                e1
            },
    ;
    if err <= 0 {
        if e1 > 0 {
            // both steps: e2 is at least -2 x1, and small when the walk
            // continues
            assert(e2 >= -2 * x1);
            if x1 >= y1 {
                assert(e1 <= 2 * y + 3);
                assert(e2 <= 2 * y1);
            }
        } else {
            if x1 >= y1 {
                assert(e1 >= -2 * x + 2 * y + 3);
            }
        }
    } else {
        // the error is positive, so y >= 1 and only x steps
        assert(e1 > 0);
        assert(e2 >= -2 * x1);
        if x1 >= y1 {
            assert(e2 <= 2 * y1);
        }
    }
}

/// Every point the walk emits keeps the squared distance to the center
/// within the ring bounds.
proof fn lemma_steps_ring(cx: int, cy: int, x: int, y: int, err: int, r: int, p: (int, int))
    requires
        circle_steps(cx, cy, x, y, err).contains(p),
        walk_inv(x, y, err, r),
        0 <= r,
    ensures
        dist_sq(p, (cx, cy)) <= r * r,
        r >= 1 ==> 4 * dist_sq(p, (cx, cy)) >= (2 * r - 3) * (2 * r - 3),
    decreases x - y + 2,
{
    assert(!(x < y));
    let y1 = if err <= 0 {
        y + 1
    } else {
        y
    };
    let e1 = if err <= 0 {
        err + 2 * y1 + 1
    } else {
        err
    };
    let x1 = if e1 > 0 {
        x - 1
    } else {
        x
    };
    let e2 = if e1 > 0 {
        e1 - 2 * x1 - 1
    } else {
        e1
    };
    let oct = octet(cx, cy, x, y);
    let rest = circle_steps(cx, cy, x1, y1, e2);
    lemma_concat_contains_split(oct, rest, p);
    if oct.contains(p) {
        let u = p.0 - cx;
        let v = p.1 - cy;
        let i = choose|i: int| 0 <= i < 8 && oct[i] == p;
        let sq = x * x + y * y;
        if i == 0 || i == 3 || i == 4 || i == 7 {
            assert((u == x || u == -x) && (v == y || v == -y));
            assert(u * u + v * v == sq) by (nonlinear_arith)
                requires
                    (u == x || u == -x) && (v == y || v == -y),
                    sq == x * x + y * y,
            ;
        } else {
            assert((u == y || u == -y) && (v == x || v == -x));
            assert(u * u + v * v == sq) by (nonlinear_arith)
                requires
                    (u == y || u == -y) && (v == x || v == -x),
                    sq == x * x + y * y,
            ;
        }
        assert(dist_sq(p, (cx, cy)) == sq);
        assert(sq <= r * r);
        assert(sq >= r * r - 2 * (x + y));
        if r >= 1 {
            let t = x + y;
            assert(t * t <= 2 * sq) by (nonlinear_arith)
                requires
                    sq == x * x + y * y,
                    t == x + y,
            ;
            if 2 * t <= 3 * r - 3 {
                assert(4 * sq >= (2 * r - 3) * (2 * r - 3)) by (nonlinear_arith)
                    requires
                        sq >= r * r - 2 * t,
                        2 * t <= 3 * r - 3,
                        r >= 1,
                ;
            } else if r == 1 {
                assert(4 * sq >= (2 * r - 3) * (2 * r - 3)) by (nonlinear_arith)
                    requires
                        t * t <= 2 * sq,
                        2 * t >= 3 * r - 2,
                        r == 1,
                ;
            } else {
                assert(4 * (t * t) >= (3 * r - 2) * (3 * r - 2)) by (nonlinear_arith)
                    requires
                        2 * t >= 3 * r - 2,
                        3 * r - 2 >= 0,
                ;
                assert(4 * sq >= (2 * r - 3) * (2 * r - 3)) by (nonlinear_arith)
                    requires
                        4 * (t * t) >= (3 * r - 2) * (3 * r - 2),
                        t * t <= 2 * sq,
                        r >= 2,
                ;
            }
        }
    } else {
        lemma_walk_inv_step(x, y, err, r);
        lemma_steps_ring(cx, cy, x1, y1, e2, r, p);
    }
}

/// Every pixel of a circle's path lies on the ring: its squared distance
/// from the center is at most the squared radius, and for radius at least
/// one it is more than the square of the radius less three halves. The
/// rounded distance therefore differs from the radius by at most one.
pub proof fn lemma_circle_ring(c: Circle, p: (int, int))
    requires
        circle_pixels(c).contains(p),
        c.radius >= 0,
    ensures
        dist_sq(p, c.center.coords()) <= (c.radius as int) * (c.radius as int),
        c.radius >= 1 ==> 4 * dist_sq(p, c.center.coords()) >= (2 * c.radius - 3) * (2 * c.radius
            - 3),
{
    let r = c.radius as int;
    assert(walk_inv(r, 0, 0, r)) by (nonlinear_arith)
        requires
            r >= 0,
    ;
    lemma_steps_ring(c.center.x as int, c.center.y as int, r, 0, 0, r, p);
}

/// Every point the walk emits has all eight of its reflections around the
/// center in the walk as well.
proof fn lemma_steps_symmetric(cx: int, cy: int, x: int, y: int, err: int, p: (int, int))
    requires
        circle_steps(cx, cy, x, y, err).contains(p),
    ensures
        forall|j: int|
            0 <= j < 8 ==> circle_steps(cx, cy, x, y, err).contains(
                #[trigger] octet(cx, cy, p.0 - cx, p.1 - cy)[j],
            ),
    decreases x - y + 2,
{
    assert(!(x < y));
    let y1 = if err <= 0 {
        y + 1
    } else {
        y
    };
    let e1 = if err <= 0 {
        err + 2 * y1 + 1
    } else {
        err
    };
    let x1 = if e1 > 0 {
        x - 1
    } else {
        x
    };
    let e2 = if e1 > 0 {
        e1 - 2 * x1 - 1
    } else {
        e1
    };
    let oct = octet(cx, cy, x, y);
    let rest = circle_steps(cx, cy, x1, y1, e2);
    let u = p.0 - cx;
    let v = p.1 - cy;
    lemma_concat_contains_split(oct, rest, p);
    if oct.contains(p) {
        let i = choose|i: int| 0 <= i < 8 && oct[i] == p;
        if i == 0 {
            assert(u == x && v == y);
        } else if i == 1 {
            assert(u == y && v == x);
        } else if i == 2 {
            assert(u == -y && v == x);
        } else if i == 3 {
            assert(u == -x && v == y);
        } else if i == 4 {
            assert(u == -x && v == -y);
        } else if i == 5 {
            assert(u == -y && v == -x);
        } else if i == 6 {
            assert(u == y && v == -x);
        } else {
            assert(u == x && v == -y);
        }
        lemma_octet_perm(cx, cy, x, y, u, v);
        assert forall|j: int| 0 <= j < 8 implies circle_steps(cx, cy, x, y, err).contains(
            #[trigger] octet(cx, cy, u, v)[j],
        ) by {
            assert(oct.contains(octet(cx, cy, u, v)[j]));
            lemma_concat_contains_left(oct, rest, octet(cx, cy, u, v)[j]);
        }
    } else {
        lemma_steps_symmetric(cx, cy, x1, y1, e2, p);
        assert forall|j: int| 0 <= j < 8 implies circle_steps(cx, cy, x, y, err).contains(
            #[trigger] octet(cx, cy, u, v)[j],
        ) by {
            assert(rest.contains(octet(cx, cy, u, v)[j]));
            let i = choose|i: int| 0 <= i < rest.len() && rest[i] == octet(cx, cy, u, v)[j];
            assert((oct + rest)[oct.len() + i] == octet(cx, cy, u, v)[j]);
        }
    }
}

/// The pixel set of a circle is symmetric under the eight reflections the
/// rasterizer uses: every reflection of a path point around the center is
/// a path point.
pub proof fn lemma_circle_symmetric(c: Circle, p: (int, int))
    requires
        circle_pixels(c).contains(p),
    ensures
        forall|j: int|
            0 <= j < 8 ==> circle_pixels(c).contains(
                #[trigger] octet(
                    c.center.x as int,
                    c.center.y as int,
                    p.0 - c.center.x,
                    p.1 - c.center.y,
                )[j],
            ),
{
    lemma_steps_symmetric(c.center.x as int, c.center.y as int, c.radius as int, 0, 0, p);
}

/// Push the eight reflections of `(x, y)` around `(cx, cy)`, in the
/// rasterizer's order.
fn push_octet(pts: &mut Vec<Point>, cx: i32, cy: i32, x: i64, y: i64)
    requires
        0 <= y <= x,
        in_i32(cx as int + x as int),
        in_i32(cx as int - x as int),
        in_i32(cy as int + x as int),
        in_i32(cy as int - x as int),
    ensures
        seq_coords(final(pts)@) == seq_coords(old(pts)@) + octet(
            cx as int,
            cy as int,
            x as int,
            y as int,
        ),
{
    let ghost pre = pts@;
    let ghost n = pre.len() as int;
    let xa = (cx as i64 + x) as i32;
    let xb = (cx as i64 + y) as i32;
    let xc = (cx as i64 - y) as i32;
    let xd = (cx as i64 - x) as i32;
    let ya = (cy as i64 + y) as i32;
    let yb = (cy as i64 + x) as i32;
    let yc = (cy as i64 - x) as i32;
    let yd = (cy as i64 - y) as i32;
    pts.push(Point { x: xa, y: ya });
    pts.push(Point { x: xb, y: yb });
    pts.push(Point { x: xc, y: yb });
    pts.push(Point { x: xd, y: ya });
    pts.push(Point { x: xd, y: yd });
    pts.push(Point { x: xc, y: yc });
    pts.push(Point { x: xb, y: yc });
    pts.push(Point { x: xa, y: yd });
    proof {
        let oct = octet(cx as int, cy as int, x as int, y as int);
        assert(pts@.len() == n + 8);
        assert forall|j: int| 0 <= j < n + 8 implies seq_coords(pts@)[j] == (seq_coords(pre)
            + oct)[j] by {
            if j < n {
                assert(pts@[j] == pre[j]);
            } else if j == n {
                assert(pts@[j] == (Point { x: xa, y: ya }));
            } else if j == n + 1 {
                assert(pts@[j] == (Point { x: xb, y: yb }));
            } else if j == n + 2 {
                assert(pts@[j] == (Point { x: xc, y: yb }));
            } else if j == n + 3 {
                assert(pts@[j] == (Point { x: xd, y: ya }));
            } else if j == n + 4 {
                assert(pts@[j] == (Point { x: xd, y: yd }));
            } else if j == n + 5 {
                assert(pts@[j] == (Point { x: xc, y: yc }));
            } else if j == n + 6 {
                assert(pts@[j] == (Point { x: xb, y: yc }));
            } else {
                assert(pts@[j] == (Point { x: xa, y: yd }));
            }
        }
        assert(seq_coords(pts@) =~= seq_coords(pre) + oct);
    }
}

/// Rasterize the circle of the given radius around `center`: the visited
/// coordinates in visiting order.
pub fn circle_points(center: &Point, radius: i32) -> (pts: Vec<Point>)
    requires
        ring_fits(center.x as int, center.y as int, radius as int),
    ensures
        seq_coords(pts@) == circle_steps(center.x as int, center.y as int, radius as int, 0, 0),
{
    let cx = center.x;
    let cy = center.y;
    let ghost cxi = cx as int;
    let ghost cyi = cy as int;
    let ghost ri = radius as int;
    let ghost full = circle_steps(cxi, cyi, ri, 0, 0);
    let mut x: i64 = radius as i64;
    let mut y: i64 = 0;
    let mut err: i64 = 0;
    let mut pts: Vec<Point> = Vec::new();
    proof {
        assert(walk_inv(ri, 0, 0, ri)) by (nonlinear_arith)
            requires
                ri >= 0 || ri < 0,
        ;
    }
    while x >= y
        invariant
            cxi == center.x as int,
            cyi == center.y as int,
            cx as int == cxi,
            cy as int == cyi,
            ring_fits(cxi, cyi, ri),
            walk_inv(x as int, y as int, err as int, ri),
            full == seq_coords(pts@) + circle_steps(cxi, cyi, x as int, y as int, err as int),
        decreases x - y + 2,
    {
        let ghost xo = x as int;
        let ghost yo = y as int;
        let ghost eo = err as int;
        let ghost pre = pts@;
        proof {
            assert(ri >= 0);
        }
        push_octet(&mut pts, cx, cy, x, y);
        if err <= 0 {
            y = y + 1;
            err = err + 2 * y + 1;
        }
        if err > 0 {
            x = x - 1;
            err = err - 2 * x - 1;
        }
        proof {
            let y1 = if eo <= 0 {
                yo + 1
            } else {
                yo
            };
            let e1 = if eo <= 0 {
                eo + 2 * y1 + 1
            } else {
                eo
            };
            let x1 = if e1 > 0 {
                xo - 1
            } else {
                xo
            };
            let e2 = if e1 > 0 {
                e1 - 2 * x1 - 1
            } else {
                e1
            };
            assert(x as int == x1 && y as int == y1 && err as int == e2);
            lemma_walk_inv_step(xo, yo, eo, ri);
            assert(circle_steps(cxi, cyi, xo, yo, eo) == octet(cxi, cyi, xo, yo) + circle_steps(
                cxi,
                cyi,
                x1,
                y1,
                e2,
            ));
            assert(full =~= seq_coords(pts@) + circle_steps(cxi, cyi, x1, y1, e2));
        }
    }
    proof {
        assert(circle_steps(cxi, cyi, x as int, y as int, err as int) =~= Seq::<(int, int)>::empty());
        assert(full =~= seq_coords(pts@));
    }
    pts
}

impl Circle {
    pub fn new(center: &Point, radius: i32) -> (c: Circle)
        ensures
            c == (Circle { center: *center, radius }),
    {
        Circle { center: *center, radius }
    }

    /// A circle with its center sampled from the `width` by `height`
    /// rectangle and its radius sampled from `[0, 100)`.
    pub fn random(width: i32, height: i32) -> (c: Circle)
        requires
            1 <= width,
            1 <= height,
        ensures
            0 <= c.center.x < width,
            0 <= c.center.y < height,
            0 <= c.radius < 100,
    {
        Circle { center: Point::random(width, height), radius: sample_below(100) }
    }

    /// Rasterize the circle in the one given color, every pixel clipped to
    /// the canvas.
    pub fn draw_with_color(&self, image: &mut raster::Image, color: &Rgb)
        requires
            img_wf(*old(image)),
            circle_fits(*self),
        ensures
            img_wf(*final(image)),
            final(image).width == old(image).width,
            final(image).height == old(image).height,
            canvas_view(*final(image)) == paint(
                canvas_view(*old(image)),
                old(image).width as int,
                old(image).height as int,
                circle_pixels(*self),
                color.channels(),
            ),
    {
        let pts = circle_points(&self.center, self.radius);
        blit(image, &pts, color);
    }

    /// Rasterize the circle in one freshly sampled shared color.
    pub fn draw(&self, image: &mut raster::Image)
        requires
            img_wf(*old(image)),
            circle_fits(*self),
        ensures
            img_wf(*final(image)),
            final(image).width == old(image).width,
            final(image).height == old(image).height,
            exists|c: Rgb|
                canvas_view(*final(image)) == paint(
                    canvas_view(*old(image)),
                    old(image).width as int,
                    old(image).height as int,
                    circle_pixels(*self),
                    c.channels(),
                ),
    {
        let color = self.color();
        self.draw_with_color(image, &color);
    }

    /// A freshly sampled color.
    pub fn color(&self) -> Rgb {
        sample_color()
    }
}

} // verus!
