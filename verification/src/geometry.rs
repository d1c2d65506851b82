//! Points, triangles and the fill rule that decides which pixels a triangle
//! covers.
//!
//! The rule evaluates three edge functions at a pixel and compares their
//! signs with one fixed test, `> 0`, for every edge. Vertex order matters on
//! the boundary and nowhere else: the covered set always lies between the open
//! and the closed triangle.

use vstd::prelude::*;
use vstd::seq_lib::lemma_seq_contains_after_push;
use crate::color::Color;

verus! {

/// A pixel position: column `x`, row `y`.
#[derive(Clone, Copy, Debug, PartialEq, Eq, Structural)]
pub struct Point {
    pub x: u32,
    pub y: u32,
}

/// The one drawable shape: three vertices and a colour.
#[derive(Clone, Copy, Debug, PartialEq, Eq, Structural)]
pub struct Triangle {
    pub a: Point,
    pub b: Point,
    pub c: Point,
    pub color: Color,
}

impl Point {
    /// The point is a pixel of a `width` by `height` image.
    pub open spec fn within(self, width: int, height: int) -> bool {
        self.x < width && self.y < height
    }
}

/// The edge function of the directed edge from `o` to `t`, at `(x, y)`: the
/// cross product of `t - o` and `(x, y) - o`. Its sign says on which side of
/// the edge the position lies; it is zero on the edge's line.
pub open spec fn edge(o: Point, t: Point, x: int, y: int) -> int {
    (t.x - o.x) * (y - o.y) - (t.y - o.y) * (x - o.x)
}

/// The least of three numbers.
pub open spec fn min3(p: int, q: int, r: int) -> int {
    if p <= q && p <= r {
        p
    } else if q <= r {
        q
    } else {
        r
    }
}

/// The greatest of three numbers.
pub open spec fn max3(p: int, q: int, r: int) -> int {
    if p >= q && p >= r {
        p
    } else if q >= r {
        q
    } else {
        r
    }
}

/// Scan order: by column, then by row within a column.
pub open spec fn scans_before(p: Point, q: Point) -> bool {
    p.x < q.x || (p.x == q.x && p.y < q.y)
}

/// Every element comes strictly before every later one in scan order.
pub open spec fn scan_ordered(pixels: Seq<Point>) -> bool {
    forall|i: int, j: int|
        0 <= i < j < pixels.len() ==> scans_before(#[trigger] pixels[i], #[trigger] pixels[j])
}

impl Triangle {
    /// All three vertices are pixels of a `width` by `height` image.
    pub open spec fn within(self, width: int, height: int) -> bool {
        self.a.within(width, height) && self.b.within(width, height) && self.c.within(width, height)
    }

    /// Twice the signed area: the edge function of `a -> b` at `c`.
    pub open spec fn doubled_area(self) -> int {
        edge(self.a, self.b, self.c.x as int, self.c.y as int)
    }

    /// The inside test. The position passes when the edges `a -> b` and
    /// `a -> c` disagree under `> 0` while `a -> b` and `b -> c` agree.
    pub open spec fn inside(self, x: int, y: int) -> bool {
        let ab = edge(self.a, self.b, x, y) > 0;
        let ac = edge(self.a, self.c, x, y) > 0;
        let bc = edge(self.b, self.c, x, y) > 0;
        ab != ac && ab == bc
    }

    /// The least `x` of the three vertices.
    pub open spec fn min_x(self) -> int {
        min3(self.a.x as int, self.b.x as int, self.c.x as int)
    }

    /// The greatest `x` of the three vertices.
    pub open spec fn max_x(self) -> int {
        max3(self.a.x as int, self.b.x as int, self.c.x as int)
    }

    /// The least `y` of the three vertices.
    pub open spec fn min_y(self) -> int {
        min3(self.a.y as int, self.b.y as int, self.c.y as int)
    }

    /// The greatest `y` of the three vertices.
    pub open spec fn max_y(self) -> int {
        max3(self.a.y as int, self.b.y as int, self.c.y as int)
    }

    /// The scan box: the bounding box of the vertices, its upper bounds left
    /// out, cut down to a `width` by `height` image.
    pub open spec fn in_scan_box(self, width: int, height: int, x: int, y: int) -> bool {
        &&& self.min_x() <= x < self.max_x()
        &&& self.min_y() <= y < self.max_y()
        &&& x < width
        &&& y < height
    }

    /// Whether the triangle paints pixel `(x, y)` of a `width` by `height`
    /// image.
    pub open spec fn covers(self, width: int, height: int, x: int, y: int) -> bool {
        self.in_scan_box(width, height, x, y) && self.inside(x, y)
    }
}

/// Every pixel of the list is a pixel of a `width` by `height` image.
pub open spec fn all_within(pixels: Seq<Point>, width: int, height: int) -> bool {
    forall|i: int| 0 <= i < pixels.len() ==> (#[trigger] pixels[i]).within(width, height)
}

/// `pixels` lists exactly the pixels that `t` paints on a `width` by
/// `height` image, each of them once.
pub open spec fn is_footprint(pixels: Seq<Point>, t: Triangle, width: int, height: int) -> bool {
    &&& pixels.no_duplicates()
    &&& forall|p: Point| #[trigger] pixels.contains(p) <==> t.covers(width, height, p.x as int, p.y as int)
}

/// A footprint names pixels of the image only.
pub proof fn lemma_footprint_within(pixels: Seq<Point>, t: Triangle, width: int, height: int)
    requires
        is_footprint(pixels, t, width, height),
    ensures
        all_within(pixels, width, height),
{
    assert forall|i: int| 0 <= i < pixels.len() implies (#[trigger] pixels[i]).within(
        width,
        height,
    ) by {
        assert(pixels.contains(pixels[i]));
    }
}

/// Two footprints of one triangle on one image hold the same pixels.
pub proof fn lemma_footprint_determined(
    p: Seq<Point>,
    q: Seq<Point>,
    t: Triangle,
    width: int,
    height: int,
)
    requires
        is_footprint(p, t, width, height),
        is_footprint(q, t, width, height),
    ensures
        p.to_set() == q.to_set(),
        p.len() == q.len(),
{
    assert(p.to_set() =~= q.to_set());
    p.unique_seq_to_set();
    q.unique_seq_to_set();
}

/// Two lists in scan order that name the same pixels are the same list.
pub proof fn lemma_scan_order_unique(p: Seq<Point>, q: Seq<Point>)
    requires
        scan_ordered(p),
        scan_ordered(q),
        forall|pt: Point| p.contains(pt) <==> q.contains(pt),
    ensures
        p == q,
    decreases p.len(),
{
    if p.len() == 0 {
        if q.len() > 0 {
            assert(q.contains(q[0]));
        }
        assert(p =~= q);
    } else {
        let last_p = p.last();
        assert(p.contains(last_p));
        assert(q.contains(last_p));
        let last_q = q.last();
        assert(q.contains(last_q));
        assert(p.contains(last_q));
        let i = choose|i: int| 0 <= i < p.len() && p[i] == last_q;
        let j = choose|j: int| 0 <= j < q.len() && q[j] == last_p;
        assert(last_p == last_q) by {
            if i < p.len() - 1 {
                assert(scans_before(p[i], p[p.len() - 1]));
            }
            if j < q.len() - 1 {
                assert(scans_before(q[j], q[q.len() - 1]));
            }
        }
        let head_p = p.drop_last();
        let head_q = q.drop_last();
        assert forall|pt: Point| head_p.contains(pt) <==> head_q.contains(pt) by {
            if head_p.contains(pt) {
                let a = choose|a: int| 0 <= a < head_p.len() && head_p[a] == pt;
                assert(p[a] == pt);
                assert(scans_before(p[a], p[p.len() - 1]));
                assert(p.contains(pt));
                let b = choose|b: int| 0 <= b < q.len() && q[b] == pt;
                assert(head_q[b] == pt);
            }
            if head_q.contains(pt) {
                let a = choose|a: int| 0 <= a < head_q.len() && head_q[a] == pt;
                assert(q[a] == pt);
                assert(scans_before(q[a], q[q.len() - 1]));
                assert(q.contains(pt));
                let b = choose|b: int| 0 <= b < p.len() && p[b] == pt;
                assert(head_p[b] == pt);
            }
        }
        assert(scan_ordered(head_p)) by {
            assert forall|a: int, b: int| 0 <= a < b < head_p.len() implies scans_before(
                #[trigger] head_p[a],
                #[trigger] head_p[b],
            ) by {
                assert(scans_before(p[a], p[b]));
            }
        }
        assert(scan_ordered(head_q)) by {
            assert forall|a: int, b: int| 0 <= a < b < head_q.len() implies scans_before(
                #[trigger] head_q[a],
                #[trigger] head_q[b],
            ) by {
                assert(scans_before(q[a], q[b]));
            }
        }
        lemma_scan_order_unique(head_p, head_q);
        assert(p =~= head_p.push(last_p));
        assert(q =~= head_q.push(last_q));
    }
}

/// Rasterizing is a function of the triangle and the image size: two lists
/// that both meet what `rasterize` promises are the same list.
pub proof fn lemma_rasterize_deterministic(
    p: Seq<Point>,
    q: Seq<Point>,
    t: Triangle,
    width: int,
    height: int,
)
    requires
        is_footprint(p, t, width, height),
        scan_ordered(p),
        is_footprint(q, t, width, height),
        scan_ordered(q),
    ensures
        p == q,
{
    lemma_scan_order_unique(p, q);
}

/// A sequence in scan order names no pixel twice.
pub proof fn lemma_scan_ordered_no_duplicates(pixels: Seq<Point>)
    requires
        scan_ordered(pixels),
    ensures
        pixels.no_duplicates(),
{
    assert forall|i: int, j: int|
        0 <= i < pixels.len() && 0 <= j < pixels.len() && i != j implies pixels[i] != pixels[j] by {
        if i < j {
            assert(scans_before(pixels[i], pixels[j]));
        } else {
            assert(scans_before(pixels[j], pixels[i]));
        }
    }
}

/// One edge function in the form the scan evaluates: `y * dx - x * dy +
/// offset`, its three coefficients computed once for the triangle.
struct EdgeFn {
    from: Point,
    to: Point,
    dx: i128,
    dy: i128,
    offset: i128,
}

impl EdgeFn {
    spec fn wf(self) -> bool {
        &&& self.dx == self.to.x - self.from.x
        &&& self.dy == self.to.y - self.from.y
        &&& self.offset == self.dy * self.from.x - self.dx * self.from.y
    }

    fn new(from: Point, to: Point) -> (e: EdgeFn)
        ensures
            e.wf(),
            e.from == from,
            e.to == to,
    {
        let dx: i128 = to.x as i128 - from.x as i128;
        let dy: i128 = to.y as i128 - from.y as i128;
        assert(-0x1_0000_0000_0000_0000 <= dy * from.x <= 0x1_0000_0000_0000_0000)
            by (nonlinear_arith)
            requires
                -0x1_0000_0000 <= dy <= 0x1_0000_0000,
                0 <= from.x <= 0x1_0000_0000,
        ;
        assert(-0x1_0000_0000_0000_0000 <= dx * from.y <= 0x1_0000_0000_0000_0000)
            by (nonlinear_arith)
            requires
                -0x1_0000_0000 <= dx <= 0x1_0000_0000,
                0 <= from.y <= 0x1_0000_0000,
        ;
        let offset: i128 = dy * (from.x as i128) - dx * (from.y as i128);
        EdgeFn { from, to, dx, dy, offset }
    }

    /// The `> 0` test of the edge function at `(x, y)`.
    fn positive(&self, x: u32, y: u32) -> (b: bool)
        requires
            self.wf(),
        ensures
            b == (edge(self.from, self.to, x as int, y as int) > 0),
    {
        let dx = self.dx;
        let dy = self.dy;
        assert(-0x1_0000_0000_0000_0000 <= y * dx <= 0x1_0000_0000_0000_0000) by (nonlinear_arith)
            requires
                -0x1_0000_0000 <= dx <= 0x1_0000_0000,
                0 <= y <= 0x1_0000_0000,
        ;
        assert(-0x1_0000_0000_0000_0000 <= x * dy <= 0x1_0000_0000_0000_0000) by (nonlinear_arith)
            requires
                -0x1_0000_0000 <= dy <= 0x1_0000_0000,
                0 <= x <= 0x1_0000_0000,
        ;
        assert(-0x1_0000_0000_0000_0000 <= dy * self.from.x <= 0x1_0000_0000_0000_0000)
            by (nonlinear_arith)
            requires
                -0x1_0000_0000 <= dy <= 0x1_0000_0000,
                0 <= self.from.x <= 0x1_0000_0000,
        ;
        assert(-0x1_0000_0000_0000_0000 <= dx * self.from.y <= 0x1_0000_0000_0000_0000)
            by (nonlinear_arith)
            requires
                -0x1_0000_0000 <= dx <= 0x1_0000_0000,
                0 <= self.from.y <= 0x1_0000_0000,
        ;
        let value: i128 = (y as i128) * dx - (x as i128) * dy + self.offset;
        assert(value == edge(self.from, self.to, x as int, y as int)) by (nonlinear_arith)
            requires
                value == y * dx - x * dy + (dy * self.from.x - dx * self.from.y),
                dx == self.to.x - self.from.x,
                dy == self.to.y - self.from.y,
        ;
        value > 0
    }
}

fn least(p: u32, q: u32, r: u32) -> (m: u32)
    ensures
        m == min3(p as int, q as int, r as int),
{
    if p <= q && p <= r {
        p
    } else if q <= r {
        q
    } else {
        r
    }
}

fn greatest(p: u32, q: u32, r: u32) -> (m: u32)
    ensures
        m == max3(p as int, q as int, r as int),
{
    if p >= q && p >= r {
        p
    } else if q >= r {
        q
    } else {
        r
    }
}

/// Lists the pixels that `t` paints on a `width` by `height` image: each
/// pixel of the scan box that passes the inside test, once, in scan order.
/// A triangle of no area gives the empty list.
pub fn rasterize(t: &Triangle, width: u32, height: u32) -> (pixels: Vec<Point>)
    ensures
        is_footprint(pixels@, *t, width as int, height as int),
        scan_ordered(pixels@),
        all_within(pixels@, width as int, height as int),
{
    let x_lo = least(t.a.x, t.b.x, t.c.x);
    let x_top = greatest(t.a.x, t.b.x, t.c.x);
    let x_hi = if x_top < width { x_top } else { width };
    let y_lo = least(t.a.y, t.b.y, t.c.y);
    let y_top = greatest(t.a.y, t.b.y, t.c.y);
    let y_hi = if y_top < height { y_top } else { height };
    let ab = EdgeFn::new(t.a, t.b);
    let ac = EdgeFn::new(t.a, t.c);
    let bc = EdgeFn::new(t.b, t.c);

    let mut pixels: Vec<Point> = Vec::new();
    let mut x = x_lo;
    while x < x_hi
        invariant
            ab.wf() && ab.from == t.a && ab.to == t.b,
            ac.wf() && ac.from == t.a && ac.to == t.c,
            bc.wf() && bc.from == t.b && bc.to == t.c,
            x_lo == t.min_x(),
            y_lo == t.min_y(),
            x_hi == if t.max_x() < width { t.max_x() } else { width as int },
            y_hi == if t.max_y() < height { t.max_y() } else { height as int },
            x_lo <= x,
            scan_ordered(pixels@),
            forall|i: int| 0 <= i < pixels.len() ==> (#[trigger] pixels[i]).x < x,
            forall|p: Point| #[trigger]
                pixels@.contains(p) <==> t.covers(width as int, height as int, p.x as int, p.y as int)
                    && p.x < x,
        decreases x_hi - x,
    {
        let mut y = y_lo;
        while y < y_hi
            invariant
                ab.wf() && ab.from == t.a && ab.to == t.b,
                ac.wf() && ac.from == t.a && ac.to == t.c,
                bc.wf() && bc.from == t.b && bc.to == t.c,
                x_lo == t.min_x(),
                y_lo == t.min_y(),
                x_hi == if t.max_x() < width { t.max_x() } else { width as int },
                y_hi == if t.max_y() < height { t.max_y() } else { height as int },
                x_lo <= x < x_hi,
                y_lo <= y,
                scan_ordered(pixels@),
                forall|i: int|
                    0 <= i < pixels.len() ==> scans_before(#[trigger] pixels[i], Point { x, y }),
                forall|p: Point| #[trigger]
                    pixels@.contains(p) <==> t.covers(
                        width as int,
                        height as int,
                        p.x as int,
                        p.y as int,
                    ) && scans_before(p, Point { x, y }),
            decreases y_hi - y,
        {
            let side = ab.positive(x, y);
            let hit = side != ac.positive(x, y) && side == bc.positive(x, y);
            let ghost before = pixels@;
            let ghost here = Point { x, y };
            if hit {
                pixels.push(Point { x, y });
            }
            proof {
                assert forall|p: Point| #[trigger]
                    pixels@.contains(p) <==> t.covers(
                        width as int,
                        height as int,
                        p.x as int,
                        p.y as int,
                    ) && scans_before(p, Point { x, y: (y + 1) as u32 }) by {
                    assert(before.contains(p) <==> t.covers(
                        width as int,
                        height as int,
                        p.x as int,
                        p.y as int,
                    ) && scans_before(p, here));
                    if hit {
                        lemma_seq_contains_after_push(before, here, p);
                    }
                }
            }
            y = y + 1;
        }
        x = x + 1;
    }
    proof {
        lemma_scan_ordered_no_duplicates(pixels@);
        lemma_footprint_within(pixels@, *t, width as int, height as int);
    }
    pixels
}

} // verus!
