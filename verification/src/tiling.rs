//! Laws of the fill rule: what the inside test accepts on the boundary, why
//! it leaves no gap and paints nothing twice, and how a triangle cut in two
//! is tiled by its parts.

use vstd::prelude::*;
use crate::algebra::{
    lemma_cross_exchange, lemma_cross_of_differences, lemma_cross_weights, lemma_cut_signs,
    lemma_mean_of_two, lemma_share_out, lemma_weighted_mean,
};
use crate::geometry::{edge, Point, Triangle};

verus! {

impl Triangle {
    /// Strictly inside: off every edge's line, on the inner side of all
    /// three.
    pub open spec fn strictly_inside(self, x: int, y: int) -> bool {
        let ab = edge(self.a, self.b, x, y);
        let bc = edge(self.b, self.c, x, y);
        let ca = edge(self.c, self.a, x, y);
        (ab > 0 && bc > 0 && ca > 0) || (ab < 0 && bc < 0 && ca < 0)
    }

    /// Inside or on the boundary.
    pub open spec fn within_closure(self, x: int, y: int) -> bool {
        let ab = edge(self.a, self.b, x, y);
        let bc = edge(self.b, self.c, x, y);
        let ca = edge(self.c, self.a, x, y);
        (ab >= 0 && bc >= 0 && ca >= 0) || (ab <= 0 && bc <= 0 && ca <= 0)
    }

    /// The part on the side of `b` when the triangle is cut from `a` to a
    /// point `m` of the opposite edge: `a`, `b`, `m`.
    pub open spec fn part_at_b(self, m: Point) -> Triangle {
        Triangle { c: m, ..self }
    }

    /// The part on the side of `c` of the same cut: `a`, `m`, `c`.
    pub open spec fn part_at_c(self, m: Point) -> Triangle {
        Triangle { b: m, ..self }
    }

    /// `m` lies on the edge from `b` to `c`, strictly between its ends, and
    /// the triangle has an area: both parts of the cut from `a` to `m` have
    /// an area, and of the same orientation.
    pub open spec fn cut_at(self, m: Point) -> bool {
        let at_b = self.part_at_b(m).doubled_area();
        let at_c = self.part_at_c(m).doubled_area();
        &&& edge(self.b, self.c, m.x as int, m.y as int) == 0
        &&& (at_b > 0 && at_c > 0) || (at_b < 0 && at_c < 0)
    }
}

/// The three edge functions of a triangle are tied by one linear relation:
/// the one along `b -> c` is the one along `a -> c`, plus the doubled area,
/// minus the one along `a -> b`. Reversing an edge negates its function.
pub proof fn lemma_edge_relation(t: Triangle, x: int, y: int)
    ensures
        edge(t.b, t.c, x, y) == edge(t.a, t.c, x, y) + t.doubled_area() - edge(t.a, t.b, x, y),
        edge(t.c, t.a, x, y) == -edge(t.a, t.c, x, y),
{
    // everything relative to `a`
    let (u, v) = (t.b.x - t.a.x, t.b.y - t.a.y);
    let (s, r) = (t.c.x - t.a.x, t.c.y - t.a.y);
    let (p, q) = (x - t.a.x, y - t.a.y);
    lemma_cross_of_differences(u, v, s, r, p, q);
    assert((t.c.x - t.b.x) * (y - t.b.y) == (s - u) * (q - v)) by (nonlinear_arith)
        requires
            t.c.x - t.b.x == s - u,
            y - t.b.y == q - v,
    ;
    assert((t.c.y - t.b.y) * (x - t.b.x) == (r - v) * (p - u)) by (nonlinear_arith)
        requires
            t.c.y - t.b.y == r - v,
            x - t.b.x == p - u,
    ;
    assert((t.a.x - t.c.x) * (y - t.c.y) == (0 - s) * (q - r)) by (nonlinear_arith)
        requires
            t.a.x - t.c.x == 0 - s,
            y - t.c.y == q - r,
    ;
    assert((t.a.y - t.c.y) * (x - t.c.x) == (0 - r) * (p - s)) by (nonlinear_arith)
        requires
            t.a.y - t.c.y == 0 - r,
            x - t.c.x == p - s,
    ;
}

/// What the inside test accepts, by orientation. With a positive doubled
/// area: the interior and the edge `a -> c` without its ends. With a negative
/// one: the interior and the two edges that meet at `b`, without `a` and `c`.
pub proof fn lemma_inside_by_orientation(t: Triangle, x: int, y: int)
    ensures
        t.inside(x, y) <==> {
            let ab = edge(t.a, t.b, x, y);
            let ac = edge(t.a, t.c, x, y);
            let bc = edge(t.b, t.c, x, y);
            ||| (t.doubled_area() > 0 && ab > 0 && ac <= 0 && bc > 0)
            ||| (t.doubled_area() < 0 && ab <= 0 && ac > 0 && bc <= 0)
        },
{
    lemma_edge_relation(t, x, y);
}

/// A triangle of zero area, its vertices on one line or coinciding, covers
/// nothing.
pub proof fn lemma_degenerate_covers_nothing(t: Triangle, width: int, height: int, x: int, y: int)
    requires
        t.doubled_area() == 0,
    ensures
        !t.inside(x, y),
        !t.covers(width, height, x, y),
{
    lemma_inside_by_orientation(t, x, y);
}

/// The inside test accepts every position strictly inside the triangle and
/// none outside its closure: the fill rule leaves no hole in the interior
/// and spills nothing beyond the boundary.
pub proof fn lemma_inside_between_open_and_closed(t: Triangle, x: int, y: int)
    ensures
        t.strictly_inside(x, y) ==> t.inside(x, y),
        t.inside(x, y) ==> t.within_closure(x, y),
{
    lemma_edge_relation(t, x, y);
}

/// Two triangles that share an edge, its two ends in the same two vertex
/// slots of both, with their third vertices strictly on opposite sides of
/// it, never cover the same position: a pixel on the shared edge goes to one
/// of them only.
pub proof fn lemma_shared_edge_no_overlap(s: Triangle, t: Triangle, x: int, y: int)
    requires
        (s.a == t.a && s.b == t.b) || (s.a == t.a && s.c == t.c) || (s.b == t.b && s.c == t.c),
        (s.doubled_area() > 0 && t.doubled_area() < 0) || (s.doubled_area() < 0
            && t.doubled_area() > 0),
    ensures
        !(s.inside(x, y) && t.inside(x, y)),
{
    lemma_inside_by_orientation(s, x, y);
    lemma_inside_by_orientation(t, x, y);
}

/// A position weighted by the three edge functions: the functions along
/// `b -> c`, `c -> a` and `a -> b` add up to the doubled area, and they weigh
/// `a`, `b` and `c` so as to give the position itself, scaled by that area.
pub proof fn lemma_edge_weights(t: Triangle, x: int, y: int)
    ensures
        edge(t.a, t.b, x, y) + edge(t.b, t.c, x, y) + edge(t.c, t.a, x, y) == t.doubled_area(),
        t.doubled_area() * x == edge(t.b, t.c, x, y) * t.a.x + edge(t.c, t.a, x, y) * t.b.x + edge(
            t.a,
            t.b,
            x,
            y,
        ) * t.c.x,
        t.doubled_area() * y == edge(t.b, t.c, x, y) * t.a.y + edge(t.c, t.a, x, y) * t.b.y + edge(
            t.a,
            t.b,
            x,
            y,
        ) * t.c.y,
{
    lemma_edge_relation(t, x, y);
    let (ax, ay) = (t.a.x as int, t.a.y as int);
    let (u, v) = (t.b.x - t.a.x, t.b.y - t.a.y);
    let (s, r) = (t.c.x - t.a.x, t.c.y - t.a.y);
    let (p, q) = (x - ax, y - ay);
    let k = t.doubled_area();
    let ab = edge(t.a, t.b, x, y);
    let ac = edge(t.a, t.c, x, y);
    let bc = edge(t.b, t.c, x, y);
    let ca = edge(t.c, t.a, x, y);
    lemma_cross_weights(u, v, s, r, p, q);
    assert(ca * u == -(ac * u) && ca * v == -(ac * v)) by (nonlinear_arith)
        requires
            ca == -ac,
    ;
    lemma_share_out(k, bc, ca, ab, ax, u, s, p);
    lemma_share_out(k, bc, ca, ab, ay, v, r, q);
}

/// Every pixel of the image strictly inside the triangle is covered: the
/// scan box cuts nothing off the interior, so the fill has no gap there.
pub proof fn lemma_interior_is_covered(t: Triangle, width: int, height: int, x: int, y: int)
    requires
        t.strictly_inside(x, y),
        x < width,
        y < height,
    ensures
        t.covers(width, height, x, y),
{
    lemma_inside_between_open_and_closed(t, x, y);
    lemma_edge_weights(t, x, y);
    let k = t.doubled_area();
    let wa = edge(t.b, t.c, x, y);
    let wb = edge(t.c, t.a, x, y);
    let wc = edge(t.a, t.b, x, y);
    lemma_weighted_mean(k, wa, wb, wc, t.a.x as int, t.b.x as int, t.c.x as int, x);
    lemma_weighted_mean(k, wa, wb, wc, t.a.y as int, t.b.y as int, t.c.y as int, y);
    if x == t.max_x() {
        assert(k == 0) by (nonlinear_arith)
            requires
                k == (t.b.x - t.a.x) * (t.c.y - t.a.y) - (t.b.y - t.a.y) * (t.c.x - t.a.x),
                t.a.x == t.b.x,
                t.b.x == t.c.x,
        ;
    }
    if y == t.max_y() {
        assert(k == 0) by (nonlinear_arith)
            requires
                k == (t.b.x - t.a.x) * (t.c.y - t.a.y) - (t.b.y - t.a.y) * (t.c.x - t.a.x),
                t.a.y == t.b.y,
                t.b.y == t.c.y,
        ;
    }
}

/// A triangle cut in two from `a` to a point of the opposite edge is tiled
/// by its parts: the inside test of the whole accepts a position exactly
/// when the inside test of one part does, and never do both parts accept
/// it. The two parts share the cut as an edge; a position on the cut goes to
/// one of them.
pub proof fn lemma_cut_tiles(t: Triangle, m: Point, x: int, y: int)
    requires
        t.cut_at(m),
    ensures
        t.inside(x, y) <==> t.part_at_b(m).inside(x, y) || t.part_at_c(m).inside(x, y),
        !(t.part_at_b(m).inside(x, y) && t.part_at_c(m).inside(x, y)),
{
    let left = t.part_at_b(m);
    let right = t.part_at_c(m);
    lemma_inside_by_orientation(t, x, y);
    lemma_inside_by_orientation(left, x, y);
    lemma_inside_by_orientation(right, x, y);
    lemma_edge_relation(t, x, y);
    lemma_edge_relation(left, x, y);
    lemma_edge_relation(right, x, y);
    // the cut point is on the edge, so the parts' areas add up to the whole
    lemma_edge_relation(t, m.x as int, m.y as int);
    let (u, v) = (t.b.x - t.a.x, t.b.y - t.a.y);
    let (s, r) = (t.c.x - t.a.x, t.c.y - t.a.y);
    let (mx, my) = (m.x - t.a.x, m.y - t.a.y);
    let (p, q) = (x - t.a.x, y - t.a.y);
    assert(s * my - r * mx == -(mx * r - my * s)) by (nonlinear_arith);
    assert(t.doubled_area() == left.doubled_area() + right.doubled_area());
    lemma_cross_exchange(u, v, s, r, mx, my, p, q);
    lemma_cut_signs(
        t.doubled_area(),
        left.doubled_area(),
        right.doubled_area(),
        edge(t.a, t.b, x, y),
        edge(t.a, t.c, x, y),
        edge(t.a, m, x, y),
        edge(t.b, t.c, x, y),
        edge(t.b, m, x, y),
        edge(m, t.c, x, y),
    );
}

/// The scan box of a part of a cut lies within the scan box of the whole.
pub proof fn lemma_cut_scan_boxes(t: Triangle, m: Point, width: int, height: int, x: int, y: int)
    requires
        t.cut_at(m),
    ensures
        t.part_at_b(m).in_scan_box(width, height, x, y) ==> t.in_scan_box(width, height, x, y),
        t.part_at_c(m).in_scan_box(width, height, x, y) ==> t.in_scan_box(width, height, x, y),
{
    let left = t.part_at_b(m);
    let right = t.part_at_c(m);
    let (u, v) = (t.b.x - t.a.x, t.b.y - t.a.y);
    let (s, r) = (t.c.x - t.a.x, t.c.y - t.a.y);
    let (mx, my) = (m.x - t.a.x, m.y - t.a.y);
    let (k, k1, k2) = (t.doubled_area(), left.doubled_area(), right.doubled_area());
    lemma_edge_relation(t, m.x as int, m.y as int);
    assert(s * my - r * mx == -(mx * r - my * s)) by (nonlinear_arith);
    assert(k == k1 + k2);
    // the cut point is the mean of `b` and `c`, weighed by the parts' areas
    lemma_cross_weights(u, v, s, r, mx, my);
    assert(k * mx == k2 * u + k1 * s && k * my == k2 * v + k1 * r) by (nonlinear_arith)
        requires
            k1 == u * my - v * mx,
            k2 == mx * r - my * s,
            (u * my - v * mx) * s - (s * my - r * mx) * u == k * mx,
            (u * my - v * mx) * r - (s * my - r * mx) * v == k * my,
    ;
    lemma_mean_of_two(k, k2, k1, u, s, mx);
    lemma_mean_of_two(k, k2, k1, v, r, my);
}

/// On an image, a triangle cut in two is painted exactly where one of its
/// parts is, and nowhere by both, as long as no part's scan box cuts the
/// position off: a scan box leaves out the last column and the last row of
/// its triangle, and the cut may run along them.
pub proof fn lemma_cut_tiles_image(
    t: Triangle,
    m: Point,
    width: int,
    height: int,
    x: int,
    y: int,
)
    requires
        t.cut_at(m),
        t.in_scan_box(width, height, x, y) && t.part_at_b(m).inside(x, y) ==> t.part_at_b(
            m,
        ).in_scan_box(width, height, x, y),
        t.in_scan_box(width, height, x, y) && t.part_at_c(m).inside(x, y) ==> t.part_at_c(
            m,
        ).in_scan_box(width, height, x, y),
    ensures
        t.covers(width, height, x, y) <==> t.part_at_b(m).covers(width, height, x, y)
            || t.part_at_c(m).covers(width, height, x, y),
        !(t.part_at_b(m).covers(width, height, x, y) && t.part_at_c(m).covers(
            width,
            height,
            x,
            y,
        )),
{
    lemma_cut_tiles(t, m, x, y);
    lemma_cut_scan_boxes(t, m, width, height, x, y);
}

} // verus!
