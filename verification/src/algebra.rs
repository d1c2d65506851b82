//! Integer algebra behind the laws of the fill rule: identities between
//! cross products, and the signs of weighted sums.

use vstd::prelude::*;
use crate::geometry::{max3, min3};

verus! {

/// The cross product of two differences of vectors, written out. The
/// vectors are `(u, v)`, `(s, r)` and `(p, q)`.
pub(crate) proof fn lemma_cross_of_differences(u: int, v: int, s: int, r: int, p: int, q: int)
    ensures
        (s - u) * (q - v) - (r - v) * (p - u) == (s * q - r * p) + (u * r - v * s) - (u * q - v
            * p),
        (0 - s) * (q - r) - (0 - r) * (p - s) == -(s * q - r * p),
{
    assert((s - u) * (q - v) == s * q - s * v - u * q + u * v) by (nonlinear_arith);
    assert((r - v) * (p - u) == r * p - r * u - v * p + v * u) by (nonlinear_arith);
    assert(u * v == v * u && s * v == v * s && r * u == u * r) by (nonlinear_arith);
    assert((0 - s) * (q - r) == s * r - s * q) by (nonlinear_arith);
    assert((0 - r) * (p - s) == r * s - r * p) by (nonlinear_arith);
    assert(s * r == r * s) by (nonlinear_arith);
}

/// Cramer's rule for two vectors `(u, v)` and `(s, r)`: a third vector
/// `(p, q)`, scaled by their cross product, is their combination with its
/// own cross products against them as weights.
pub(crate) proof fn lemma_cross_weights(u: int, v: int, s: int, r: int, p: int, q: int)
    ensures
        (u * q - v * p) * s - (s * q - r * p) * u == (u * r - v * s) * p,
        (u * q - v * p) * r - (s * q - r * p) * v == (u * r - v * s) * q,
{
    // the first: the products with q cancel
    assert((u * q - v * p) * s == (u * q) * s - (v * p) * s) by (nonlinear_arith);
    assert((s * q - r * p) * u == (s * q) * u - (r * p) * u) by (nonlinear_arith);
    assert((u * r - v * s) * p == (u * r) * p - (v * s) * p) by (nonlinear_arith);
    assert((u * q) * s == (s * q) * u) by (nonlinear_arith);
    assert((v * p) * s == (v * s) * p) by (nonlinear_arith);
    assert((r * p) * u == (u * r) * p) by (nonlinear_arith);
    // the second: the products with p cancel
    assert((u * q - v * p) * r == (u * q) * r - (v * p) * r) by (nonlinear_arith);
    assert((s * q - r * p) * v == (s * q) * v - (r * p) * v) by (nonlinear_arith);
    assert((u * r - v * s) * q == (u * r) * q - (v * s) * q) by (nonlinear_arith);
    assert((v * p) * r == (r * p) * v) by (nonlinear_arith);
    assert((u * q) * r == (u * r) * q) by (nonlinear_arith);
    assert((s * q) * v == (v * s) * q) by (nonlinear_arith);
}

/// The cross products of four vectors `(u, v)`, `(s, r)`, `(m, n)` and
/// `(p, q)`: the product of the first pair's and the second pair's equals
/// what is left when the pairs exchange partners.
pub(crate) proof fn lemma_cross_exchange(u: int, v: int, s: int, r: int, m: int, n: int, p: int, q: int)
    ensures
        (u * r - v * s) * (m * q - n * p) == (m * r - n * s) * (u * q - v * p) + (u * n - v * m)
            * (s * q - r * p),
{
    let k = u * r - v * s;
    let bp = u * q - v * p;
    let cp = s * q - r * p;
    lemma_cross_weights(u, v, s, r, p, q);
    assert(k * (m * q - n * p) == m * (k * q) - n * (k * p)) by (nonlinear_arith);
    assert(k * q == bp * r - cp * v && k * p == bp * s - cp * u) by (nonlinear_arith)
        requires
            bp * s - cp * u == k * p,
            bp * r - cp * v == k * q,
    ;
    assert(m * (bp * r - cp * v) == bp * (m * r) - cp * (v * m)) by (nonlinear_arith);
    assert(n * (bp * s - cp * u) == bp * (n * s) - cp * (u * n)) by (nonlinear_arith);
    assert((m * r - n * s) * bp == bp * (m * r) - bp * (n * s)) by (nonlinear_arith);
    assert((u * n - v * m) * cp == cp * (u * n) - cp * (v * m)) by (nonlinear_arith);
}

/// `k * x` for `x = a + d`, where `k` is the sum of three weights: the
/// weights shared out over `a`, `a + u` and `a + s`.
pub(crate) proof fn lemma_share_out(k: int, wa: int, wb: int, wc: int, a: int, u: int, s: int, d: int)
    requires
        wa + wb + wc == k,
        wb * u + wc * s == k * d,
    ensures
        k * (a + d) == wa * a + wb * (a + u) + wc * (a + s),
{
    assert(k * (a + d) == k * a + k * d) by (nonlinear_arith);
    assert(wb * (a + u) == wb * a + wb * u) by (nonlinear_arith);
    assert(wc * (a + s) == wc * a + wc * s) by (nonlinear_arith);
    assert(k * a == wa * a + wb * a + wc * a) by (nonlinear_arith)
        requires
            wa + wb + wc == k,
    ;
}

/// Two equal products whose first factors have one sign: the second factors
/// have one sign too.
pub(crate) proof fn lemma_product_signs(k: int, x: int, j: int, y: int)
    requires
        k * x == j * y,
        (k > 0 && j > 0) || (k < 0 && j < 0) || (k != 0 && j == 1),
    ensures
        (k > 0 && j > 0) || (k < 0 && j < 0) ==> (x > 0 <==> y > 0) && (x < 0 <==> y < 0),
        j == 1 && k > 0 ==> (x > 0 <==> y > 0) && (x < 0 <==> y < 0),
        j == 1 && k < 0 ==> (x > 0 <==> y < 0) && (x < 0 <==> y > 0),
{
    assert(j == 1 ==> j * y == y) by (nonlinear_arith);
    assert(k > 0 ==> (x > 0 <==> k * x > 0) && (x < 0 <==> k * x < 0)) by (nonlinear_arith);
    assert(k < 0 ==> (x > 0 <==> k * x < 0) && (x < 0 <==> k * x > 0)) by (nonlinear_arith);
    assert(j > 0 ==> (y > 0 <==> j * y > 0) && (y < 0 <==> j * y < 0)) by (nonlinear_arith);
    assert(j < 0 ==> (y > 0 <==> j * y < 0) && (y < 0 <==> j * y > 0)) by (nonlinear_arith);
}

/// With weights of one sign and nothing weighed below zero, the weighted
/// mean is not below zero, and is zero only if all that is weighed is.
pub(crate) proof fn lemma_same_sign_sum(k: int, wa: int, wb: int, wc: int, ga: int, gb: int, gc: int, g: int)
    requires
        (wa > 0 && wb > 0 && wc > 0) || (wa < 0 && wb < 0 && wc < 0),
        wa + wb + wc == k,
        ga >= 0 && gb >= 0 && gc >= 0,
        k * g == wa * ga + wb * gb + wc * gc,
    ensures
        g >= 0,
        g == 0 ==> ga == 0 && gb == 0 && gc == 0,
{
    if wa > 0 {
        assert(wa * ga >= 0 && (ga > 0 ==> wa * ga > 0)) by (nonlinear_arith)
            requires
                wa > 0,
                ga >= 0,
        ;
        assert(wb * gb >= 0 && (gb > 0 ==> wb * gb > 0)) by (nonlinear_arith)
            requires
                wb > 0,
                gb >= 0,
        ;
        assert(wc * gc >= 0 && (gc > 0 ==> wc * gc > 0)) by (nonlinear_arith)
            requires
                wc > 0,
                gc >= 0,
        ;
        assert(g >= 0 && (g == 0 ==> k * g == 0)) by (nonlinear_arith)
            requires
                k > 0,
                k * g >= 0,
        ;
    } else {
        assert(wa * ga <= 0 && (ga > 0 ==> wa * ga < 0)) by (nonlinear_arith)
            requires
                wa < 0,
                ga >= 0,
        ;
        assert(wb * gb <= 0 && (gb > 0 ==> wb * gb < 0)) by (nonlinear_arith)
            requires
                wb < 0,
                gb >= 0,
        ;
        assert(wc * gc <= 0 && (gc > 0 ==> wc * gc < 0)) by (nonlinear_arith)
            requires
                wc < 0,
                gc >= 0,
        ;
        assert(g >= 0 && (g == 0 ==> k * g == 0)) by (nonlinear_arith)
            requires
                k < 0,
                k * g <= 0,
        ;
    }
}

/// A weighted mean with weights of one sign lies within the range of what is
/// weighed, and short of its upper end unless all three are at that end.
pub(crate) proof fn lemma_weighted_mean(k: int, wa: int, wb: int, wc: int, pa: int, pb: int, pc: int, p: int)
    requires
        (wa > 0 && wb > 0 && wc > 0) || (wa < 0 && wb < 0 && wc < 0),
        wa + wb + wc == k,
        k * p == wa * pa + wb * pb + wc * pc,
    ensures
        min3(pa, pb, pc) <= p <= max3(pa, pb, pc),
        p == max3(pa, pb, pc) ==> pa == pb && pb == pc,
{
    let hi = max3(pa, pb, pc);
    let lo = min3(pa, pb, pc);
    // the gaps to the upper end, and the gaps from the lower end
    let (ga, gb, gc, g) = (hi - pa, hi - pb, hi - pc, hi - p);
    let (ha, hb, hc, h) = (pa - lo, pb - lo, pc - lo, p - lo);
    assert(k * g == wa * ga + wb * gb + wc * gc) by {
        assert(k * g == k * hi - k * p) by (nonlinear_arith)
            requires
                g == hi - p,
        ;
        assert(k * hi == wa * hi + wb * hi + wc * hi) by (nonlinear_arith)
            requires
                wa + wb + wc == k,
        ;
        assert(wa * ga == wa * hi - wa * pa) by (nonlinear_arith)
            requires
                ga == hi - pa,
        ;
        assert(wb * gb == wb * hi - wb * pb) by (nonlinear_arith)
            requires
                gb == hi - pb,
        ;
        assert(wc * gc == wc * hi - wc * pc) by (nonlinear_arith)
            requires
                gc == hi - pc,
        ;
    }
    assert(k * h == wa * ha + wb * hb + wc * hc) by {
        assert(k * h == k * p - k * lo) by (nonlinear_arith)
            requires
                h == p - lo,
        ;
        assert(k * lo == wa * lo + wb * lo + wc * lo) by (nonlinear_arith)
            requires
                wa + wb + wc == k,
        ;
        assert(wa * ha == wa * pa - wa * lo) by (nonlinear_arith)
            requires
                ha == pa - lo,
        ;
        assert(wb * hb == wb * pb - wb * lo) by (nonlinear_arith)
            requires
                hb == pb - lo,
        ;
        assert(wc * hc == wc * pc - wc * lo) by (nonlinear_arith)
            requires
                hc == pc - lo,
        ;
    }
    lemma_same_sign_sum(k, wa, wb, wc, ga, gb, gc, g);
    lemma_same_sign_sum(k, wa, wb, wc, ha, hb, hc, h);
}

/// A weighted mean of two numbers, with weights of one sign, lies between
/// them.
pub(crate) proof fn lemma_mean_of_two(k: int, w_from: int, w_to: int, from: int, to: int, p: int)
    requires
        (w_from > 0 && w_to > 0) || (w_from < 0 && w_to < 0),
        w_from + w_to == k,
        k * p == w_from * from + w_to * to,
    ensures
        from <= to ==> from <= p <= to,
        to <= from ==> to <= p <= from,
{
    // the distances from `from`, weighed
    assert(k * (p - from) == w_to * (to - from)) by {
        assert(k * (p - from) == k * p - k * from) by (nonlinear_arith);
        assert(k * from == w_from * from + w_to * from) by (nonlinear_arith)
            requires
                w_from + w_to == k,
        ;
        assert(w_to * (to - from) == w_to * to - w_to * from) by (nonlinear_arith);
    }
    // and the distances from `to`
    assert(k * (to - p) == w_from * (to - from)) by {
        assert(k * (to - p) == k * to - k * p) by (nonlinear_arith);
        assert(k * to == w_from * to + w_to * to) by (nonlinear_arith)
            requires
                w_from + w_to == k,
        ;
        assert(w_from * (to - from) == w_from * to - w_from * from) by (nonlinear_arith);
    }
    lemma_product_signs(k, p - from, w_to, to - from);
    lemma_product_signs(k, to - p, w_from, to - from);
}

/// The signs behind a cut. `k`, `k1` and `k2` are the doubled areas of the
/// whole and of the two parts; the other numbers are edge functions at one
/// position: along `a -> b`, `a -> c`, `a -> m`, `b -> c`, `b -> m` and
/// `m -> c`. What the inside test of the whole accepts is what the inside
/// test of one part or the other accepts.
pub(crate) proof fn lemma_cut_signs(
    k: int,
    k1: int,
    k2: int,
    ab: int,
    ac: int,
    am: int,
    bc: int,
    bm: int,
    mc: int,
)
    requires
        (k1 > 0 && k2 > 0) || (k1 < 0 && k2 < 0),
        k == k1 + k2,
        k * am == k2 * ab + k1 * ac,
        bc == ac + k - ab,
        bm == am + k1 - ab,
        mc == ac + k2 - am,
    ensures
        k > 0 ==> ((ab > 0 && ac <= 0 && bc > 0) <==> (ab > 0 && am <= 0 && bm > 0) || (am > 0
            && ac <= 0 && mc > 0)),
        k < 0 ==> ((ab <= 0 && ac > 0 && bc <= 0) <==> (ab <= 0 && am > 0 && bm <= 0) || (am <= 0
            && ac > 0 && mc <= 0)),
{
    // the edge functions along the cut edge's two halves are shares of the
    // one along the whole edge
    assert(k * bm == k1 * bc) by {
        assert(k * bm == k * am + k * k1 - k * ab) by (nonlinear_arith)
            requires
                bm == am + k1 - ab,
        ;
        assert(k1 * bc == k1 * ac + k1 * k - k1 * ab) by (nonlinear_arith)
            requires
                bc == ac + k - ab,
        ;
        assert(k * ab == k1 * ab + k2 * ab) by (nonlinear_arith)
            requires
                k == k1 + k2,
        ;
        assert(k * k1 == k1 * k) by (nonlinear_arith);
    }
    assert(k * mc == k2 * bc) by {
        assert(k * mc == k * ac + k * k2 - k * am) by (nonlinear_arith)
            requires
                mc == ac + k2 - am,
        ;
        assert(k2 * bc == k2 * ac + k2 * k - k2 * ab) by (nonlinear_arith)
            requires
                bc == ac + k - ab,
        ;
        assert(k * ac == k1 * ac + k2 * ac) by (nonlinear_arith)
            requires
                k == k1 + k2,
        ;
        assert(k * k2 == k2 * k) by (nonlinear_arith);
    }
    lemma_product_signs(k, bm, k1, bc);
    lemma_product_signs(k, mc, k2, bc);
    lemma_product_signs(k, am, 1, k * am);
    lemma_product_signs(k2, ab, 1, k2 * ab);
    lemma_product_signs(k1, ac, 1, k1 * ac);
}

} // verus!
