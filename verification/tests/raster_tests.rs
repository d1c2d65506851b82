use triangle_fit::color::Color;
use triangle_fit::geometry::{rasterize, Point, Triangle};

fn tri(a: (u32, u32), b: (u32, u32), c: (u32, u32)) -> Triangle {
    Triangle {
        a: Point { x: a.0, y: a.1 },
        b: Point { x: b.0, y: b.1 },
        c: Point { x: c.0, y: c.1 },
        color: Color { r: 0, g: 0, b: 0, a: 255 },
    }
}

fn pairs(pixels: &Vec<Point>) -> Vec<(u32, u32)> {
    pixels.iter().map(|p| (p.x, p.y)).collect()
}

fn sorted(mut v: Vec<(u32, u32)>) -> Vec<(u32, u32)> {
    v.sort();
    v
}

fn edge(o: (i64, i64), t: (i64, i64), x: i64, y: i64) -> i64 {
    (t.0 - o.0) * (y - o.1) - (t.1 - o.1) * (x - o.0)
}

#[test]
fn rasterizing_twice_gives_the_same_pixels() {
    let t = tri((1, 1), (9, 3), (4, 8));
    let first = rasterize(&t, 10, 10);
    let second = rasterize(&t, 10, 10);
    assert!(!first.is_empty());
    assert_eq!(sorted(pairs(&first)), sorted(pairs(&second)));
    assert_eq!(first, second);
}

#[test]
fn known_footprint_of_a_small_triangle() {
    let t = tri((1, 1), (5, 1), (1, 5));
    assert_eq!(
        pairs(&rasterize(&t, 8, 8)),
        vec![(1, 2), (1, 3), (1, 4), (2, 2), (2, 3), (3, 2)]
    );
}

#[test]
fn vertex_order_decides_the_boundary_only() {
    let forward = pairs(&rasterize(&tri((1, 1), (5, 1), (1, 5)), 8, 8));
    let reversed = pairs(&rasterize(&tri((1, 1), (1, 5), (5, 1)), 8, 8));
    assert_eq!(
        reversed,
        vec![(1, 2), (1, 3), (1, 4), (2, 2), (2, 3), (2, 4), (3, 2), (3, 3), (4, 2)]
    );
    // the strict interior is in both
    for p in [(2, 2), (2, 3), (3, 2)] {
        assert!(forward.contains(&p));
        assert!(reversed.contains(&p));
    }
    // the vertices are in neither
    for p in [(1, 1), (5, 1), (1, 5)] {
        assert!(!forward.contains(&p));
        assert!(!reversed.contains(&p));
    }
}

#[test]
fn footprint_is_in_scan_order_without_repeats() {
    let pixels = pairs(&rasterize(&tri((0, 9), (9, 0), (9, 9)), 10, 10));
    assert!(!pixels.is_empty());
    for pair in pixels.windows(2) {
        assert!(pair[0] < pair[1]);
    }
}

#[test]
fn two_triangles_splitting_a_square_tile_it() {
    let lower = pairs(&rasterize(&tri((0, 0), (4, 4), (4, 0)), 10, 10));
    let upper = pairs(&rasterize(&tri((0, 0), (4, 4), (0, 4)), 10, 10));
    assert_eq!(lower, vec![(1, 1), (2, 1), (2, 2), (3, 1), (3, 2), (3, 3)]);
    assert_eq!(upper, vec![(0, 1), (0, 2), (0, 3), (1, 2), (1, 3), (2, 3)]);
    // no overlap
    for p in lower.iter() {
        assert!(!upper.contains(p));
    }
    // no gap: together they are the square without the row that lies on the
    // edge from (0, 0) to (4, 0)
    let mut union = lower.clone();
    union.extend(upper.iter().cloned());
    let mut expected = Vec::new();
    for x in 0..4 {
        for y in 1..4 {
            expected.push((x, y));
        }
    }
    assert_eq!(sorted(union), sorted(expected));
    // the pixels on the shared diagonal belong to one triangle only
    for d in 1..4 {
        assert!(lower.contains(&(d, d)));
        assert!(!upper.contains(&(d, d)));
    }
}

#[test]
fn shared_edge_never_overlaps_on_larger_pairs() {
    let cases = [
        ((2, 3), (17, 11), (15, 1), (4, 18)),
        ((0, 0), (19, 19), (19, 0), (0, 19)),
        ((5, 0), (5, 19), (0, 7), (19, 12)),
        ((0, 10), (19, 10), (9, 0), (11, 19)),
    ];
    for (a, b, c, d) in cases {
        let one = pairs(&rasterize(&tri(a, b, c), 20, 20));
        let other = pairs(&rasterize(&tri(a, b, d), 20, 20));
        assert!(!one.is_empty());
        assert!(!other.is_empty());
        for p in one.iter() {
            assert!(!other.contains(p), "{:?} is painted twice", p);
        }
    }
}

#[test]
fn degenerate_triangles_cover_nothing() {
    // collinear
    assert!(rasterize(&tri((0, 0), (3, 3), (6, 6)), 10, 10).is_empty());
    assert!(rasterize(&tri((1, 5), (4, 5), (9, 5)), 10, 10).is_empty());
    assert!(rasterize(&tri((5, 1), (5, 4), (5, 9)), 10, 10).is_empty());
    // two vertices coincide
    assert!(rasterize(&tri((2, 2), (2, 2), (7, 5)), 10, 10).is_empty());
    assert!(rasterize(&tri((2, 2), (7, 5), (2, 2)), 10, 10).is_empty());
    // all three coincide
    assert!(rasterize(&tri((4, 4), (4, 4), (4, 4)), 10, 10).is_empty());
}

#[test]
fn pixels_outside_the_image_are_never_produced() {
    let clamped = pairs(&rasterize(&tri((0, 0), (10, 0), (0, 10)), 3, 2));
    assert_eq!(clamped, vec![(0, 1), (1, 1), (2, 1)]);
    assert!(rasterize(&tri((5, 5), (9, 5), (5, 9)), 4, 4).is_empty());
    for p in rasterize(&tri((0, 0), (100, 3), (3, 100)), 7, 5) {
        assert!(p.x < 7 && p.y < 5);
    }
}

#[test]
fn empty_image_has_no_pixels() {
    assert!(rasterize(&tri((0, 0), (9, 0), (0, 9)), 0, 0).is_empty());
    assert!(rasterize(&tri((0, 0), (9, 0), (0, 9)), 5, 0).is_empty());
    assert!(rasterize(&tri((0, 0), (9, 0), (0, 9)), 0, 5).is_empty());
}

#[test]
fn a_corner_triangle_can_cover_a_whole_image() {
    let all = pairs(&rasterize(&tri((7, 0), (0, 0), (0, 7)), 4, 4));
    let mut expected = Vec::new();
    for x in 0..4 {
        for y in 0..4 {
            expected.push((x, y));
        }
    }
    assert_eq!(all, expected);
}

#[test]
fn largest_coordinates_do_not_overflow() {
    let m = u32::MAX;
    let pixels = pairs(&rasterize(&tri((m, 0), (0, 0), (0, m)), 3, 3));
    assert_eq!(pixels.len(), 9);
    assert!(rasterize(&tri((m, m), (m - 1, m), (m, m - 1)), 3, 3).is_empty());
}

#[test]
fn footprint_agrees_with_the_inside_test_pixel_by_pixel() {
    let corners = [(3u32, 2u32), (11, 4), (6, 12)];
    let orders = [[0, 1, 2], [0, 2, 1], [1, 0, 2], [1, 2, 0], [2, 0, 1], [2, 1, 0]];
    for order in orders {
        let (a, b, c) = (corners[order[0]], corners[order[1]], corners[order[2]]);
        let got = pairs(&rasterize(&tri(a, b, c), 14, 14));
        let (ai, bi, ci) = (
            (a.0 as i64, a.1 as i64),
            (b.0 as i64, b.1 as i64),
            (c.0 as i64, c.1 as i64),
        );
        let mut expected = Vec::new();
        for x in 3..11u32 {
            for y in 2..12u32 {
                let ab = edge(ai, bi, x as i64, y as i64) > 0;
                let ac = edge(ai, ci, x as i64, y as i64) > 0;
                let bc = edge(bi, ci, x as i64, y as i64) > 0;
                if ab != ac && ab == bc {
                    expected.push((x, y));
                }
            }
        }
        assert_eq!(got, expected);
    }
}

#[test]
fn every_pixel_strictly_inside_is_covered() {
    let triangles = [
        ((0u32, 0u32), (19u32, 3u32), (7u32, 19u32)),
        ((7, 19), (19, 3), (0, 0)),
        ((19, 0), (0, 10), (19, 19)),
        ((2, 2), (3, 17), (18, 9)),
        ((0, 19), (30, 19), (15, 0)),
    ];
    for (a, b, c) in triangles {
        let got = pairs(&rasterize(&tri(a, b, c), 20, 20));
        let (ai, bi, ci) = (
            (a.0 as i64, a.1 as i64),
            (b.0 as i64, b.1 as i64),
            (c.0 as i64, c.1 as i64),
        );
        let mut interior = 0;
        for x in 0..20u32 {
            for y in 0..20u32 {
                let ab = edge(ai, bi, x as i64, y as i64);
                let bc = edge(bi, ci, x as i64, y as i64);
                let ca = edge(ci, ai, x as i64, y as i64);
                let strictly = (ab > 0 && bc > 0 && ca > 0) || (ab < 0 && bc < 0 && ca < 0);
                let closure = (ab >= 0 && bc >= 0 && ca >= 0) || (ab <= 0 && bc <= 0 && ca <= 0);
                if strictly {
                    interior += 1;
                    assert!(got.contains(&(x, y)), "{:?} is a gap", (x, y));
                }
                if got.contains(&(x, y)) {
                    assert!(closure, "{:?} is outside", (x, y));
                }
            }
        }
        assert!(interior > 0);
    }
}

#[test]
fn a_triangle_cut_in_two_is_tiled_by_its_parts() {
    // (a, b, c, m): m lies on the edge from b to c
    let cuts = [
        ((4u32, 0u32), (0u32, 8u32), (8u32, 8u32), (3u32, 8u32)),
        ((4, 0), (8, 8), (0, 8), (3, 8)),
        ((0, 0), (10, 2), (2, 10), (6, 6)),
        ((2, 10), (0, 0), (10, 2), (5, 1)),
        ((11, 11), (0, 3), (6, 0), (2, 2)),
    ];
    for (a, b, c, m) in cuts {
        let whole = pairs(&rasterize(&tri(a, b, c), 12, 12));
        let at_b = pairs(&rasterize(&tri(a, b, m), 12, 12));
        let at_c = pairs(&rasterize(&tri(a, m, c), 12, 12));
        assert!(!at_b.is_empty() && !at_c.is_empty());
        for p in at_b.iter() {
            assert!(!at_c.contains(p), "{:?} is painted twice", p);
        }
        let mut union = at_b.clone();
        union.extend(at_c.iter().cloned());
        assert_eq!(sorted(union), whole);
    }
}

#[test]
fn a_cut_along_the_last_row_of_a_part_is_left_out_by_its_scan_box() {
    let whole = pairs(&rasterize(&tri((0, 2), (0, 0), (8, 4)), 12, 12));
    let at_b = pairs(&rasterize(&tri((0, 2), (0, 0), (4, 2)), 12, 12));
    let at_c = pairs(&rasterize(&tri((0, 2), (4, 2), (8, 4)), 12, 12));
    assert_eq!(whole, vec![(1, 1), (1, 2), (2, 2), (3, 2), (4, 3), (5, 3)]);
    assert_eq!(at_b, vec![(1, 1)]);
    assert_eq!(at_c, vec![(4, 3), (5, 3)]);
}
