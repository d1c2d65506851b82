use triangle_fit::canvas::{draw, draw_triangle, init_image, overlapping_triangle, Canvas};
use triangle_fit::color::{blend_color, Color};
use triangle_fit::geometry::{rasterize, Point, Triangle};

const WHITE: Color = Color { r: 255, g: 255, b: 255, a: 255 };
const CLEAR: Color = Color { r: 0, g: 0, b: 0, a: 0 };

fn tri(a: (u32, u32), b: (u32, u32), c: (u32, u32), color: Color) -> Triangle {
    Triangle {
        a: Point { x: a.0, y: a.1 },
        b: Point { x: b.0, y: b.1 },
        c: Point { x: c.0, y: c.1 },
        color,
    }
}

fn all_pixels(c: &Canvas) -> Vec<Color> {
    let mut out = Vec::new();
    for x in 0..c.width() {
        for y in 0..c.height() {
            out.push(c.get_pixel(x, y));
        }
    }
    out
}

#[test]
fn new_canvas_has_its_dimensions_and_zero_pixels() {
    let c = Canvas::new(3, 2);
    assert_eq!(c.width(), 3);
    assert_eq!(c.height(), 2);
    let pixels = all_pixels(&c);
    assert_eq!(pixels.len(), 6);
    assert!(pixels.iter().all(|p| *p == CLEAR));
}

#[test]
fn empty_canvases_are_allowed() {
    let c = Canvas::new(0, 0);
    assert_eq!((c.width(), c.height()), (0, 0));
    let mut d = Canvas::new(0, 7);
    assert_eq!((d.width(), d.height()), (0, 7));
    init_image(&mut d);
    let written = draw_triangle(&tri((0, 0), (5, 0), (0, 5), WHITE), &mut d);
    assert!(written.is_empty());
}

#[test]
fn put_pixel_changes_that_pixel_only() {
    let mut c = Canvas::new(4, 3);
    let red = Color { r: 255, g: 0, b: 0, a: 9 };
    c.put_pixel(2, 1, red);
    for x in 0..4 {
        for y in 0..3 {
            let expected = if (x, y) == (2, 1) { red } else { CLEAR };
            assert_eq!(c.get_pixel(x, y), expected);
        }
    }
    assert_eq!((c.width(), c.height()), (4, 3));
}

#[test]
fn x_and_y_are_not_swapped() {
    let mut c = Canvas::new(5, 2);
    let mark = Color { r: 1, g: 2, b: 3, a: 4 };
    c.put_pixel(4, 0, mark);
    assert_eq!(c.get_pixel(4, 0), mark);
    assert_eq!(c.get_pixel(0, 1), CLEAR);
    assert_eq!(c.get_pixel(3, 1), CLEAR);
}

#[test]
fn duplicate_is_equal_and_independent() {
    let mut c = Canvas::filled_with(3, 3, WHITE);
    c.put_pixel(1, 1, Color { r: 5, g: 6, b: 7, a: 8 });
    let copy = c.duplicate();
    assert!(copy.same_as(&c));
    assert_eq!(all_pixels(&copy), all_pixels(&c));
    c.put_pixel(0, 0, CLEAR);
    assert!(!copy.same_as(&c));
    assert_eq!(copy.get_pixel(0, 0), WHITE);
    assert_eq!(copy.get_pixel(1, 1), Color { r: 5, g: 6, b: 7, a: 8 });
}

#[test]
fn same_as_compares_dimensions_and_pixels() {
    let a = Canvas::filled_with(2, 3, WHITE);
    let b = Canvas::filled_with(3, 2, WHITE);
    assert!(!a.same_as(&b));
    let mut c = Canvas::filled_with(2, 3, WHITE);
    assert!(a.same_as(&c));
    c.put_pixel(1, 2, Color { r: 255, g: 255, b: 255, a: 254 });
    assert!(!a.same_as(&c));
}

#[test]
fn init_image_makes_every_pixel_white() {
    let mut c = Canvas::new(4, 5);
    c.put_pixel(3, 4, Color { r: 9, g: 9, b: 9, a: 9 });
    init_image(&mut c);
    assert_eq!((c.width(), c.height()), (4, 5));
    assert!(all_pixels(&c).iter().all(|p| *p == WHITE));
    assert!(c.same_as(&Canvas::filled_with(4, 5, WHITE)));
}

#[test]
fn draw_triangle_blends_covered_pixels_and_reports_them() {
    let mut c = Canvas::filled_with(8, 8, WHITE);
    let color = Color { r: 0, g: 100, b: 200, a: 128 };
    let t = tri((1, 1), (5, 1), (1, 5), color);
    let written = draw_triangle(&t, &mut c);
    let covered: Vec<(u32, u32)> = written.iter().map(|p| (p.x, p.y)).collect();
    assert_eq!(covered, vec![(1, 2), (1, 3), (1, 4), (2, 2), (2, 3), (3, 2)]);
    // (255 * 127 + 0 * 128) / 255 = 127, (255 * 127 + 100 * 128) / 255 = 177.19...,
    // (255 * 127 + 200 * 128) / 255 = 227.39...
    let painted = Color { r: 127, g: 177, b: 227, a: 255 };
    for x in 0..8 {
        for y in 0..8 {
            let expected = if covered.contains(&(x, y)) { painted } else { WHITE };
            assert_eq!(c.get_pixel(x, y), expected);
        }
    }
}

#[test]
fn draw_triangle_reports_what_rasterize_lists() {
    let t = tri((0, 7), (9, 2), (4, 9), Color { r: 1, g: 2, b: 3, a: 4 });
    let mut c = Canvas::filled_with(10, 10, WHITE);
    assert_eq!(draw_triangle(&t, &mut c), rasterize(&t, 10, 10));
}

#[test]
fn painting_twice_blends_twice() {
    let mut c = Canvas::filled_with(6, 6, WHITE);
    let t = tri((0, 0), (5, 0), (0, 5), Color { r: 0, g: 0, b: 0, a: 128 });
    draw_triangle(&t, &mut c);
    draw_triangle(&t, &mut c);
    // 255 -> 127 -> (127 * 127) / 255 = 63
    assert_eq!(c.get_pixel(0, 1), Color { r: 63, g: 63, b: 63, a: 255 });
    assert_eq!(c.get_pixel(4, 4), WHITE);
}

#[test]
fn overlapping_triangle_repaints_from_the_recorded_pixels() {
    let t = tri((1, 0), (9, 3), (2, 9), Color { r: 10, g: 200, b: 30, a: 77 });
    let mut by_geometry = Canvas::filled_with(10, 10, Color { r: 50, g: 60, b: 70, a: 80 });
    let mut by_list = by_geometry.duplicate();
    let written = draw_triangle(&t, &mut by_geometry);
    assert!(!written.is_empty());
    overlapping_triangle(&t, &mut by_list, &written);
    assert!(by_list.same_as(&by_geometry));
}

#[test]
fn overlapping_triangle_touches_listed_pixels_only() {
    let mut c = Canvas::filled_with(3, 3, WHITE);
    let t = tri((0, 0), (0, 0), (0, 0), Color { r: 0, g: 0, b: 0, a: 255 });
    let list = vec![Point { x: 2, y: 0 }, Point { x: 1, y: 2 }];
    overlapping_triangle(&t, &mut c, &list);
    for x in 0..3 {
        for y in 0..3 {
            let expected = if (x, y) == (2, 0) || (x, y) == (1, 2) {
                Color { r: 0, g: 0, b: 0, a: 255 }
            } else {
                WHITE
            };
            assert_eq!(c.get_pixel(x, y), expected);
        }
    }
    overlapping_triangle(&t, &mut c, &Vec::new());
    assert_eq!(c.get_pixel(0, 0), WHITE);
}

#[test]
fn draw_paints_in_list_order() {
    let red = tri((7, 0), (0, 0), (0, 7), Color { r: 255, g: 0, b: 0, a: 255 });
    let blue = tri((7, 0), (0, 0), (0, 7), Color { r: 0, g: 0, b: 255, a: 255 });
    let mut c = Canvas::filled_with(4, 4, WHITE);
    draw(&mut c, &vec![red, blue]);
    assert!(c.same_as(&Canvas::filled_with(4, 4, Color { r: 0, g: 0, b: 255, a: 255 })));
    let mut d = Canvas::filled_with(4, 4, WHITE);
    draw(&mut d, &vec![blue, red]);
    assert!(d.same_as(&Canvas::filled_with(4, 4, Color { r: 255, g: 0, b: 0, a: 255 })));
}

#[test]
fn draw_equals_drawing_one_by_one() {
    let shapes = vec![
        tri((0, 0), (9, 1), (3, 9), Color { r: 200, g: 10, b: 10, a: 100 }),
        tri((9, 9), (0, 8), (5, 0), Color { r: 10, g: 200, b: 10, a: 150 }),
        tri((2, 2), (8, 2), (5, 8), Color { r: 10, g: 10, b: 200, a: 200 }),
    ];
    let mut together = Canvas::filled_with(10, 10, WHITE);
    draw(&mut together, &shapes);
    let mut one_by_one = Canvas::filled_with(10, 10, WHITE);
    for s in shapes.iter() {
        let written = rasterize(s, 10, 10);
        for p in written {
            let under = one_by_one.get_pixel(p.x, p.y);
            one_by_one.put_pixel(p.x, p.y, blend_color(&under, &s.color));
        }
    }
    assert!(together.same_as(&one_by_one));
    let mut none = Canvas::filled_with(10, 10, WHITE);
    draw(&mut none, &Vec::new());
    assert!(none.same_as(&Canvas::filled_with(10, 10, WHITE)));
}
