use triangle_fit::color::{blend_color, color_distance, Color};

fn rgba(r: u8, g: u8, b: u8, a: u8) -> Color {
    Color { r, g, b, a }
}

#[test]
fn transparent_overlay_keeps_base_rgb() {
    let base = rgba(10, 20, 30, 40);
    let over = rgba(200, 100, 50, 0);
    assert_eq!(blend_color(&base, &over), rgba(10, 20, 30, 255));
}

#[test]
fn opaque_overlay_replaces_base_rgb() {
    let base = rgba(10, 20, 30, 40);
    let over = rgba(200, 100, 50, 255);
    assert_eq!(blend_color(&base, &over), rgba(200, 100, 50, 255));
}

#[test]
fn identity_holds_for_every_base_and_overlay_channel() {
    for base in 0..=255u8 {
        for over in [0u8, 1, 127, 128, 254, 255] {
            let b = rgba(base, base, base, 7);
            let clear = blend_color(&b, &rgba(over, over, over, 0));
            assert_eq!((clear.r, clear.g, clear.b), (base, base, base));
            let solid = blend_color(&b, &rgba(over, over, over, 255));
            assert_eq!((solid.r, solid.g, solid.b), (over, over, over));
        }
    }
}

#[test]
fn blend_interpolates_and_truncates() {
    // (100 * 127 + 200 * 128) / 255 = 150.19..., (50 * 127 + 100 * 128) / 255 = 75.09...,
    // (0 * 127 + 255 * 128) / 255 = 128
    assert_eq!(
        blend_color(&rgba(100, 50, 0, 255), &rgba(200, 100, 255, 128)),
        rgba(150, 75, 128, 255)
    );
    // (255 * 254 + 0 * 1) / 255 = 254
    assert_eq!(
        blend_color(&rgba(255, 255, 255, 255), &rgba(0, 0, 0, 1)),
        rgba(254, 254, 254, 255)
    );
    // 199.25..., 209.25..., 219.25... all truncate downwards
    assert_eq!(
        blend_color(&rgba(10, 20, 30, 40), &rgba(200, 210, 220, 254)),
        rgba(199, 209, 219, 255)
    );
}

#[test]
fn blend_output_is_always_opaque() {
    for alpha in [0u8, 1, 100, 254, 255] {
        for base_alpha in [0u8, 17, 255] {
            let out = blend_color(&rgba(1, 2, 3, base_alpha), &rgba(4, 5, 6, alpha));
            assert_eq!(out.a, 255);
        }
    }
}

#[test]
fn blend_of_equal_channels_is_that_channel() {
    for v in [0u8, 1, 77, 200, 255] {
        for alpha in 0..=255u8 {
            let out = blend_color(&rgba(v, v, v, 255), &rgba(v, v, v, alpha));
            assert_eq!((out.r, out.g, out.b), (v, v, v));
        }
    }
}

#[test]
fn blend_stays_between_base_and_overlay() {
    for alpha in 0..=255u8 {
        let out = blend_color(&rgba(30, 200, 90, 255), &rgba(220, 10, 90, alpha));
        assert!(30 <= out.r && out.r <= 220);
        assert!(10 <= out.g && out.g <= 200);
        assert_eq!(out.b, 90);
    }
}

#[test]
fn distance_of_equal_colours_is_zero() {
    assert_eq!(color_distance(&rgba(0, 0, 0, 0), &rgba(0, 0, 0, 0)), 0);
    assert_eq!(color_distance(&rgba(12, 34, 56, 78), &rgba(12, 34, 56, 78)), 0);
}

#[test]
fn distance_ignores_alpha() {
    assert_eq!(color_distance(&rgba(12, 34, 56, 0), &rgba(12, 34, 56, 255)), 0);
    assert_eq!(
        color_distance(&rgba(255, 0, 0, 3), &rgba(0, 0, 0, 200)),
        color_distance(&rgba(255, 0, 0, 255), &rgba(0, 0, 0, 255))
    );
}

#[test]
fn distance_exact_values() {
    // sqrt(3 * 255^2) / 2.55 = 173.2...
    assert_eq!(color_distance(&rgba(255, 255, 255, 255), &rgba(0, 0, 0, 255)), 173);
    // 255 / 2.55 = 100
    assert_eq!(color_distance(&rgba(255, 0, 0, 255), &rgba(0, 0, 0, 255)), 100);
    // sqrt(2 * 255^2) / 2.55 = 141.4...
    assert_eq!(color_distance(&rgba(255, 255, 255, 255), &rgba(255, 0, 0, 255)), 141);
    // sqrt(9 + 16) / 2.55 = 1.96...
    assert_eq!(color_distance(&rgba(10, 20, 30, 255), &rgba(13, 24, 30, 255)), 1);
    // sqrt(6) / 2.55 = 0.96..., below 1, and the colours differ
    assert_eq!(color_distance(&rgba(0, 0, 0, 255), &rgba(2, 1, 1, 255)), 1);
    // 2 / 2.55 = 0.78..., 1 / 2.55 = 0.39...
    assert_eq!(color_distance(&rgba(0, 0, 0, 255), &rgba(2, 0, 0, 255)), 1);
    assert_eq!(color_distance(&rgba(7, 7, 7, 255), &rgba(7, 8, 7, 255)), 1);
    // alpha does not count; 5 / 2.55 = 1.96..., 6 / 2.55 = 2.35...
    assert_eq!(color_distance(&rgba(0, 0, 0, 255), &rgba(2, 1, 1, 0)), 1);
    assert_eq!(color_distance(&rgba(0, 0, 0, 255), &rgba(1, 2, 1, 255)), 1);
    assert_eq!(color_distance(&rgba(0, 0, 0, 255), &rgba(5, 0, 0, 255)), 1);
    assert_eq!(color_distance(&rgba(0, 0, 0, 255), &rgba(6, 0, 0, 255)), 2);
    // 3 / 2.55 = 1.17...
    assert_eq!(color_distance(&rgba(0, 0, 0, 255), &rgba(3, 0, 0, 255)), 1);
    // 51 / 2.55 = 20 exactly
    assert_eq!(color_distance(&rgba(51, 0, 0, 255), &rgba(0, 0, 0, 255)), 20);
}

#[test]
fn distance_is_symmetric_and_bounded() {
    let samples = [
        rgba(0, 0, 0, 255),
        rgba(255, 255, 255, 255),
        rgba(255, 0, 0, 255),
        rgba(1, 2, 3, 4),
        rgba(200, 100, 50, 25),
    ];
    for p in samples.iter() {
        for q in samples.iter() {
            let d = color_distance(p, q);
            assert_eq!(d, color_distance(q, p));
            assert!(d <= 173);
        }
    }
}

#[test]
fn distance_matches_its_definition_on_one_channel() {
    // d is the largest number with (2.55 d)^2 <= difference^2, or 1 where
    // that is 0 and there is a difference
    for diff in 0..=255u64 {
        let d = color_distance(&rgba(diff as u8, 0, 0, 255), &rgba(0, 0, 0, 255)) as u64;
        if diff == 0 {
            assert_eq!(d, 0);
        } else if diff < 3 {
            assert_eq!(d, 1);
        } else {
            assert!((255 * d) * (255 * d) <= 10000 * diff * diff);
            assert!(10000 * diff * diff < (255 * (d + 1)) * (255 * (d + 1)));
        }
        assert!(d <= 100);
    }
}

#[test]
fn distance_is_zero_for_equal_rgb_and_for_nothing_else() {
    let values = [0u8, 1, 2, 3, 100, 127, 128, 253, 254, 255];
    for r1 in values {
        for g1 in values {
            for b1 in values {
                for r2 in values {
                    for g2 in values {
                        for b2 in values {
                            let d = color_distance(&rgba(r1, g1, b1, 9), &rgba(r2, g2, b2, 200));
                            let equal = r1 == r2 && g1 == g2 && b1 == b2;
                            assert_eq!(d == 0, equal);
                            assert!(d <= 173);
                        }
                    }
                }
            }
        }
    }
}

#[test]
fn distance_is_within_one_of_the_quotient() {
    for k in 0..2000u32 {
        let p = rgba((k * 7 % 256) as u8, (k * 13 % 256) as u8, (k * 29 % 256) as u8, 255);
        let q = rgba((k * 31 % 256) as u8, (k * 3 % 256) as u8, (k * 101 % 256) as u8, 255);
        let squared = ((p.r as f64 - q.r as f64).powi(2)
            + (p.g as f64 - q.g as f64).powi(2)
            + (p.b as f64 - q.b as f64).powi(2))
            as f64;
        let quotient = squared.sqrt() / 2.55;
        let d = color_distance(&p, &q) as f64;
        assert!((d - quotient).abs() < 1.0 + 1e-9);
    }
}
