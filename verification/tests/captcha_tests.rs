use captcha_generator::background::create_background;
use captcha_generator::buffer::PixelBuffer;
use captcha_generator::code::generate_code;
use captcha_generator::codec::{decode_png, encode_png, png_round_trip};
use captcha_generator::dots::add_noise_dots;
use captcha_generator::lines::add_interference_lines;
use captcha_generator::text::{alphabet_index, blend, draw_text, Glyph, GlyphRaster, ModelFont};
use captcha_generator::trig::{div_trunc, sine_milli_exec};
use captcha_generator::wave::{add_wave_distortion, apply_wave};
use captcha_generator::{Captcha, CaptchaConfig};
use rand::rngs::StdRng;
use rand::SeedableRng;

const CHARSET: &str = "23456789ABCDEFGHJKLMNPQRSTUVWXYZ";

/// A small synthetic font: every alphabet character gets the same solid
/// 20 x 28 half-opaque raster and a 30-pixel advance.
fn test_font() -> ModelFont {
    let mut glyphs = Vec::new();
    for _ in 0..32 {
        glyphs.push(Glyph {
            advance_milli: 30_000,
            raster: Some(GlyphRaster {
                bb_min_x: 1,
                bb_min_y: -20,
                width: 20,
                height: 28,
                coverage: vec![128u8; 20 * 28],
            }),
        });
    }
    ModelFont { glyphs }
}

fn pixel(img: &PixelBuffer, x: u32, y: u32) -> (u8, u8, u8) {
    let base = 3 * (y as usize * img.width as usize + x as usize);
    (img.data[base], img.data[base + 1], img.data[base + 2])
}

#[test]
fn test_generate_code() {
    let mut rng = StdRng::seed_from_u64(7);
    let code = generate_code(6, &mut rng);
    assert_eq!(code.len(), 6);
    assert!(code.chars().all(|c| CHARSET.contains(c)));
}

#[test]
fn test_captcha_creation() {
    let mut rng = StdRng::seed_from_u64(11);
    let font = test_font();
    let captcha = Captcha::new(&font, &mut rng);
    assert_eq!(captcha.code.len(), 6);
    assert_eq!(captcha.image.width(), 280);
    assert_eq!(captcha.image.height(), 100);
}

#[test]
fn test_custom_config() {
    let config = CaptchaConfig {
        width: 300,
        height: 120,
        code_length: 8,
        ..Default::default()
    };
    let mut rng = StdRng::seed_from_u64(13);
    let font = test_font();
    let captcha = Captcha::with_config(config, &font, &mut rng);
    assert_eq!(captcha.code.len(), 8);
    assert_eq!(captcha.image.width(), 300);
    assert_eq!(captcha.image.height(), 120);
}

#[test]
fn generate_code_empty() {
    let mut rng = StdRng::seed_from_u64(3);
    let code = generate_code(0, &mut rng);
    assert_eq!(code.len(), 0);
}

#[test]
fn generate_code_long_all_in_alphabet() {
    let mut rng = StdRng::seed_from_u64(5);
    let code = generate_code(500, &mut rng);
    assert_eq!(code.len(), 500);
    assert!(code.chars().all(|c| CHARSET.contains(c)));
}

#[test]
fn background_channels_near_white() {
    let mut rng = StdRng::seed_from_u64(17);
    let img = create_background(40, 25, &mut rng);
    assert_eq!(img.width(), 40);
    assert_eq!(img.height(), 25);
    assert_eq!(img.data.len(), 3 * 40 * 25);
    for (i, &v) in img.data.iter().enumerate() {
        assert!((240..=255).contains(&v), "channel {} out of range: {}", i, v);
        if i % 3 == 0 {
            assert!((245..=254).contains(&v), "red {} out of range: {}", i, v);
        }
    }
}

#[test]
fn dimensions_same_across_runs() {
    let config = CaptchaConfig {
        width: 123,
        height: 77,
        code_length: 4,
        ..Default::default()
    };
    let font = test_font();
    let mut rng_a = StdRng::seed_from_u64(100);
    let mut rng_b = StdRng::seed_from_u64(200);
    let config_b = CaptchaConfig {
        width: 123,
        height: 77,
        code_length: 4,
        ..Default::default()
    };
    let a = Captcha::with_config(config, &font, &mut rng_a);
    let b = Captcha::with_config(config_b, &font, &mut rng_b);
    assert_eq!(a.image.width(), b.image.width());
    assert_eq!(a.image.height(), b.image.height());
    assert_ne!(a.image.data, b.image.data);
}

#[test]
fn wave_clamps_to_canvas() {
    // A 10-wide canvas with per-pixel distinct values and an amplitude so
    // large that every nonzero row offset overshoots the canvas: every pixel
    // of such a row must come from the clamped edge column, never from
    // outside.
    let width = 10u32;
    let height = 8u32;
    let mut data = Vec::new();
    for y in 0..height {
        for x in 0..width {
            data.push((10 * y + x) as u8);
            data.push(100 + x as u8);
            data.push(200 + y as u8);
        }
    }
    let src = PixelBuffer { width, height, data };
    let out = apply_wave(&src, 100_000, 60);
    assert_eq!(out.width, 10);
    assert_eq!(out.height, 8);
    // row 0: the sine of 0 is 0, so the row is copied as it stands
    for x in 0..width {
        assert_eq!(pixel(&out, x, 0), pixel(&src, x, 0));
    }
    // rows 1..8: the offset is far beyond the width, clamped to column 9
    for y in 1..height {
        for x in 0..width {
            assert_eq!(pixel(&out, x, y), pixel(&src, 9, y));
        }
    }
}

#[test]
fn wave_distortion_keeps_dimensions() {
    let mut rng = StdRng::seed_from_u64(23);
    let src = create_background(33, 21, &mut rng);
    let out = add_wave_distortion(&src, 15, 25, &mut rng);
    assert_eq!(out.width(), 33);
    assert_eq!(out.height(), 21);
    let out2 = add_wave_distortion(&src, 25, 15, &mut rng);
    assert_eq!(out2.width(), 33);
    assert_eq!(out2.height(), 21);
}

#[test]
fn interference_lines_keep_dimensions() {
    let mut rng = StdRng::seed_from_u64(29);
    let mut img = create_background(50, 30, &mut rng);
    add_interference_lines(&mut img, 2, 4, &mut rng);
    assert_eq!(img.width(), 50);
    assert_eq!(img.height(), 30);
    assert_eq!(img.data.len(), 3 * 50 * 30);
    // degenerate range: min >= max still draws exactly min strokes
    add_interference_lines(&mut img, 3, 3, &mut rng);
    assert_eq!(img.width(), 50);
    assert_eq!(img.height(), 30);
}

#[test]
fn noise_dots_keep_dimensions() {
    let mut rng = StdRng::seed_from_u64(31);
    let mut img = create_background(50, 30, &mut rng);
    add_noise_dots(&mut img, 500, &mut rng);
    assert_eq!(img.width(), 50);
    assert_eq!(img.height(), 30);
    assert_eq!(img.data.len(), 3 * 50 * 30);
}

#[test]
fn noise_dots_change_pixels() {
    let mut rng = StdRng::seed_from_u64(37);
    let mut img = create_background(50, 30, &mut rng);
    add_noise_dots(&mut img, 500, &mut rng);
    // dark dots (channels below 140) cannot come from the background
    let dark = img.data.iter().filter(|&&v| v < 240).count();
    assert!(dark > 0);
}

#[test]
fn draw_text_keeps_dimensions_and_draws_ink() {
    let mut rng = StdRng::seed_from_u64(41);
    let mut img = create_background(280, 100, &mut rng);
    let font = test_font();
    draw_text(&mut img, "ABC234", &font, 52, &mut rng);
    assert_eq!(img.width(), 280);
    assert_eq!(img.height(), 100);
    // glyph ink is dark: blended channels fall well below the background
    let dark = img.data.iter().filter(|&&v| v < 200).count();
    assert!(dark > 0);
}

#[test]
fn draw_text_skips_unknown_characters() {
    let mut rng = StdRng::seed_from_u64(43);
    let mut img = create_background(60, 40, &mut rng);
    let font = test_font();
    let before = img.data.clone();
    draw_text(&mut img, "ab!0", &font, 52, &mut rng);
    assert_eq!(img.width(), 60);
    assert_eq!(img.height(), 40);
    assert_eq!(img.data, before);
}

#[test]
fn blend_exact_values() {
    // full coverage paints the color, zero coverage keeps the background
    assert_eq!(blend(250, 40, 255), 40);
    assert_eq!(blend(250, 40, 0), 250);
    // half coverage, rounded toward zero: (250*127 + 40*128) / 255 = 144
    assert_eq!(blend(250, 40, 128), 144);
}

#[test]
fn alphabet_index_finds_each_character() {
    for (i, c) in CHARSET.chars().enumerate() {
        assert_eq!(alphabet_index(c), Some(i));
    }
    assert_eq!(alphabet_index('0'), None);
    assert_eq!(alphabet_index('I'), None);
    assert_eq!(alphabet_index('a'), None);
}

#[test]
fn sine_fixed_point_values() {
    assert_eq!(sine_milli_exec(0), 0);
    // the quarter turn peaks at 999 of 1000 in this fixed-point model
    assert_eq!(sine_milli_exec(1571), 999);
    assert_eq!(sine_milli_exec(3142), 0);
    assert_eq!(sine_milli_exec(4713), -999);
    // a full turn later the values repeat
    assert_eq!(sine_milli_exec(1571 + 6283), 999);
}

#[test]
fn div_trunc_rounds_toward_zero() {
    assert_eq!(div_trunc(7, 2), 3);
    assert_eq!(div_trunc(-7, 2), -3);
    assert_eq!(div_trunc(9999, 10000), 0);
    assert_eq!(div_trunc(-9999, 10000), 0);
}

#[test]
fn png_round_trip_preserves_pixels() {
    let mut rng = StdRng::seed_from_u64(47);
    let img = create_background(20, 10, &mut rng);
    let back = png_round_trip(&img).expect("round trip failed");
    assert_eq!(back.width, img.width);
    assert_eq!(back.height, img.height);
    assert_eq!(back.data, img.data);
}

#[test]
fn png_encode_decode_preserves_pixels() {
    let mut rng = StdRng::seed_from_u64(53);
    let img = create_background(15, 9, &mut rng);
    let bytes = encode_png(&img).expect("encode failed");
    let back = decode_png(&bytes).expect("decode failed");
    assert_eq!(back.width, 15);
    assert_eq!(back.height, 9);
    assert_eq!(back.data, img.data);
}

#[test]
fn png_encode_rejects_empty_canvas() {
    let img = PixelBuffer {
        width: 0,
        height: 0,
        data: Vec::new(),
    };
    assert!(encode_png(&img).is_err());
}

#[test]
fn decode_png_rejects_garbage() {
    let bytes = vec![1u8, 2, 3, 4, 5];
    assert!(decode_png(&bytes).is_err());
}

#[test]
fn end_to_end_default_pipeline() {
    let config = CaptchaConfig {
        width: 280,
        height: 100,
        code_length: 6,
        font_size: 52,
        interference_lines: (2, 4),
        noise_dots: 100,
        wave_amplitude: (15, 25),
    };
    let font = test_font();
    let mut rng = StdRng::seed_from_u64(59);
    let captcha = Captcha::with_config(config, &font, &mut rng);
    assert_eq!(captcha.code.len(), 6);
    assert!(captcha.code.chars().all(|c| CHARSET.contains(c)));
    assert_eq!(captcha.image.width(), 280);
    assert_eq!(captcha.image.height(), 100);
    let bytes = captcha.to_png_bytes().expect("encode failed");
    let back = decode_png(&bytes).expect("decode failed");
    assert_eq!(back.width, 280);
    assert_eq!(back.height, 100);
    assert_eq!(back.data.len(), 3 * 280 * 100);
    assert_eq!(back.data, captcha.image.data);
}

#[test]
fn draw_character_exact_placement() {
    // a single fully opaque sample, no rotation: with the fixed-point model,
    // the sample lands at (5, 7) and paints the color exactly
    let mut rng = StdRng::seed_from_u64(61);
    let mut img = create_background(10, 10, &mut rng);
    let before = img.data.clone();
    let raster = GlyphRaster {
        bb_min_x: 0,
        bb_min_y: 0,
        width: 1,
        height: 1,
        coverage: vec![255u8],
    };
    captcha_generator::text::draw_character(&mut img, &raster, 5000, 7000, 0, 50, 60, 70);
    assert_eq!(pixel(&img, 5, 7), (50, 60, 70));
    for y in 0..10u32 {
        for x in 0..10u32 {
            if (x, y) != (5, 7) {
                let base = 3 * (y as usize * 10 + x as usize);
                assert_eq!(img.data[base..base + 3], before[base..base + 3]);
            }
        }
    }
}

#[test]
fn paint_stroke_exact_rows() {
    // with zero amplitude the stroke is flat: rows 4, 5 and 6 take the color
    // exactly, everything else stays
    let mut rng = StdRng::seed_from_u64(67);
    let mut img = create_background(12, 12, &mut rng);
    let before = img.data.clone();
    captcha_generator::lines::paint_stroke(&mut img, 190, 195, 200, 5, 0, 30);
    for x in 0..12u32 {
        for y in 0..12u32 {
            let base = 3 * (y as usize * 12 + x as usize);
            if (4..=6).contains(&y) {
                assert_eq!(pixel(&img, x, y), (190, 195, 200));
            } else {
                assert_eq!(img.data[base..base + 3], before[base..base + 3]);
            }
        }
    }
}

#[test]
fn noise_dots_changed_pixels_are_gray() {
    let mut rng = StdRng::seed_from_u64(71);
    let mut img = create_background(60, 40, &mut rng);
    let before = img.data.clone();
    add_noise_dots(&mut img, 300, &mut rng);
    for y in 0..40u32 {
        for x in 0..60u32 {
            let base = 3 * (y as usize * 60 + x as usize);
            if img.data[base..base + 3] != before[base..base + 3] {
                let px = &img.data[base..base + 3];
                let light = px.iter().all(|&v| (200..230).contains(&v));
                let dark = px.iter().all(|&v| (80..140).contains(&v));
                assert!(light || dark, "changed pixel ({}, {}) is no dot gray: {:?}", x, y, px);
            }
        }
    }
}

#[test]
fn interference_lines_changed_pixels_are_light_gray() {
    let mut rng = StdRng::seed_from_u64(73);
    let mut img = create_background(60, 40, &mut rng);
    let before = img.data.clone();
    add_interference_lines(&mut img, 2, 4, &mut rng);
    for y in 0..40u32 {
        for x in 0..60u32 {
            let base = 3 * (y as usize * 60 + x as usize);
            if img.data[base..base + 3] != before[base..base + 3] {
                let px = &img.data[base..base + 3];
                assert!(
                    px.iter().all(|&v| (180..210).contains(&v)),
                    "changed pixel ({}, {}) is no stroke gray: {:?}",
                    x,
                    y,
                    px
                );
            }
        }
    }
}

#[test]
fn noise_dots_zero_count_changes_nothing() {
    let mut rng = StdRng::seed_from_u64(79);
    let mut img = create_background(30, 20, &mut rng);
    let before = img.data.clone();
    add_noise_dots(&mut img, 0, &mut rng);
    assert_eq!(img.data, before);
    // with no dots to plot, even an empty canvas is tolerated
    let mut empty = PixelBuffer {
        width: 0,
        height: 0,
        data: Vec::new(),
    };
    add_noise_dots(&mut empty, 0, &mut rng);
    assert_eq!(empty.data.len(), 0);
}

#[test]
fn draw_text_skips_glyphs_without_rasters() {
    let mut rng = StdRng::seed_from_u64(83);
    let mut img = create_background(60, 40, &mut rng);
    let mut glyphs = Vec::new();
    for _ in 0..32 {
        glyphs.push(Glyph {
            advance_milli: 30_000,
            raster: None,
        });
    }
    let font = ModelFont { glyphs };
    let before = img.data.clone();
    draw_text(&mut img, "AB23", &font, 52, &mut rng);
    assert_eq!(img.data, before);
}
