use plotcore::blend::{accumulate, glyph_pixel_alpha, mix};
use plotcore::canvas::{Canvas, CanvasError};

fn px(c: &Canvas, x: usize, y: usize) -> [u8; 4] {
    let w = c.width() as usize;
    let d = c.data();
    let i = (y * w + x) * 4;
    [d[i], d[i + 1], d[i + 2], d[i + 3]]
}

#[test]
fn glyph_alpha_scales_coverage_by_colour_alpha() {
    assert_eq!(glyph_pixel_alpha(255, 200), 200);
    assert_eq!(glyph_pixel_alpha(128, 255), 128);
    assert_eq!(glyph_pixel_alpha(128, 128), 64);
    assert_eq!(glyph_pixel_alpha(0, 255), 0);
}

#[test]
fn mix_extremes_and_midpoint() {
    assert_eq!(mix(200, 100, 255), 200);
    assert_eq!(mix(200, 100, 0), 100);
    assert_eq!(mix(255, 0, 128), 128);
    assert_eq!(mix(0, 255, 128), 127);
    assert_eq!(mix(10, 250, 77), 177);
}

#[test]
fn accumulate_alpha_over_rule() {
    assert_eq!(accumulate(100, 0), 100);
    assert_eq!(accumulate(0, 255), 255);
    assert_eq!(accumulate(255, 255), 255);
    assert_eq!(accumulate(128, 128), 192);
    assert_eq!(accumulate(0, 90), 90);
}

#[test]
fn new_canvas_is_transparent_black() {
    let c = Canvas::new(3, 2).unwrap();
    assert_eq!(c.width(), 3);
    assert_eq!(c.height(), 2);
    assert_eq!(c.data().len(), 24);
    assert!(c.data().iter().all(|&b| b == 0));
}

#[test]
fn new_canvas_refuses_zero_and_huge_sizes() {
    assert!(matches!(Canvas::new(0, 5), Err(CanvasError::InvalidDimensions)));
    assert!(matches!(Canvas::new(5, 0), Err(CanvasError::InvalidDimensions)));
    assert!(matches!(Canvas::new(536_870_912, 1), Err(CanvasError::InvalidDimensions)));
}

#[test]
fn from_rgba_checks_length() {
    assert!(matches!(Canvas::from_rgba(2, 2, vec![0; 15]), Err(CanvasError::InvalidBuffer)));
    assert!(matches!(Canvas::from_rgba(0, 2, vec![]), Err(CanvasError::InvalidBuffer)));
    let c = Canvas::from_rgba(1, 2, vec![1, 2, 3, 4, 5, 6, 7, 8]).unwrap();
    assert_eq!(px(&c, 0, 1), [5, 6, 7, 8]);
    assert_eq!(c.into_data(), vec![1, 2, 3, 4, 5, 6, 7, 8]);
}

fn white(w: u32, h: u32) -> Canvas {
    Canvas::from_rgba(w, h, vec![255; (w * h * 4) as usize]).unwrap()
}

#[test]
fn blit_composites_covered_cells_only() {
    let mut c = white(3, 3);
    // 2x2 glyph at (1, 1): full, none, half, full.
    c.blit_coverage(&[255, 0, 128, 255], 2, 2, 1, 1, [255, 0, 0, 255]);
    assert_eq!(px(&c, 0, 0), [255, 255, 255, 255]);
    assert_eq!(px(&c, 1, 1), [255, 0, 0, 255]);
    assert_eq!(px(&c, 2, 1), [255, 255, 255, 255]);
    // coverage 128 -> alpha 128: mix(0, 255, 128) = 127
    assert_eq!(px(&c, 1, 2), [255, 127, 127, 255]);
    assert_eq!(px(&c, 2, 2), [255, 0, 0, 255]);
}

#[test]
fn blit_clips_at_canvas_edges() {
    let mut c = Canvas::new(2, 2).unwrap();
    c.blit_coverage(&[255, 255, 255, 255, 255, 255, 255, 255, 255], 3, 3, -1, -1, [10, 20, 30, 255]);
    for y in 0..2 {
        for x in 0..2 {
            assert_eq!(px(&c, x, y), [10, 20, 30, 255]);
        }
    }
    let mut d = Canvas::new(2, 2).unwrap();
    d.blit_coverage(&[255], 1, 1, 5, 0, [10, 20, 30, 255]);
    assert!(d.data().iter().all(|&b| b == 0));
}

#[test]
fn blit_alpha_channel_accumulates_on_transparent_canvas() {
    let mut c = Canvas::new(1, 1).unwrap();
    c.blit_coverage(&[255], 1, 1, 0, 0, [200, 100, 50, 128]);
    // alpha 128: channels mix over 0, alpha accumulates from 0
    assert_eq!(px(&c, 0, 0), [100, 50, 25, 128]);
}

#[test]
fn blit_in_transparent_colour_changes_nothing() {
    let mut c = Canvas::from_rgba(2, 1, vec![1, 2, 3, 4, 5, 6, 7, 8]).unwrap();
    c.blit_coverage(&[255, 255], 2, 1, 0, 0, [255, 255, 255, 0]);
    assert_eq!(c.data(), &vec![1, 2, 3, 4, 5, 6, 7, 8]);
}

#[test]
fn fill_cell_mixes_colour_and_makes_opaque() {
    let mut c = Canvas::new(3, 1).unwrap();
    c.fill_cell(1, 0, 5, 1, [255, 0, 128, 128]);
    assert_eq!(px(&c, 0, 0), [0, 0, 0, 0]);
    assert_eq!(px(&c, 1, 0), [128, 0, 64, 255]);
    assert_eq!(px(&c, 2, 0), [128, 0, 64, 255]);
}

#[test]
fn fill_cell_with_empty_or_negative_size_covers_nothing() {
    let mut c = Canvas::new(2, 2).unwrap();
    c.fill_cell(0, 0, 0, 2, [255, 255, 255, 255]);
    c.fill_cell(0, 0, 2, -3, [255, 255, 255, 255]);
    assert!(c.data().iter().all(|&b| b == 0));
}

#[test]
fn fill_cell_opaque_shows_colour() {
    let mut c = white(2, 2);
    c.fill_cell(-1, 1, 2, 5, [9, 8, 7, 255]);
    assert_eq!(px(&c, 0, 1), [9, 8, 7, 255]);
    assert_eq!(px(&c, 1, 1), [255, 255, 255, 255]);
    assert_eq!(px(&c, 0, 0), [255, 255, 255, 255]);
}

#[test]
fn encode_png_writes_a_png_file() {
    let c = Canvas::new(4, 3).unwrap();
    let png = c.encode_png();
    assert_eq!(&png[..8], &[0x89, b'P', b'N', b'G', 0x0d, 0x0a, 0x1a, 0x0a]);
    // IHDR carries the width and height.
    assert_eq!(&png[16..24], &[0, 0, 0, 4, 0, 0, 0, 3]);
    assert_eq!(&png[png.len() - 8..png.len() - 4], b"IEND");
}

#[test]
fn fill_with_opaque_colour_sets_every_pixel() {
    let mut c = Canvas::new(3, 2).unwrap();
    c.fill([255, 255, 255, 255]);
    assert!(c.data().iter().all(|&b| b == 255));
    c.fill([0, 0, 0, 255]);
    for y in 0..2 {
        for x in 0..3 {
            assert_eq!(px(&c, x, y), [0, 0, 0, 255]);
        }
    }
    c.fill([12, 34, 56, 255]);
    assert_eq!(px(&c, 2, 1), [12, 34, 56, 255]);
}

#[test]
fn blit_half_coverage_black_over_white() {
    let mut c = white(1, 1);
    c.blit_coverage(&[128], 1, 1, 0, 0, [0, 0, 0, 255]);
    assert_eq!(c.data(), &vec![127, 127, 127, 255]);
}

#[test]
fn translucent_cell_over_opaque_black() {
    let mut c = Canvas::from_rgba(1, 1, vec![0, 0, 0, 255]).unwrap();
    c.fill_cell(0, 0, 1, 1, [255, 255, 255, 127]);
    assert_eq!(c.data(), &vec![127, 127, 127, 255]);
}
