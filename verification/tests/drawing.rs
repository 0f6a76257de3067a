//! Drawings and flat colours, as the compositor takes them.
use obs_rs::backend::blend::{over, Pixel};
use obs_rs::backend::drawing::{drawing_bgra, flat_bgra, Frame};
use obs_rs::scene::{Point, Stroke};

fn units(pixels: f32) -> i32 {
    (pixels * 256.0).round() as i32
}

fn stroke(points: &[[f32; 2]], rgba: [u8; 4], width: f32) -> Stroke {
    Stroke {
        points: points.iter().map(|[x, y]| Point { x: units(*x), y: units(*y) }).collect(),
        width: units(width) as u32,
        rgba,
    }
}

/// Reads one pixel back as BGRA, which is the order the frame is in.
fn pixel_at(frame: &Frame, x: u32, y: u32) -> [u8; 4] {
    let pixel = frame.pixel_at(x, y);
    [pixel.blue, pixel.green, pixel.red, pixel.alpha]
}

#[test]
fn an_undrawn_drawing_is_fully_transparent() {
    let frame = drawing_bgra(64, 64, &vec![]);
    for (x, y) in [(0, 0), (31, 31), (63, 63)] {
        assert_eq!(pixel_at(&frame, x, y), [0, 0, 0, 0], "({x}, {y}) should be untouched");
    }
}

#[test]
fn a_single_point_draws_a_dot_in_its_own_colour() {
    let strokes = vec![stroke(&[[32.0, 32.0]], [200, 100, 50, 255], 8.0)];
    let frame = drawing_bgra(64, 64, &strokes);
    // BGRA, so the red the caller asked for is the third byte.
    assert_eq!(pixel_at(&frame, 32, 32), [50, 100, 200, 255]);
    assert_eq!(
        pixel_at(&frame, 32, 20),
        [0, 0, 0, 0],
        "well outside the dot stays transparent"
    );
}

#[test]
fn a_segment_is_continuous_between_its_points() {
    let strokes = vec![stroke(&[[8.0, 32.0], [56.0, 32.0]], [255, 255, 255, 255], 4.0)];
    let frame = drawing_bgra(64, 64, &strokes);
    for x in 8..=56 {
        assert_eq!(
            pixel_at(&frame, x, 32)[3],
            255,
            "the line should be unbroken at x = {x}"
        );
    }
}

#[test]
fn a_stroke_leaving_the_surface_is_clipped() {
    let strokes = vec![stroke(&[[-40.0, 32.0], [100.0, 32.0]], [255, 255, 255, 255], 6.0)];
    let frame = drawing_bgra(64, 64, &strokes);
    assert_eq!(pixel_at(&frame, 0, 32)[3], 255, "it crosses the left edge");
    assert_eq!(pixel_at(&frame, 63, 32)[3], 255, "and the right one");
}

#[test]
fn a_translucent_stroke_does_not_build_up_where_it_overlaps_itself() {
    let strokes = vec![stroke(
        // Doubles back on itself, so the corner is drawn over twice on top of
        // the overlap every straight run already has.
        &[[10.0, 10.0], [50.0, 10.0], [50.0, 50.0], [20.0, 10.0]],
        [250, 220, 60, 90],
        8.0,
    )];

    let frame = drawing_bgra(64, 64, &strokes);

    let straight = pixel_at(&frame, 30, 10);
    let corner = pixel_at(&frame, 50, 10);
    assert_eq!(
        straight[3], 90,
        "a pixel under one stroke must carry that stroke's own alpha"
    );
    assert_eq!(
        corner, straight,
        "the corner is covered many times over and must come out the same \
         as a single pass, or the stroke is darker where it doubles back"
    );
}

#[test]
fn a_translucent_stroke_blends_with_what_is_under_it() {
    let pen = stroke(&[[0.0, 20.0], [64.0, 20.0]], [255, 0, 0, 255], 8.0);
    let highlighter = stroke(&[[32.0, 0.0], [32.0, 64.0]], [0, 0, 255, 128], 8.0);

    let frame = drawing_bgra(64, 64, &vec![pen, highlighter]);

    // Where only the pen is, it is untouched.
    assert_eq!(pixel_at(&frame, 8, 20), [0, 0, 255, 255]);
    // Where only the highlighter is, it is itself over nothing.
    assert_eq!(pixel_at(&frame, 32, 50), [255, 0, 0, 128]);
    // Where they cross, both are in it: blue over red at half, on an opaque
    // pixel, so the result is opaque and neither pure colour.
    let crossing = pixel_at(&frame, 32, 20);
    assert_eq!(crossing[3], 255, "an opaque mark stays opaque underneath");
    assert!(
        crossing[0] > 100 && crossing[2] > 100,
        "the crossing must hold both colours, got {crossing:?}"
    );
    assert_eq!(crossing, [128, 0, 127, 255]);
}

#[test]
fn a_flat_frame_is_opaque_whatever_the_alpha() {
    let frame = flat_bgra(3, 2, [10, 20, 30, 40]);
    assert_eq!(frame.pixels.len(), 6);
    for y in 0..2 {
        for x in 0..3 {
            assert_eq!(pixel_at(&frame, x, y), [30, 20, 10, 255]);
        }
    }
}

#[test]
fn an_invisible_mark_changes_nothing() {
    let under = Pixel { blue: 1, green: 2, red: 3, alpha: 200 };
    assert_eq!(over(under, [9, 9, 9, 0]), under);
    let clear = Pixel { blue: 0, green: 0, red: 0, alpha: 0 };
    assert_eq!(over(clear, [9, 9, 9, 0]), clear);
}

#[test]
fn a_mark_with_no_points_draws_nothing() {
    let frame = drawing_bgra(8, 8, &vec![stroke(&[], [255, 255, 255, 255], 8.0)]);
    assert_eq!(pixel_at(&frame, 4, 4), [0, 0, 0, 0]);
}

/// One more stroke lays its colour once where it reaches, and nowhere else.
#[test]
fn a_stroke_added_is_laid_once_over_what_was_there() {
    let pen = || stroke(&[[8.0, 32.0], [56.0, 32.0]], [200, 10, 60, 255], 9.0);
    let marker = || stroke(&[[32.0, 8.0], [32.0, 56.0], [32.0, 8.0]], [10, 220, 40, 96], 12.0);
    let white = Stroke { rgba: [255; 4], ..marker() };
    let before = drawing_bgra(64, 64, &vec![pen()]);
    let reach = drawing_bgra(64, 64, &vec![white]);
    let after = drawing_bgra(64, 64, &vec![pen(), marker()]);
    let clear = Pixel { blue: 0, green: 0, red: 0, alpha: 0 };
    let (mut laid, mut left) = (0, 0);
    for row in 0..64 {
        for column in 0..64 {
            let under = before.pixel_at(column, row);
            let shown = after.pixel_at(column, row);
            if reach.pixel_at(column, row) != clear {
                assert_eq!(shown, over(under, marker().rgba));
                laid += 1;
            } else {
                assert_eq!(shown, under);
                left += 1;
            }
        }
    }
    assert!(laid > 100 && left > 100);
}
