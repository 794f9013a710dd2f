//! Fitting arriving frames onto the canvas.

use gifkino::canvas::OverlayBox;
use gifkino::document::Document;
use gifkino::fit::{plan_splice, refit, FitMode, Measure, Placement, Splice};
use gifkino::model::{Frame, FrameKeys, OverlayKind, Shape, ShapeOverlay, Transform};
use gifkino::raster::Raster;
use gifkino::single::Single;

fn f(x: f32) -> Single {
    Single::from_bits(x.to_bits())
}

fn num(x: Single) -> f32 {
    f32::from_bits(x.to_bits())
}

fn at(x: f32, y: f32, w: f32, h: f32) -> Transform {
    Transform::at(f(x), f(y), f(w), f(h))
}

fn solid(w: u32, h: u32, color: [u8; 4]) -> Raster {
    let data = (0..w * h).flat_map(|_| color).collect();
    Raster::from_raw(w, h, data).expect("exactly enough bytes")
}

/// What scaling `src` to `dst` takes, in single precision.
fn measure(src: (u32, u32), dst: (u32, u32)) -> Measure {
    let stretch = (
        dst.0 as f32 / src.0.max(1) as f32,
        dst.1 as f32 / src.1.max(1) as f32,
    );
    let factor = stretch.0.min(stretch.1);
    Measure {
        stretch: (f(stretch.0), f(stretch.1)),
        factor: f(factor),
        fitted: (
            (src.0 as f32 * factor).round() as u32,
            (src.1 as f32 * factor).round() as u32,
        ),
    }
}

fn frame(w: u32, h: u32) -> Frame {
    let mut keys = FrameKeys::new();
    Frame::new(solid(w, h, [9, 9, 9, 255]), 10, &mut keys)
}

fn doc(size: (u32, u32), count: usize) -> Document {
    Document::from_frames((0..count).map(|_| frame(size.0, size.1)).collect())
}

fn splice(
    document: &Document,
    at: usize,
    incoming: Vec<Frame>,
    mode: FitMode,
    seen: &mut Vec<(usize, usize)>,
) -> Splice {
    let mut keys = FrameKeys::new();
    let size = |frame: &Frame| (frame.pixels.width, frame.pixels.height);
    let arriving = incoming.first().map_or((0, 0), size);
    let canvas = mode.canvas(document.size(), arriving);
    let own = document
        .frames
        .iter()
        .map(|frame| measure(size(frame), canvas))
        .collect();
    let theirs = incoming
        .iter()
        .map(|frame| measure(size(frame), canvas))
        .collect();
    plan_splice(
        document,
        at,
        incoming,
        mode,
        &own,
        &theirs,
        measure(document.size(), canvas),
        |done, total| seen.push((done, total)),
        &mut keys,
    )
}

/// What the placement makes of the overlays' boxes.
fn boxes(d: &Document, placed: Placement) -> Vec<OverlayBox> {
    let (fx, fy) = (num(placed.scale.0), num(placed.scale.1));
    let (dx, dy) = (placed.offset.0 as f32, placed.offset.1 as f32);
    d.overlays
        .iter()
        .map(|o| OverlayBox {
            x: f(num(o.transform.x) * fx + dx),
            y: f(num(o.transform.y) * fy + dy),
            w: f(num(o.transform.w) * fx),
            h: f(num(o.transform.h) * fy),
            size_px: f(0.0),
        })
        .collect()
}

fn add_caption(document: &mut Document, box_: Transform, range: std::ops::Range<usize>) {
    document.add_overlay(
        "caption".to_string(),
        OverlayKind::Shape(ShapeOverlay {
            shape: Shape::Rect,
            fill: Some([255, 0, 0, 255]),
            stroke: None,
        }),
        box_,
        range,
    );
}

#[test]
fn only_the_growing_modes_move_the_canvas() {
    let canvas = (100, 50);
    let arriving = (40, 40);
    assert_eq!(FitMode::Stretch.canvas(canvas, arriving), canvas);
    assert_eq!(FitMode::Pad.canvas(canvas, arriving), canvas);
    assert_eq!(FitMode::GrowPad.canvas(canvas, arriving), arriving);
    assert_eq!(FitMode::GrowStretch.canvas(canvas, arriving), arriving);
}

#[test]
fn an_empty_document_takes_the_incoming_size() {
    for mode in FitMode::all() {
        assert_eq!(mode.canvas((0, 0), (32, 24)), (32, 24), "{mode:?}");
    }
}

#[test]
fn keeping_the_aspect_ratio_centers_and_scales_by_the_smaller_factor() {
    let placed = FitMode::Pad.placement((40, 40), (100, 50), measure((40, 40), (100, 50)));
    assert_eq!(placed.size, (50, 50), "height is the binding axis");
    assert_eq!(placed.offset, (25, 0), "centered on the wide axis");
    assert_eq!(
        placed.scale,
        (f(1.25), f(1.25)),
        "one factor, so nothing skews"
    );
}

#[test]
fn stretching_fills_the_canvas_with_two_factors() {
    let placed = FitMode::Stretch.placement((40, 40), (100, 50), measure((40, 40), (100, 50)));
    assert_eq!(placed.size, (100, 50));
    assert_eq!(placed.offset, (0, 0));
    assert_eq!(placed.scale, (f(2.5), f(1.25)));
}

#[test]
fn padding_is_transparent() {
    let solid = solid(4, 4, [1, 2, 3, 255]);
    let padded = refit(&solid, (12, 4), FitMode::Pad, measure((4, 4), (12, 4)));
    assert_eq!((padded.width, padded.height), (12, 4));
    assert_eq!(
        padded.pixel_or_clear(0, 0)[3],
        0,
        "left margin is transparent"
    );
    assert_eq!(
        padded.pixel_or_clear(11, 3)[3],
        0,
        "right margin is transparent"
    );
    assert_eq!(padded.pixel_or_clear(6, 2), [1, 2, 3, 255]);
}

#[test]
fn a_matching_file_is_spliced_without_redrawing_anything() {
    let document = doc((32, 24), 3);
    let mut seen = Vec::new();
    let splice = splice(&document, 3, vec![frame(32, 24)], FitMode::Pad, &mut seen);
    assert!(splice.existing.is_empty(), "the canvas did not change");
    assert_eq!(
        seen.len(),
        0,
        "nothing was resampled, so nothing was reported"
    );
}

#[test]
fn a_non_growing_mode_only_redraws_what_is_arriving() {
    let document = doc((32, 24), 3);
    let splice = splice(
        &document,
        3,
        vec![frame(64, 64)],
        FitMode::Stretch,
        &mut Vec::new(),
    );
    assert!(
        splice.existing.is_empty(),
        "the document's frames are untouched"
    );
    let pixels = &splice.incoming[0].pixels;
    assert_eq!((pixels.width, pixels.height), (32, 24));
    assert_eq!(
        splice.overlays.scale,
        (f(1.0), f(1.0)),
        "the canvas did not move"
    );
}

#[test]
fn a_growing_mode_redraws_the_whole_document_onto_the_new_canvas() {
    let document = doc((32, 24), 3);
    let mut seen = Vec::new();
    let splice = splice(
        &document,
        3,
        vec![frame(64, 64)],
        FitMode::GrowPad,
        &mut seen,
    );
    assert_eq!(splice.existing.len(), 3);
    for (_, frame) in &splice.existing {
        assert_eq!((frame.pixels.width, frame.pixels.height), (64, 64));
    }
    let pixels = &splice.incoming[0].pixels;
    assert_eq!((pixels.width, pixels.height), (64, 64));
    assert_eq!(
        seen,
        vec![(1, 3), (2, 3), (3, 3)],
        "progress counts only the frames that needed redrawing"
    );
}

#[test]
fn overlays_follow_the_frames_onto_the_grown_canvas() {
    let mut document = doc((40, 40), 2);
    add_caption(&mut document, at(0.0, 0.0, 20.0, 20.0), 0..2);
    let splice = splice(
        &document,
        2,
        vec![frame(100, 50)],
        FitMode::GrowPad,
        &mut Vec::new(),
    );
    let placed = splice.overlays;
    let landed = boxes(&document, placed);
    splice.apply(&mut document, &landed);
    assert_eq!(document.size(), (100, 50), "the canvas grew to the image");
    assert_eq!(placed.scale, (f(1.25), f(1.25)));
    let box_ = document.overlays[0].transform;
    assert_eq!(
        (num(box_.x), num(box_.y)),
        (25.0, 0.0),
        "shifted by the margin"
    );
    assert_eq!(
        (num(box_.w), num(box_.h)),
        (25.0, 25.0),
        "scaled with the frames"
    );
}

#[test]
fn an_appended_run_does_not_inherit_the_overlay_it_lands_after() {
    let mut document = doc((32, 24), 2);
    add_caption(&mut document, at(0.0, 0.0, 8.0, 8.0), 0..2);
    let splice = splice(
        &document,
        2,
        vec![frame(32, 24), frame(32, 24)],
        FitMode::Stretch,
        &mut Vec::new(),
    );
    let landed = boxes(&document, splice.overlays);
    assert_eq!(
        splice.apply(&mut document, &landed),
        2,
        "two frames were added"
    );
    assert_eq!(document.frames.len(), 4);
    assert_eq!(document.overlays[0].range, 0..2, "the caption stayed put");
}

#[test]
fn a_splice_leaves_one_canvas_whatever_the_mode() {
    for mode in FitMode::all() {
        let mut document = doc((16, 12), 2);
        let splice = splice(&document, 1, vec![frame(6, 9)], mode, &mut Vec::new());
        let landed = boxes(&document, splice.overlays);
        splice.apply(&mut document, &landed);
        let canvas = if mode.grows_canvas() { (6, 9) } else { (16, 12) };
        assert_eq!(document.size(), canvas, "{mode:?}");
        assert!(
            document
                .frames
                .iter()
                .all(|frame| (frame.pixels.width, frame.pixels.height) == canvas),
            "{mode:?}"
        );
    }
    assert!(FitMode::Pad.keeps_aspect() && !FitMode::Stretch.keeps_aspect());
}
