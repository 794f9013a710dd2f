//! Frames, overlays, scopes and the edits that split an overlay.

use std::ops::Range;

use gifkino::document::Document;
use gifkino::model::{
    thumb_rows, Frame, FrameKeys, OverlayKind, Shape, ShapeOverlay, TextAlign, TextOverlay,
    Transform, THUMB_W,
};
use gifkino::raster::Raster;
use gifkino::scope::Scope;
use gifkino::single::Single;

fn f(x: f32) -> Single {
    Single::from_bits(x.to_bits())
}

fn at(x: f32, y: f32, w: f32, h: f32) -> Transform {
    Transform::at(f(x), f(y), f(w), f(h))
}

fn solid(w: u32, h: u32, color: [u8; 4]) -> Raster {
    let data = (0..w * h).flat_map(|_| color).collect();
    Raster::from_raw(w, h, data).expect("exactly enough bytes")
}

fn blank(w: u32, h: u32, n: usize) -> Document {
    let mut keys = FrameKeys::new();
    Document::from_frames(
        (0..n)
            .map(|_| Frame::new(Raster::blank(w, h), 10, &mut keys))
            .collect(),
    )
}

fn shape() -> OverlayKind {
    OverlayKind::Shape(ShapeOverlay {
        shape: Shape::Rect,
        fill: Some([255, 0, 0, 255]),
        stroke: None,
    })
}

fn shapes(doc: &Document) -> Vec<(&str, Range<usize>, Transform)> {
    doc.overlays
        .iter()
        .map(|o| (o.name.as_str(), o.range.clone(), o.transform))
        .collect()
}

#[test]
fn a_frame_caches_its_thumbnail_and_its_opacity() {
    let mut keys = FrameKeys::new();
    let opaque = Frame::new(solid(1920, 1080, [9, 9, 9, 255]), 4, &mut keys);
    assert_eq!(opaque.thumb.width, THUMB_W);
    let want = THUMB_W as f32 * 1080.0 / 1920.0;
    assert!(
        (opaque.thumb.height as f32 - want).abs() <= 0.5,
        "aspect preserved: {} vs {want}",
        opaque.thumb.height
    );
    assert!(opaque.opaque);

    let holed = Frame::new(solid(64, 64, [9, 9, 9, 200]), 4, &mut keys);
    assert!(!holed.opaque);
}

#[test]
fn has_alpha_reads_the_per_frame_flag() {
    let mut keys = FrameKeys::new();
    let mut doc = blank(8, 8, 3);
    assert!(doc.has_alpha(), "a blank picture is transparent");

    doc.frames = (0..3)
        .map(|_| Frame::new(solid(8, 8, [1, 2, 3, 255]), 5, &mut keys))
        .collect();
    assert!(!doc.has_alpha());

    doc.frames[1] = Frame::new(solid(8, 8, [1, 2, 3, 254]), 5, &mut keys);
    assert!(doc.has_alpha(), "one nearly-opaque pixel still counts");
}

#[test]
fn frames_with_the_same_pixels_are_equal_despite_distinct_keys() {
    let mut keys = FrameKeys::new();
    let a = Frame::new(solid(4, 4, [7, 7, 7, 255]), 5, &mut keys);
    let b = Frame::new(solid(4, 4, [7, 7, 7, 255]), 5, &mut keys);
    assert_ne!(a.key, b.key, "separately built frames are distinguishable");
    assert_eq!(a, b);
    assert_eq!(a.clone().key, a.key, "a clone is the same frame");
    let later = Frame::new(solid(4, 4, [7, 7, 7, 255]), 6, &mut keys);
    assert_ne!(a, later, "the delay counts");
}

#[test]
fn scope_resolves_and_clamps() {
    let doc = blank(4, 4, 10);
    let n = doc.frames.len();
    assert_eq!(Scope::ThisFrame.resolve(3, n), vec![3]);
    assert_eq!(Scope::AllFrames.resolve(3, n), (0..10).collect::<Vec<_>>());
    assert_eq!(Scope::ThisFrame.resolve(99, n), Vec::<usize>::new());
}

#[test]
fn a_gappy_selection_keeps_its_gaps_but_spans_them_for_an_overlay() {
    let n = blank(4, 4, 10).frames.len();
    let picked = Scope::Frames(vec![7, 2, 2, 40]);
    assert_eq!(
        picked.resolve(0, n),
        vec![2, 7],
        "sorted, deduplicated, clamped"
    );
    assert_eq!(picked.span(0, n), 2..8);
    assert_eq!(Scope::Frames(Vec::new()).span(0, n), 0..0);
}

#[test]
fn overlay_range_gates_frames() {
    let mut doc = blank(4, 4, 10);
    doc.add_overlay(
        "caption".to_string(),
        OverlayKind::Text(TextOverlay::default()),
        at(0.0, 0.0, 10.0, 10.0),
        2..5,
    );
    assert_eq!(doc.overlays_on(1).len(), 0);
    assert_eq!(doc.overlays_on(2).len(), 1);
    assert_eq!(doc.overlays_on(4).len(), 1);
    assert_eq!(doc.overlays_on(5).len(), 0);
}

#[test]
fn z_order_is_list_order() {
    let mut doc = blank(4, 4, 2);
    let a = doc.add_overlay("a".to_string(), shape(), at(0.0, 0.0, 1.0, 1.0), 0..2);
    let b = doc.add_overlay("b".to_string(), shape(), at(0.0, 0.0, 1.0, 1.0), 0..2);
    doc.move_overlay_z(a, true);
    assert_eq!(
        doc.overlays.iter().map(|o| o.id).collect::<Vec<_>>(),
        vec![b, a]
    );
    doc.move_overlay_z(b, false); // already at the bottom, no-op
    assert_eq!(
        doc.overlays.iter().map(|o| o.id).collect::<Vec<_>>(),
        vec![b, a]
    );
}

#[test]
fn editing_part_of_a_range_splits_the_overlay() {
    let mut doc = blank(4, 4, 10);
    doc.add_overlay("under".to_string(), shape(), at(0.0, 0.0, 1.0, 1.0), 0..10);
    let id = doc.add_overlay("a".to_string(), shape(), at(1.0, 1.0, 2.0, 2.0), 0..10);
    doc.add_overlay("over".to_string(), shape(), at(0.0, 0.0, 1.0, 1.0), 0..10);
    let moved = at(9.0, 9.0, 2.0, 2.0);

    let (edited, touched) = doc.edit_on_frames(id, 4..6, |o| o.transform = moved);
    assert_eq!(touched, 2);
    assert_ne!(edited, id, "the edited frames are their own overlay now");

    assert_eq!(
        shapes(&doc),
        vec![
            ("under", 0..10, at(0.0, 0.0, 1.0, 1.0)),
            ("a", 0..4, at(1.0, 1.0, 2.0, 2.0)),
            ("a", 4..6, moved),
            ("a", 6..10, at(1.0, 1.0, 2.0, 2.0)),
            ("over", 0..10, at(0.0, 0.0, 1.0, 1.0)),
        ]
    );
    assert_eq!(doc.overlay(edited).map(|o| o.range.clone()), Some(4..6));
}

#[test]
fn editing_the_range_edges_leaves_two_pieces() {
    let moved = at(9.0, 9.0, 2.0, 2.0);
    let kept = at(1.0, 1.0, 2.0, 2.0);

    let mut doc = blank(4, 4, 10);
    let id = doc.add_overlay("a".to_string(), shape(), kept, 2..8);
    let (edited, touched) = doc.edit_on_frames(id, 0..3, |o| o.transform = moved);
    assert_ne!(edited, id);
    assert_eq!((touched, doc.overlays.len()), (1, 2));
    assert_eq!(shapes(&doc), vec![("a", 2..3, moved), ("a", 3..8, kept)]);

    let mut doc = blank(4, 4, 10);
    let id = doc.add_overlay("a".to_string(), shape(), kept, 2..8);
    let (edited, touched) = doc.edit_on_frames(id, 6..9, |o| o.transform = moved);
    assert_ne!(edited, id);
    assert_eq!((touched, doc.overlays.len()), (2, 2));
    assert_eq!(shapes(&doc), vec![("a", 2..6, kept), ("a", 6..8, moved)]);
}

#[test]
fn an_edit_over_the_whole_range_stays_in_place() {
    let mut doc = blank(4, 4, 10);
    let id = doc.add_overlay("a".to_string(), shape(), at(1.0, 1.0, 2.0, 2.0), 2..8);
    let moved = at(9.0, 9.0, 2.0, 2.0);

    let (edited, touched) = doc.edit_on_frames(id, 0..10, |o| o.transform = moved);
    assert_eq!((edited, touched), (id, 6));
    assert_eq!(doc.overlays.len(), 1);
    assert_eq!(doc.overlay(id).map(|o| o.transform), Some(moved));
}

#[test]
fn an_edit_outside_the_range_changes_nothing() {
    let mut doc = blank(4, 4, 10);
    let id = doc.add_overlay("a".to_string(), shape(), at(1.0, 1.0, 2.0, 2.0), 2..8);
    let before = doc.clone();

    let (edited, touched) = doc.edit_on_frames(id, 9..11, |o| {
        o.transform = at(9.0, 9.0, 2.0, 2.0)
    });
    assert_eq!((edited, touched), (id, 0));
    assert_eq!(doc, before, "no intersection, no edit");
}

#[test]
fn the_text_defaults_are_readable_over_anything() {
    let text = TextOverlay::default();
    assert_eq!(text.text, "");
    assert_eq!(text.font, "Sans Bold");
    assert_eq!(text.size_px.to_bits(), 32.0f32.to_bits());
    assert_eq!(text.color, [255, 255, 255, 255]);
    assert_eq!(text.outline.map(|(c, w)| (c, w.to_bits())), Some(([0, 0, 0, 255], 2.0f32.to_bits())));
    assert_eq!(text.align, TextAlign::Center);
    assert!(text.antialias);
}

#[test]
fn thumbnail_heights_are_worked_out_in_single_precision() {
    // Just below a half, which single precision does not tell from a half.
    assert_eq!(thumb_rows(1009, 230059), 16417);
    assert_eq!(thumb_rows(0, 0), 1);
    assert_eq!(thumb_rows(1, 1048575), 75497400);
    let mut seed: u64 = 1;
    let mut next = |below: u64| {
        seed = seed.wrapping_mul(6364136223846793005).wrapping_add(1442695040888963407);
        ((seed >> 31) % below) as u32
    };
    for round in 0..200_000u64 {
        let most = [9, 100, 5_000, 1_048_577, 0x1_0000_0000][(round % 5) as usize];
        let (w, h) = (next(most), next(0x1_0000_0000 >> (round % 19)));
        let want = (THUMB_W as f32 * h as f32 / w.max(1) as f32).round().max(1.0) as u64;
        assert_eq!(thumb_rows(w, h), want, "{w} by {h}");
    }
}

#[test]
fn thumbnails_round_to_the_nearest_line_and_keep_one() {
    let mut keys = FrameKeys::new();
    // 72 * 5 / 144 is two and a half: halves go up.
    assert_eq!(Frame::new(Raster::blank(144, 5), 1, &mut keys).thumb.height, 3);
    assert_eq!(Frame::new(Raster::blank(500, 1), 1, &mut keys).thumb.height, 1);
    assert_eq!(Frame::new(Raster::blank(36, 10), 1, &mut keys).thumb.height, 20);
    let frame = Frame::new(solid(144, 72, [10, 20, 30, 255]), 1, &mut keys);
    assert_eq!(frame.thumb.width, 72);
    assert_eq!(frame.thumb.pixel_or_clear(35, 17), [10, 20, 30, 255]);
}

#[test]
fn numbers_carried_by_their_bits_compare_as_numbers() {
    assert_eq!(f(0.0), f(-0.0), "the two zeros are one number");
    assert_ne!(f(f32::NAN), f(f32::NAN), "a NaN equals nothing");
    assert_eq!(f(1.5), f(1.5));
    assert_ne!(f(1.5), f(-1.5));
}

#[test]
fn documents_are_equal_when_their_frames_and_overlays_are() {
    let mut a = blank(4, 4, 2);
    let b = a.clone();
    assert_eq!(a, b);
    let id = a.add_overlay("a".to_string(), shape(), at(1.0, 1.0, 2.0, 2.0), 0..1);
    assert_ne!(a, b);
    a.remove_overlay(id);
    assert_ne!(a, b, "the id is spent");
    assert_eq!(a.duration_cs(), 20);
    assert_eq!(a.size(), (4, 4));
    assert_eq!(Document::default().size(), (0, 0));
}
