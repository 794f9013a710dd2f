//! Frame-list operations and the overlays that follow them.

use std::ops::Range;

use gifkino::canvas::{OverlayBox, Rect};
use gifkino::document::Document;
use gifkino::import::delays_for_fps;
use gifkino::model::{
    Frame, FrameKeys, OverlayKind, Shape, ShapeOverlay, Transform, THUMB_W,
};
use gifkino::raster::Raster;
use gifkino::single::Single;

fn f(x: f32) -> Single {
    Single::from_bits(x.to_bits())
}

fn num(x: Single) -> f32 {
    f32::from_bits(x.to_bits())
}

fn at(x: f32, y: f32, w: f32, h: f32) -> Transform {
    Transform::at(f(x), f(y), f(w), f(h))
}

fn solid(w: u32, h: u32, color: [u8; 4]) -> Raster {
    let data = (0..w * h).flat_map(|_| color).collect();
    Raster::from_raw(w, h, data).expect("exactly enough bytes")
}

/// A clear picture with one pixel of it set.
fn dotted(w: u32, h: u32, x: u32, y: u32, color: [u8; 4]) -> Raster {
    let mut data = vec![0u8; (w * h * 4) as usize];
    let at = ((y * w + x) * 4) as usize;
    data[at..at + 4].copy_from_slice(&color);
    Raster::from_raw(w, h, data).expect("exactly enough bytes")
}

fn doc(n: usize, delay: u16) -> Document {
    let mut keys = FrameKeys::new();
    Document::from_frames(
        (0..n)
            .map(|_| Frame::new(Raster::blank(2, 2), delay, &mut keys))
            .collect(),
    )
}

/// Frames the test can tell apart: frame `i` paints its own index.
fn doc_distinct(n: usize) -> Document {
    let mut keys = FrameKeys::new();
    Document::from_frames(
        (0..n)
            .map(|i| Frame::new(solid(2, 2, [i as u8, 0, 0, 255]), 10, &mut keys))
            .collect(),
    )
}

fn order(d: &Document) -> Vec<u8> {
    d.frames
        .iter()
        .map(|frame| frame.pixels.pixel_or_clear(0, 0)[0])
        .collect()
}

fn shape() -> OverlayKind {
    OverlayKind::Shape(ShapeOverlay {
        shape: Shape::Rect,
        fill: Some([1, 2, 3, 255]),
        stroke: None,
    })
}

/// What scaling by two factors makes of the overlays' boxes.
fn boxes(d: &Document, fx: f32, fy: f32) -> Vec<OverlayBox> {
    d.overlays
        .iter()
        .map(|o| OverlayBox {
            x: f(num(o.transform.x) * fx),
            y: f(num(o.transform.y) * fy),
            w: f(num(o.transform.w) * fx),
            h: f(num(o.transform.h) * fy),
            size_px: match &o.kind {
                OverlayKind::Text(t) => f(num(t.size_px) * fy),
                _ => f(0.0),
            },
        })
        .collect()
}

/// Where a crop's corner puts the overlays' own corners.
fn origins(d: &Document, x: f32, y: f32) -> Vec<(Single, Single)> {
    d.overlays
        .iter()
        .map(|o| (f(num(o.transform.x) - x), f(num(o.transform.y) - y)))
        .collect()
}

fn rect(x: u32, y: u32, w: u32, h: u32) -> Rect {
    Rect { x, y, w, h }
}

#[test]
fn drop_every_nth_preserves_duration() {
    let mut d = doc(10, 5);
    let before = d.duration_cs();
    d.drop_every_nth(2);
    assert_eq!(d.frames.len(), 5);
    assert_eq!(
        d.duration_cs(),
        before,
        "dropping frames must not speed it up"
    );
    assert!(d.frames.iter().all(|f| f.delay_cs == 10));
}

#[test]
fn drop_every_nth_keeps_first_frame() {
    let mut d = doc(9, 4);
    d.drop_every_nth(3);
    assert_eq!(d.frames.len(), 6);
    assert_eq!(d.duration_cs(), 36);
}

#[test]
fn delete_remaps_overlay_ranges() {
    let mut d = doc(10, 10);
    let spanning = d.add_overlay("a".to_string(), shape(), at(0., 0., 1., 1.), 2..8);
    let doomed = d.add_overlay("b".to_string(), shape(), at(0., 0., 1., 1.), 3..5);
    let later = d.add_overlay("c".to_string(), shape(), at(0., 0., 1., 1.), 8..10);

    d.delete_frames(3..5);

    assert_eq!(d.frames.len(), 8);
    assert_eq!(d.overlay(spanning).unwrap().range, 2..6);
    assert!(
        d.overlay(doomed).is_none(),
        "an overlay with no frames left is gone"
    );
    assert_eq!(d.overlay(later).unwrap().range, 6..8);
}

#[test]
fn replacing_pixels_refreshes_the_cached_thumbnail() {
    let mut keys = FrameKeys::new();
    let mut doc = Document::from_frames(vec![Frame::new(
        solid(80, 80, [255, 0, 0, 255]),
        9,
        &mut keys,
    )]);
    let before = doc.frames[0].clone();

    doc.replace_frame_pixels(0, solid(80, 20, [0, 0, 255, 128]), &mut keys);
    let after = &doc.frames[0];

    assert_eq!(after.delay_cs, 9, "the delay survives the swap");
    assert!(after.detached);
    assert!(!after.opaque, "the new pixels have alpha");
    assert_ne!(after.thumb.height, before.thumb.height, "thumbnail redrawn");
    assert_ne!(
        after.key, before.key,
        "a different image is a different frame"
    );
}

#[test]
fn frame_keys_track_identity_not_position() {
    let mut keys = FrameKeys::new();
    let mut doc = Document::from_frames(
        (0..3)
            .map(|i| Frame::new(solid(4, 4, [i, 0, 0, 255]), 5, &mut keys))
            .collect(),
    );
    let keys: Vec<u64> = doc.frames.iter().map(|f| f.key).collect();
    assert_eq!(keys.len(), 3);
    assert!(
        keys[0] != keys[1] && keys[1] != keys[2],
        "distinct frames, distinct keys"
    );

    doc.duplicate_frame(1);
    assert_eq!(
        doc.frames[1].key, doc.frames[2].key,
        "a copy is the same image"
    );

    doc.reverse_frames(0..4);
    let mut reversed: Vec<u64> = doc.frames.iter().map(|f| f.key).collect();
    reversed.sort_unstable();
    let mut expected = vec![keys[0], keys[1], keys[1], keys[2]];
    expected.sort_unstable();
    assert_eq!(
        reversed, expected,
        "reversing moves frames, it does not remake them"
    );
}

#[test]
fn deleting_a_gappy_selection_leaves_the_frames_between_alone() {
    let mut d = doc_distinct(5);
    let before = d.duration_cs();

    d.delete_frames_at(&vec![1, 3]);

    assert_eq!(order(&d), vec![0, 2, 4]);
    assert_eq!(d.duration_cs(), before, "removal must not speed the gif up");
}

#[test]
fn delete_preserves_duration() {
    let mut d = doc(4, 10);
    d.delete_frames(1..3);
    assert_eq!(d.duration_cs(), 40);
    assert_eq!(d.frames[0].delay_cs, 30);
}

#[test]
fn deleting_the_first_frame_rolls_delay_forward() {
    let mut d = doc(3, 10);
    d.delete_frames(0..1);
    assert_eq!(d.duration_cs(), 30);
    assert_eq!(d.frames[0].delay_cs, 20);
}

#[test]
fn set_delay_at_touches_only_the_named_frames_and_ignores_stale_indices() {
    let mut d = doc(5, 10);
    d.set_delay_at(&vec![3, 1, 1, 99], 40);
    assert_eq!(
        d.frames.iter().map(|f| f.delay_cs).collect::<Vec<_>>(),
        vec![10, 40, 10, 40, 10],
        "only frames 1 and 3 change; the duplicate and the out-of-range index are no-ops"
    );
}

#[test]
fn move_frames_to_of_one_frame_matches_move_frame() {
    let mut a = doc_distinct(5);
    a.move_frames_to(&vec![0], 3);
    let mut b = doc_distinct(5);
    b.move_frame(0, 3);
    assert_eq!(order(&a), vec![1, 2, 3, 0, 4]);
    assert_eq!(order(&a), order(&b), "a one-frame set is a plain move");
}

#[test]
fn move_frames_to_extracts_a_gappy_selection_as_one_run() {
    let mut d = doc_distinct(8);
    d.move_frames_to(&vec![2, 5, 7], 1);
    assert_eq!(
        order(&d),
        vec![0, 2, 5, 7, 1, 3, 4, 6],
        "the picked frames keep their order and land together; the rest close up"
    );
}

#[test]
fn move_frames_to_ignores_duplicates_and_stale_indices() {
    let mut a = doc_distinct(8);
    a.move_frames_to(&vec![7, 2, 5, 2], 1);
    let mut b = doc_distinct(8);
    b.move_frames_to(&vec![2, 5, 7], 1);
    assert_eq!(order(&a), order(&b));
}

#[test]
fn move_frames_to_already_in_place_is_a_no_op() {
    let mut d = doc_distinct(5);
    d.move_frames_to(&vec![2, 3, 4], 2);
    assert_eq!(order(&d), vec![0, 1, 2, 3, 4]);
}

#[test]
fn move_frames_to_shifts_overlays_like_a_plain_move() {
    let mut a = doc_distinct(5);
    a.add_overlay("o".to_string(), shape(), at(0., 0., 1., 1.), 2..5);
    a.move_frames_to(&vec![0], 4);
    let mut b = doc_distinct(5);
    b.add_overlay("o".to_string(), shape(), at(0., 0., 1., 1.), 2..5);
    b.move_frame(0, 4);
    let ranges = |d: &Document| {
        d.overlays
            .iter()
            .map(|o| o.range.clone())
            .collect::<Vec<_>>()
    };
    assert_eq!(ranges(&a), ranges(&b), "each hop is a plain move_frame");
}

#[test]
fn a_set_dragged_towards_the_end_lands_as_one_run() {
    let mut d = doc_distinct(6);
    d.move_frames_to(&vec![0, 1], 3);
    assert_eq!(order(&d), vec![2, 3, 4, 0, 1, 5]);
    let mut d = doc_distinct(6);
    d.move_frames_to(&vec![1, 4], 2);
    assert_eq!(order(&d), vec![0, 2, 1, 4, 3, 5]);
}

#[test]
fn duplicate_extends_covering_overlays() {
    let mut d = doc(4, 10);
    let covering = d.add_overlay("a".to_string(), shape(), at(0., 0., 1., 1.), 1..3);
    let after = d.add_overlay("b".to_string(), shape(), at(0., 0., 1., 1.), 3..4);
    d.duplicate_frame(1);
    assert_eq!(d.frames.len(), 5);
    assert_eq!(d.overlay(covering).unwrap().range, 1..4);
    assert_eq!(d.overlay(after).unwrap().range, 4..5);
}

#[test]
fn insert_frame_at_shifts_overlays_like_duplicate_does() {
    let mut keys = FrameKeys::new();
    let mut d = doc(4, 10);
    let covering = d.add_overlay("a".to_string(), shape(), at(0., 0., 1., 1.), 1..3);
    let after = d.add_overlay("b".to_string(), shape(), at(0., 0., 1., 1.), 3..4);
    d.insert_frame_at(1, Frame::new(Raster::blank(2, 2), 10, &mut keys));
    assert_eq!(d.frames.len(), 5);
    assert_eq!(d.overlay(covering).unwrap().range, 2..4);
    assert_eq!(d.overlay(after).unwrap().range, 4..5);
}

#[test]
fn insert_frames_at_keeps_the_run_in_order() {
    let mut d = doc_distinct(4);
    let covering = d.add_overlay("a".to_string(), shape(), at(0., 0., 1., 1.), 0..2);
    let pasted = vec![d.frames[3].clone(), d.frames[2].clone()];
    d.insert_frames_at(1, pasted);
    assert_eq!(order(&d), vec![0, 3, 2, 1, 2, 3], "clipboard order preserved");
    assert_eq!(d.overlay(covering).unwrap().range, 0..4);

    // Past the end the run goes on the end, still in its order.
    let mut d = doc_distinct(2);
    let pasted = vec![d.frames[1].clone(), d.frames[0].clone()];
    d.insert_frames_at(9, pasted);
    assert_eq!(order(&d), vec![0, 1, 1, 0]);
}

#[test]
fn restack_moves_one_overlay_next_to_a_named_neighbour() {
    let mut d = doc(4, 10);
    let bottom = d.add_overlay("bottom".to_string(), shape(), at(0., 0., 1., 1.), 0..4);
    let elsewhere = d.add_overlay("elsewhere".to_string(), shape(), at(0., 0., 1., 1.), 3..4);
    let top = d.add_overlay("top".to_string(), shape(), at(0., 0., 1., 1.), 0..4);
    let order = |d: &Document| d.overlays.iter().map(|o| o.id).collect::<Vec<_>>();

    d.restack_overlay(bottom, top, true);
    assert_eq!(
        order(&d),
        vec![elsewhere, top, bottom],
        "bottom lands directly above top, elsewhere stays put"
    );

    d.restack_overlay(bottom, top, false);
    assert_eq!(order(&d), vec![elsewhere, bottom, top], "and back down");

    d.restack_overlay(bottom, bottom, true);
    assert_eq!(order(&d), vec![elsewhere, bottom, top], "self is a no-op");
}

#[test]
fn move_frame_reorders_the_list_and_leaves_out_of_range_calls_a_no_op() {
    let mut d = doc_distinct(4);
    d.move_frame(3, 1);
    assert_eq!(order(&d), vec![0, 3, 1, 2], "frame 3 now sits at position 1");

    let before = d.clone();
    d.move_frame(9, 0);
    d.move_frame(0, 0);
    assert_eq!(d, before, "an out-of-range or no-op move changes nothing");
}

#[test]
fn move_frame_carries_a_single_frame_overlay_with_it() {
    let mut d = doc(6, 10);
    let id = d.add_overlay("a".to_string(), shape(), at(0., 0., 1., 1.), 2..3);
    d.move_frame(2, 5);
    assert_eq!(
        d.overlay(id).unwrap().range,
        5..6,
        "followed frame 2 to its new slot"
    );
}

#[test]
fn move_frame_splits_an_overlay_when_only_part_of_it_moves() {
    let mut d = doc(6, 10);
    let id = d.add_overlay("a".to_string(), shape(), at(0., 0., 1., 1.), 1..4);
    d.move_frame(2, 5);
    assert_eq!(
        d.overlay(id).unwrap().range,
        1..3,
        "frames 1 and 3 stayed behind and closed the gap"
    );
    assert_eq!(
        d.overlays.len(),
        2,
        "the moved frame split off its own copy"
    );
    let moved = d.overlays.iter().find(|o| o.id != id).unwrap();
    assert_eq!(
        moved.range,
        5..6,
        "the split copy sits on frame 2's new slot"
    );
}

#[test]
fn move_frames_to_reunites_a_dragged_groups_overlay() {
    let mut d = doc_distinct(8);
    let id = d.add_overlay("a".to_string(), shape(), at(0., 0., 1., 1.), 2..5);
    d.move_frames_to(&vec![2, 3, 4], 0);
    assert_eq!(order(&d), vec![2, 3, 4, 0, 1, 5, 6, 7]);
    assert_eq!(
        d.overlays.len(),
        1,
        "the split-then-merged pieces folded back into one"
    );
    assert_eq!(
        d.overlay(id).unwrap().range,
        0..3,
        "moved with the group, still the same id"
    );
}

#[test]
fn copying_an_overlay_lands_a_piece_on_every_picked_run() {
    let mut d = doc(10, 10);
    let id = d.add_overlay("a".to_string(), shape(), at(1., 2., 3., 4.), 2..4);
    d.overlay_mut(id).unwrap().opacity = f(0.5);

    // 2 and 3 are already covered; 4 touches the range, 6..8 and 9 do not.
    let landed = d.copy_overlay_to(id, &vec![2, 3, 4, 6, 7, 9]);
    assert_eq!(landed, 4, "the two covered frames are not copied onto");
    let mut ranges: Vec<Range<usize>> = d.overlays.iter().map(|o| o.range.clone()).collect();
    ranges.sort_by_key(|r| r.start);
    assert_eq!(
        ranges,
        vec![2..5, 6..8, 9..10],
        "frame 4 folded into the source, the rest are one piece per run"
    );
    assert_eq!(
        d.overlay(id).unwrap().range,
        2..5,
        "the source keeps its id, so a selection on it survives"
    );
    for o in &d.overlays {
        assert_eq!(o.transform, at(1., 2., 3., 4.));
        assert_eq!(o.opacity, f(0.5), "a copy paints like what it copied");
        assert_eq!(o.name, "a");
    }
}

#[test]
fn a_copied_overlay_keeps_the_source_z_position() {
    let mut d = doc(6, 10);
    let under = d.add_overlay("under".to_string(), shape(), at(0., 0., 1., 1.), 0..1);
    let over = d.add_overlay("over".to_string(), shape(), at(9., 9., 1., 1.), 0..6);
    d.copy_overlay_to(under, &vec![3, 4]);
    let order: Vec<&str> = d.overlays.iter().map(|o| o.name.as_str()).collect();
    assert_eq!(
        order,
        vec!["under", "under", "over"],
        "the copy sits directly above its source, still under {over:?}"
    );
}

#[test]
fn copying_an_overlay_onto_frames_it_covers_changes_nothing() {
    let mut d = doc(4, 10);
    let id = d.add_overlay("a".to_string(), shape(), at(0., 0., 1., 1.), 0..4);
    let before = d.clone();
    assert_eq!(d.copy_overlay_to(id, &vec![0, 1, 2, 3]), 0);
    assert_eq!(d.copy_overlay_to(id, &vec![7, 9]), 0, "past the last frame");
    assert_eq!(d, before);
}

fn moving_doc() -> Document {
    // frames 0..3 identical, then a change, then identical again
    let mut keys = FrameKeys::new();
    let still = || solid(40, 40, [10, 10, 10, 255]);
    let moved = || solid(40, 40, [240, 10, 10, 255]);
    Document::from_frames(vec![
        Frame::new(still(), 5, &mut keys),
        Frame::new(still(), 5, &mut keys),
        Frame::new(still(), 5, &mut keys),
        Frame::new(moved(), 5, &mut keys),
        Frame::new(moved(), 5, &mut keys),
    ])
}

#[test]
fn smart_removal_drops_the_still_frames_and_keeps_the_moving_one() {
    let mut d = moving_doc();
    let before = d.duration_cs();
    let scores = d.motion_scores();
    assert!(
        scores[3] > scores[2],
        "the change is the busiest frame: {scores:?}"
    );
    assert_eq!(scores[1], 0, "a repeat has no motion");
    assert_eq!(scores[3], 7666, "230 in one channel of three, in hundredths");

    d.drop_low_motion(2);
    assert_eq!(d.frames.len(), 3);
    assert_eq!(d.duration_cs(), before, "removal must not speed the gif up");
    // One of each still run survives, and so does the frame that changed.
    let reds = order(&d);
    assert!(reds.contains(&10) && reds.contains(&240), "{reds:?}");
}

#[test]
fn smart_removal_never_takes_the_first_frame_or_more_than_it_has() {
    let mut d = moving_doc();
    d.drop_low_motion(99);
    assert_eq!(d.frames.len(), 1, "something always survives");

    let mut single = doc(1, 5);
    single.drop_low_motion(1);
    assert_eq!(single.frames.len(), 1);
}

#[test]
fn crop_moves_every_frame_and_the_overlays_with_it() {
    let mut keys = FrameKeys::new();
    let mut d = Document::from_frames(
        (0..3)
            .map(|_| Frame::new(Raster::blank(100, 80), 5, &mut keys))
            .collect(),
    );
    let id = d.add_overlay("a".to_string(), shape(), at(30.0, 25.0, 10.0, 10.0), 0..3);

    let corners = origins(&d, 20.0, 15.0);
    d.crop(rect(20, 15, 50, 40), &corners, &mut keys);

    assert_eq!(d.size(), (50, 40));
    assert!(d
        .frames
        .iter()
        .all(|f| (f.pixels.width, f.pixels.height) == (50, 40)));
    let t = d.overlay(id).unwrap().transform;
    assert_eq!((t.x, t.y), (f(10.0), f(10.0)), "same pixel, new origin");
    assert_eq!(d.frames[0].thumb.width, THUMB_W, "thumbnail redrawn");
}

#[test]
fn crop_clamps_to_the_canvas_rather_than_panicking() {
    let mut keys = FrameKeys::new();
    let mut d = Document::from_frames(vec![Frame::new(Raster::blank(20, 20), 5, &mut keys)]);
    d.crop(rect(15, 15, 400, 400), &Vec::new(), &mut keys);
    assert_eq!(d.size(), (5, 5));

    let mut d = Document::from_frames(vec![Frame::new(Raster::blank(20, 20), 5, &mut keys)]);
    d.crop(rect(0, 0, 20, 20), &Vec::new(), &mut keys);
    assert_eq!(d.size(), (20, 20), "a no-op crop leaves the frames alone");
}

#[test]
fn crop_and_zoom_pad_frames_smaller_than_the_document_canvas() {
    let mut keys = FrameKeys::new();
    let mut cropped = Document::from_frames(vec![
        Frame::new(solid(20, 20, [1, 2, 3, 255]), 5, &mut keys),
        Frame::new(solid(8, 8, [4, 5, 6, 255]), 5, &mut keys),
    ]);
    let mut zoomed = cropped.clone();

    cropped.crop(rect(5, 5, 10, 10), &Vec::new(), &mut keys);
    assert!(cropped
        .frames
        .iter()
        .all(|frame| (frame.pixels.width, frame.pixels.height) == (10, 10)));
    assert_eq!(cropped.frames[1].pixels.pixel_or_clear(9, 9)[3], 0);

    zoomed.zoom_frames(&vec![1], rect(5, 5, 10, 10), &mut keys);
    assert_eq!(
        (zoomed.frames[1].pixels.width, zoomed.frames[1].pixels.height),
        (20, 20)
    );
    assert_eq!(zoomed.frames[1].pixels.pixel_or_clear(19, 19)[3], 0);
}

#[test]
fn cropped_frames_match_crop_and_carry_delay_and_detached() {
    let mut keys = FrameKeys::new();
    let mut d = Document::from_frames(
        (0..3)
            .map(|i| {
                let img = dotted(40, 40, 4, 4, [i as u8 * 60, 0, 0, 255]);
                let mut frame = Frame::new(img, 3 + i as u16, &mut keys);
                frame.detached = i == 1;
                frame
            })
            .collect(),
    );
    let mut other = d.clone();

    d.crop(rect(5, 5, 20, 20), &Vec::new(), &mut keys);

    let mut seen = Vec::new();
    let produced = other.cropped_frames(
        rect(5, 5, 20, 20),
        |done, total| seen.push((done, total)),
        &mut keys,
    );
    for (i, frame) in produced {
        other.frames[i] = frame;
    }

    assert_eq!(other, d, "the producer must match what crop() does");
    assert_eq!(
        d.frames.iter().map(|f| f.delay_cs).collect::<Vec<_>>(),
        vec![3, 4, 5],
        "delays survive the crop"
    );
    assert!(d.frames[1].detached, "detached survives the crop");
    assert_eq!(
        seen,
        vec![(1, 3), (2, 3), (3, 3)],
        "progress is reported once per frame"
    );

    let empty = Document::default();
    assert!(empty
        .cropped_frames(rect(0, 0, 10, 10), |_, _| {}, &mut keys)
        .is_empty());
}

#[test]
fn resize_scales_the_overlays_too() {
    let mut keys = FrameKeys::new();
    let mut d = Document::from_frames(vec![Frame::new(Raster::blank(100, 100), 5, &mut keys)]);
    let id = d.add_overlay("a".to_string(), shape(), at(10.0, 20.0, 40.0, 40.0), 0..1);
    let scaled = boxes(&d, 0.5, 0.5);
    d.resize(50, 50, &scaled, &mut keys);
    assert_eq!(d.size(), (50, 50));
    let t = d.overlay(id).unwrap().transform;
    assert_eq!(
        (num(t.x), num(t.y), num(t.w), num(t.h)),
        (5.0, 10.0, 20.0, 20.0)
    );
}

#[test]
fn zoom_keeps_the_canvas_size_and_only_touches_its_range() {
    let mut keys = FrameKeys::new();
    let mut d = Document::from_frames(
        (0..4)
            .map(|i| {
                Frame::new(
                    dotted(40, 40, 4, 4, [i as u8 * 60, 0, 0, 255]),
                    5,
                    &mut keys,
                )
            })
            .collect(),
    );
    let untouched = d.frames[3].key;

    d.zoom_frames(&vec![1, 2], rect(0, 0, 20, 20), &mut keys);

    assert!(
        d.frames
            .iter()
            .all(|f| (f.pixels.width, f.pixels.height) == (40, 40)),
        "canvas is uniform"
    );
    assert_eq!(
        d.frames[3].key, untouched,
        "outside the range nothing is rebuilt"
    );
    assert_ne!(d.frames[1].key, untouched);
}

/// When each of `count` frames at `fps` should end, in hundredths of a second.
fn marks(fps: f64, count: usize) -> Vec<u32> {
    (0..count)
        .map(|i| ((i + 1) as f64 * 100.0 / fps).round() as u32)
        .collect()
}

#[test]
fn fps_delays_do_not_drift() {
    let d = delays_for_fps(&marks(30.0, 30));
    let total: u32 = d.iter().map(|x| *x as u32).sum();
    assert_eq!(total, 100, "one second of 30fps must stay one second");
    assert!(d.iter().all(|x| (3..=4).contains(x)));

    assert!(delays_for_fps(&marks(25.0, 25)).iter().all(|x| *x == 4));
    assert!(
        delays_for_fps(&marks(200.0, 10)).iter().all(|x| *x == 1),
        "delays never hit zero"
    );
}

#[test]
fn resized_frames_match_resize_and_carry_delay_and_detached() {
    let mut keys = FrameKeys::new();
    let mut d = Document::from_frames(
        (0..3)
            .map(|i| {
                let img = dotted(40, 40, 4, 4, [i as u8 * 60, 0, 0, 255]);
                let mut frame = Frame::new(img, 3 + i as u16, &mut keys);
                frame.detached = i == 1;
                frame
            })
            .collect(),
    );
    let id = d.add_overlay("a".to_string(), shape(), at(10.0, 20.0, 40.0, 40.0), 0..3);
    let mut other = d.clone();

    let scaled = boxes(&d, 0.5, 0.5);
    d.resize(20, 20, &scaled, &mut keys);

    let mut seen = Vec::new();
    let produced = other.resized_frames(20, 20, |done, total| seen.push((done, total)), &mut keys);
    for (i, frame) in produced {
        other.frames[i] = frame;
    }
    let scaled = boxes(&other, 0.5, 0.5);
    other.scale_overlays(&scaled);

    assert_eq!(other, d, "the producer must match what resize() does");
    assert_eq!(
        d.frames.iter().map(|f| f.delay_cs).collect::<Vec<_>>(),
        vec![3, 4, 5],
        "delays survive the resample"
    );
    assert!(d.frames[1].detached, "detached survives the resample");
    let t = d.overlay(id).unwrap().transform;
    assert_eq!(
        (num(t.x), num(t.y), num(t.w), num(t.h)),
        (5.0, 10.0, 20.0, 20.0)
    );
    assert_eq!(
        seen,
        vec![(1, 3), (2, 3), (3, 3)],
        "progress is reported once per frame"
    );
}

#[test]
fn resized_frames_clamp_zero_dimensions_like_resize() {
    let mut keys = FrameKeys::new();
    let mut resized = doc(1, 5);
    let mut produced = resized.clone();

    resized.resize(0, 0, &Vec::new(), &mut keys);
    for (i, frame) in produced.resized_frames(0, 0, |_, _| {}, &mut keys) {
        produced.frames[i] = frame;
    }

    assert_eq!(produced, resized);
    assert_eq!(produced.size(), (1, 1));
}

#[test]
fn zoomed_frames_match_zoom_frames_and_skip_out_of_range() {
    let mut keys = FrameKeys::new();
    let mut d = Document::from_frames(
        (0..4)
            .map(|i| {
                let img = dotted(40, 40, 4, 4, [i as u8 * 60, 0, 0, 255]);
                let mut frame = Frame::new(img, 3 + i as u16, &mut keys);
                frame.detached = i == 2;
                frame
            })
            .collect(),
    );
    let mut other = d.clone();

    d.zoom_frames(&vec![1, 2], rect(0, 0, 20, 20), &mut keys);

    let mut seen = Vec::new();
    // Index 9 is past the end: it must not appear as a pair.
    let produced = other.zoomed_frames(
        &vec![1, 9, 2],
        rect(0, 0, 20, 20),
        |done, total| seen.push((done, total)),
        &mut keys,
    );
    for (i, frame) in produced {
        other.frames[i] = frame;
    }

    assert_eq!(other, d, "the producer must match what zoom_frames() does");
    assert_eq!(
        seen,
        vec![(1, 2), (2, 2)],
        "progress counts only the frames actually produced"
    );
    assert_eq!(
        d.frames.iter().map(|f| f.delay_cs).collect::<Vec<_>>(),
        vec![3, 4, 5, 6],
        "delays survive the refill"
    );
    assert!(d.frames[2].detached, "detached survives the refill");
    // Keys are per-build identity, so independently rebuilt frames never
    // share one — but frames outside the zoom must keep theirs.
    assert_eq!(d.frames[0].key, other.frames[0].key);
    assert_eq!(d.frames[3].key, other.frames[3].key);

    // An empty document makes an empty answer, not a panic.
    let empty = Document::default();
    let produced = empty.zoomed_frames(&vec![0], rect(0, 0, 10, 10), |_, _| {}, &mut keys);
    assert!(produced.is_empty());
}

#[test]
fn shrink_keeps_canvas_size_and_blanks_outside_the_rect() {
    let mut keys = FrameKeys::new();
    let mut d = Document::from_frames(
        (0..3)
            .map(|_| Frame::new(solid(20, 20, [9, 9, 9, 255]), 5, &mut keys))
            .collect(),
    );
    let untouched = d.frames[2].key;

    d.shrink_frames(&vec![0, 1], rect(4, 4, 8, 8), &mut keys);

    assert!(
        d.frames
            .iter()
            .all(|f| (f.pixels.width, f.pixels.height) == (20, 20)),
        "canvas is uniform"
    );
    assert_eq!(d.frames[0].pixels.pixel_or_clear(4, 4), [9, 9, 9, 255]);
    assert_eq!(
        d.frames[0].pixels.pixel_or_clear(0, 0),
        [0, 0, 0, 0],
        "outside the kept rect is transparent"
    );
    assert_eq!(
        d.frames[2].key, untouched,
        "outside the scope nothing rebuilds"
    );
}

#[test]
fn shrunk_frame_list_matches_shrink_frames_and_skips_out_of_range() {
    let mut keys = FrameKeys::new();
    let mut d = Document::from_frames(
        (0..3)
            .map(|i| {
                let mut frame = Frame::new(solid(20, 20, [i, i, i, 255]), 5, &mut keys);
                frame.detached = i == 1;
                frame
            })
            .collect(),
    );
    let mut other = d.clone();

    d.shrink_frames(&vec![0, 1], rect(2, 2, 10, 10), &mut keys);

    let mut seen = Vec::new();
    let produced = other.shrunk_frame_list(
        &vec![0, 9, 1],
        rect(2, 2, 10, 10),
        |done, total| seen.push((done, total)),
        &mut keys,
    );
    for (i, frame) in produced {
        other.frames[i] = frame;
    }

    assert_eq!(
        other, d,
        "the producer must match what shrink_frames() does"
    );
    assert_eq!(seen, vec![(1, 2), (2, 2)]);
    assert!(d.frames[1].detached, "detached survives the shrink");

    let empty = Document::default();
    assert!(empty
        .shrunk_frame_list(&vec![0], rect(0, 0, 10, 10), |_, _| {}, &mut keys)
        .is_empty());
}

#[test]
fn a_full_delay_saturates_rather_than_wrapping() {
    let mut d = doc(2, 60000);
    d.delete_frames(1..2);
    assert_eq!(d.frames[0].delay_cs, u16::MAX);
}

#[test]
fn scaled_delays_stay_storable() {
    let mut d = doc(3, 10);
    d.scale_delays(&vec![0, 20, 70000]);
    assert_eq!(
        d.frames.iter().map(|f| f.delay_cs).collect::<Vec<_>>(),
        vec![1, 20, 65535]
    );
}

#[test]
fn overlays_go_on_each_run_of_a_gappy_scope() {
    let mut d = doc(8, 10);
    let ids = d.add_overlay_over("a".to_string(), shape(), at(0., 0., 1., 1.), &vec![0, 1, 4, 6, 7]);
    assert_eq!(ids.len(), 3);
    let ranges: Vec<Range<usize>> = d.overlays.iter().map(|o| o.range.clone()).collect();
    assert_eq!(ranges, vec![0..2, 4..5, 6..8]);
}

#[test]
fn reversing_a_range_twice_is_nothing() {
    let mut d = doc_distinct(5);
    d.reverse_frames(1..4);
    assert_eq!(order(&d), vec![0, 3, 2, 1, 4]);
    d.reverse_frames(1..4);
    assert_eq!(order(&d), vec![0, 1, 2, 3, 4]);
    d.reverse_frames(3..9);
    assert_eq!(order(&d), vec![0, 1, 2, 3, 4], "past the end changes nothing");
}

#[test]
fn foreign_frames_part_the_overlays_they_land_between() {
    let mut d = doc_distinct(4);
    let before = d.add_overlay("a".to_string(), shape(), at(0., 0., 1., 1.), 0..2);
    let across = d.add_overlay("b".to_string(), shape(), at(0., 0., 1., 1.), 1..4);
    let after = d.add_overlay("c".to_string(), shape(), at(0., 0., 1., 1.), 2..3);
    let run = vec![d.frames[0].clone()];
    d.insert_foreign_frames_at(2, run);
    assert_eq!(d.overlay(before).unwrap().range, 0..2);
    assert_eq!(d.overlay(across).unwrap().range, 1..5);
    assert_eq!(d.overlay(after).unwrap().range, 3..4);
}

#[test]
fn a_frame_moved_under_its_own_overlay_stays_under_it() {
    let mut d = doc_distinct(6);
    let id = d.add_overlay("a".to_string(), shape(), at(0., 0., 1., 1.), 0..6);
    d.move_frame(1, 4);
    assert_eq!(order(&d), vec![0, 2, 3, 4, 1, 5]);
    assert_eq!(d.overlays.len(), 1, "no copy on top of itself");
    assert_eq!(d.overlay(id).unwrap().range, 0..6);
}

#[test]
fn an_overlay_is_dragged_as_one_beside_others() {
    let build = || {
        let mut d = doc_distinct(8);
        let low = d.add_overlay("low".to_string(), shape(), at(0., 0., 1., 1.), 0..8);
        let id = d.add_overlay("a".to_string(), shape(), at(0., 0., 1., 1.), 2..5);
        let high = d.add_overlay("high".to_string(), shape(), at(0., 0., 1., 1.), 3..7);
        (d, low, id, high)
    };
    let named = |d: &Document| {
        d.overlays
            .iter()
            .filter(|o| o.name == "a")
            .map(|o| (o.id, o.range.clone()))
            .collect::<Vec<_>>()
    };
    for to in [0, 1, 2, 3, 5] {
        let (mut d, low, id, _) = build();
        d.move_frames_to(&vec![2, 3, 4], to);
        assert_eq!(named(&d), vec![(id, to..to + 3)], "all of it, to {to}");
        assert_eq!(d.overlay(low).unwrap().range, 0..8, "to {to}");
    }
    let (mut d, _, id, high) = build();
    d.move_frames_to(&vec![2, 4], 6);
    let those = named(&d);
    assert_eq!(those.len(), 2, "one stays, one lands");
    assert_eq!(those[0], (id, 2..3));
    assert_eq!(those[1].1, 6..8);
    assert!(those[1].0 .0 > high.0, "under a new id");
    let (mut d, _, id, _) = build();
    d.move_frames_to(&vec![2, 3], 3);
    assert_eq!(named(&d), vec![(id, 2..5)], "inside it");
}

#[test]
fn a_set_moved_under_its_own_overlay_stays_under_it() {
    let mut d = doc_distinct(6);
    let id = d.add_overlay("a".to_string(), shape(), at(0., 0., 1., 1.), 0..6);
    d.move_frames_to(&vec![3, 4], 1);
    assert_eq!(order(&d), vec![0, 3, 4, 1, 2, 5]);
    assert_eq!(d.overlays.len(), 1, "no copy on top of itself");
    assert_eq!(d.overlay(id).unwrap().range, 0..6);
}

#[test]
fn smart_removal_takes_exactly_as_many_as_it_is_asked_for() {
    for (count, left) in [(0, 5), (1, 4), (3, 2), (4, 1), (5, 1)] {
        let mut d = moving_doc();
        let before = d.duration_cs();
        d.drop_low_motion(count);
        assert_eq!(d.frames.len(), left, "{count}");
        assert_eq!(d.duration_cs(), before);
    }
    // Of equal scores the later goes first, so the frame that moved is the
    // last to go.
    let mut d = moving_doc();
    d.drop_low_motion(3);
    assert_eq!(order(&d), vec![10, 240]);
}

#[test]
fn a_duration_beyond_the_counter_is_told_apart() {
    let mut keys = FrameKeys::new();
    // A row of pixels has a thumbnail of one row, so many of them are small.
    let mut d = Document::from_frames(
        (0..65537)
            .map(|_| Frame::new(Raster::blank(72, 1), 65535, &mut keys))
            .collect(),
    );
    assert!(d.has_duration());
    assert_eq!(d.duration_cs(), u32::MAX);
    d.frames.push(Frame::new(Raster::blank(72, 1), 1, &mut keys));
    assert!(!d.has_duration());
}
