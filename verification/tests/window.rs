//! The window's state: what messages do to it, and what it shows.

use gifkino::actions::Modal;
use gifkino::app::{Aid, App, Busy, Drag, DragMode, Effect};
use gifkino::canvas::{OverlayBox, Rect};
use gifkino::chord::Mods;
use gifkino::cmd::{Cmd, ImportOutcome, WorkDone};
use gifkino::document::Document;
use gifkino::history::Editor;
use gifkino::i18n::Catalog;
use gifkino::keymap::Keymap;
use gifkino::model::{
    Frame, FrameKeys, OverlayId, OverlayKind, Shape, ShapeOverlay, TextAlign, TextOverlay,
    Transform,
};
use gifkino::msg::{FrameOp, Msg, OverlayProp, ScopeChoice, Tool, ZoomStep};
use gifkino::raster::Raster;
use gifkino::scope::Scope;
use gifkino::screen::{
    band_at, ceiling_first, corner_cursor, divider, hover, layer_list_heights, octant_of,
    strip_keys, Band, Divider, Hover,
};
use gifkino::selection::{
    crop_changes_canvas, move_target_for_set, overlay_edit_span, pack_rows, resize_fits_budget,
    run_between, selection_nudge_gap, toggle_frame,
};
use gifkino::single::Single;
use gifkino::work::{resize_frames_to, BusyKind, FrameWork};

const NONE: Mods = Mods {
    ctrl: false,
    shift: false,
    alt: false,
};

fn f(x: f32) -> Single {
    Single::from_bits(x.to_bits())
}

fn at(x: f32, y: f32, w: f32, h: f32) -> Transform {
    Transform::at(f(x), f(y), f(w), f(h))
}

fn solid(w: u32, h: u32, color: [u8; 4]) -> Raster {
    let data = (0..w * h).flat_map(|_| color).collect();
    Raster::from_raw(w, h, data).expect("exactly enough bytes")
}

fn doc(frames: usize) -> Document {
    let mut keys = FrameKeys::new();
    Document::from_frames(
        (0..frames)
            .map(|i| Frame::new(solid(8, 8, [i as u8, 0, 0, 255]), 5, &mut keys))
            .collect(),
    )
}

fn ids_at(d: &Document) -> Vec<u8> {
    d.frames
        .iter()
        .map(|f| f.pixels.pixel_or_clear(0, 0)[0])
        .collect()
}

fn ids(app: &App) -> Vec<u8> {
    ids_at(&app.editor.doc)
}

fn app_with(doc: Document, scope: ScopeChoice, selection: Vec<usize>, playhead: usize) -> App {
    let mut app = App::new(Keymap::default(), 4 << 30);
    app.editor = Editor::new(doc);
    app.scope = scope;
    app.selection = selection;
    app.playhead = playhead;
    app.keys.next = 1000;
    app
}

fn plain(frames: usize) -> App {
    app_with(doc(frames), ScopeChoice::ThisFrame, Vec::new(), 0)
}

fn aid() -> Aid {
    Aid {
        spot: at(1.0, 2.0, 3.0, 4.0),
        size_px: f(12.0),
        rect: None,
        inside: Vec::new(),
        grip: None,
        away: false,
        dragged: at(0.0, 0.0, 0.0, 0.0),
        crop: (f(0.0), f(0.0), f(0.0), f(0.0)),
        resized: false,
    }
}

fn send(app: &mut App, msg: Msg) -> Effect {
    assert!(app.has_room());
    app.update(msg, &aid())
}

fn shape() -> OverlayKind {
    OverlayKind::Shape(ShapeOverlay {
        shape: Shape::Rect,
        fill: Some([1, 2, 3, 255]),
        stroke: None,
    })
}

fn text(text: &str) -> OverlayKind {
    OverlayKind::Text(TextOverlay {
        text: text.into(),
        ..Default::default()
    })
}

#[test]
fn scope_driven_tools_touch_exactly_what_the_scope_names() {
    let cases: Vec<(App, Vec<usize>)> = vec![
        (
            app_with(doc(5), ScopeChoice::ThisFrame, Vec::new(), 3),
            vec![3],
        ),
        (
            app_with(doc(5), ScopeChoice::Range, vec![4, 1, 1], 0),
            vec![1, 4],
        ),
        (
            app_with(doc(5), ScopeChoice::AllFrames, Vec::new(), 0),
            (0..5).collect(),
        ),
    ];
    for (app, want) in &cases {
        assert_eq!(
            &app.scope_frames(),
            want,
            "scope_frames() must resolve to {want:?}"
        );

        let rect = Rect {
            x: 1,
            y: 1,
            w: 4,
            h: 4,
        };
        match app.shrink_work(Some(rect)) {
            Some(FrameWork::Shrink { frames, .. }) => {
                assert_eq!(&frames, want, "shrink must touch exactly the scoped frames")
            }
            other => panic!("expected Shrink work, got {other:?}"),
        }

        assert_eq!(
            &app.zoom_frames(false),
            want,
            "scoped zoom must touch exactly the scoped frames"
        );
        assert_eq!(
            app.zoom_frames(true),
            (0..app.frame_count()).collect::<Vec<_>>(),
            "'all frames' zoom must ignore the scope"
        );
    }
}

#[test]
fn overlay_edits_leave_the_strip_alone() {
    let mut doc = doc(4);
    let before = strip_keys(&doc);

    let id = doc.add_overlay(
        "caption".to_string(),
        text("hi"),
        at(0.0, 0.0, 8.0, 8.0),
        0..4,
    );
    assert_eq!(
        strip_keys(&doc),
        before,
        "adding an overlay changes no frame"
    );

    if let Some(OverlayKind::Text(t)) = doc.overlay_mut(id).map(|o| &mut o.kind) {
        t.text = "hi there".into();
    }
    assert_eq!(strip_keys(&doc), before, "typing changes no frame");

    doc.remove_overlay(id);
    assert_eq!(strip_keys(&doc), before);
}

#[test]
fn frame_edits_do_rebuild_the_strip() {
    let mut keys = FrameKeys { next: 500 };
    let mut doc = doc(4);
    let before = strip_keys(&doc);

    doc.duplicate_frame(0);
    assert_ne!(strip_keys(&doc), before);

    let after_duplicate = strip_keys(&doc);
    doc.delete_frames(0..1);
    assert_ne!(strip_keys(&doc), after_duplicate);

    // A frame back from an external editor gets the pencil badge, so the
    // flag rides along with the key.
    let mut doc = doc.clone();
    let opaque = strip_keys(&doc);
    doc.replace_frame_pixels(0, Raster::blank(8, 8), &mut keys);
    assert_ne!(strip_keys(&doc), opaque);
    assert!(strip_keys(&doc)[0].1, "detached");
}

#[test]
fn sidebar_edits_an_overlay_only_while_it_is_on_the_frame() {
    let mut app = plain(6);
    let id = app.editor.doc.add_overlay(
        "cap".to_string(),
        text("hi"),
        at(0.0, 0.0, 8.0, 8.0),
        1..3,
    );
    app.selected_overlay = Some(id);

    app.playhead = 2;
    assert_eq!(app.editing_overlay(), Some(id), "on the overlay's frame");

    app.playhead = 4;
    assert_eq!(app.editing_overlay(), None, "off it: plain frame view");
    assert!(app.overlays_on(4).is_empty());

    app.playhead = 1;
    assert_eq!(app.editing_overlay(), Some(id), "memory: back on its frame");
}

#[test]
fn layer_list_is_topmost_first_and_steps_past_what_it_shows() {
    let mut app = plain(4);
    let box_at = at(0.0, 0.0, 8.0, 8.0);
    let bottom = app
        .editor
        .doc
        .add_overlay("bottom".to_string(), shape(), box_at, 0..4);
    let elsewhere = app
        .editor
        .doc
        .add_overlay("elsewhere".to_string(), shape(), box_at, 2..4);
    let top = app
        .editor
        .doc
        .add_overlay("top".to_string(), shape(), box_at, 0..4);

    let rows = |app: &App| {
        app.stacked_overlays()
            .into_iter()
            .map(|(_, name)| name)
            .collect::<Vec<_>>()
    };
    assert_eq!(rows(&app), vec!["top", "bottom"], "topmost row first");

    assert_eq!(
        app.restack_neighbour(bottom, true),
        Some(top),
        "a step up goes past the row above, not past `elsewhere`"
    );
    assert_eq!(app.restack_neighbour(top, true), None, "already on top");
    assert_eq!(app.restack_neighbour(bottom, false), None, "already bottom");

    app.restack_overlay(bottom, true);
    assert_eq!(rows(&app), vec!["bottom", "top"]);
    assert_eq!(
        app.editor.doc.overlays.last().map(|o| o.id),
        Some(bottom),
        "the first row is the overlay painted last"
    );
    assert_eq!(
        app.editor.doc.overlay(elsewhere).map(|o| o.range.clone()),
        Some(2..4),
        "an overlay the step skipped is untouched"
    );
    assert_eq!(app.selected_overlay, Some(bottom), "stays on what moved");
}

#[test]
fn copied_frames_paste_in_after_the_frame_on_screen() {
    let mut app = plain(4);
    assert!(app.paste_frames().is_none(), "nothing copied yet");

    app.copy_frames(&vec![0, 1]);
    assert_eq!(ids(&app), vec![0, 1, 2, 3], "copying edits nothing");

    app.playhead = 2;
    assert!(app.paste_frames().is_some());
    assert_eq!(ids(&app), vec![0, 1, 2, 0, 1, 3], "the run lands in order");
    assert_eq!(app.playhead, 4, "on the last pasted frame");
    assert_eq!(app.selection, vec![3, 4], "the pasted run stays picked");

    assert!(app.paste_frames().is_some(), "the clipboard is still there");
    assert_eq!(ids(&app), vec![0, 1, 2, 0, 1, 0, 1, 3]);
}

fn band(id: u32, name: &str, range: std::ops::Range<usize>, row: usize) -> Band {
    Band {
        id: OverlayId(id),
        name: name.into(),
        range,
        selected: false,
        row,
    }
}

const BAND_H: f64 = 20.0;

/// The overlay under a point of the band area, a pitch per frame.
fn band_under(bands: &Vec<Band>, x: f64, y: f64, pitch: f64) -> Option<OverlayId> {
    band_at(bands, (y / BAND_H) as usize, (x / pitch) as usize)
}

#[test]
fn band_click_hits_the_band_under_the_point() {
    let pitch = 76.0;
    let mid = |frame: usize| (frame as f64 + 0.5) * pitch;
    let bands = vec![
        band(1, "A", 0..3, 0),
        band(2, "B", 5..8, 0),
        band(3, "C", 1..6, 1),
    ];
    let y0 = BAND_H * 0.5;
    let y1 = BAND_H * 1.5;
    assert_eq!(band_under(&bands, mid(1), y0, pitch), Some(OverlayId(1)));
    assert_eq!(
        band_under(&bands, mid(6), y0, pitch),
        Some(OverlayId(2)),
        "2nd band on row 0"
    );
    assert_eq!(
        band_under(&bands, mid(4), y0, pitch),
        None,
        "gap between them"
    );
    assert_eq!(
        band_under(&bands, mid(3), y1, pitch),
        Some(OverlayId(3)),
        "band on row 1"
    );
    assert_eq!(
        band_under(&bands, mid(3), BAND_H * 2.5, pitch),
        None,
        "empty row"
    );
}

#[test]
fn band_hit_test_follows_strip_zoom() {
    let pitch = |zoom: f64| (72.0 * zoom).round() + 4.0;
    let bands = vec![band(1, "A", 0..4, 0), band(2, "B", 5..8, 0)];
    let x = (6.0 + 0.5) * pitch(1.0);
    let y = BAND_H * 0.5;
    assert_eq!(band_under(&bands, x, y, pitch(1.0)), Some(OverlayId(2)));
    // Half the zoom: the thumbnails halve but the gaps between them do
    // not, so the same x is over frame 12, past every band.
    assert_eq!(band_under(&bands, x, y, pitch(0.5)), None);
    // Double: the same x is over frame 3, inside band A.
    assert_eq!(band_under(&bands, x, y, pitch(2.0)), Some(OverlayId(1)));
}

#[test]
fn move_target_for_set_lands_where_the_divider_promised() {
    // Dragging frame 0 to the gap right after itself is a no-op.
    assert_eq!(move_target_for_set(&vec![0], 1), 0);
    // Forward, past several frames still in the way after 0 moves out.
    assert_eq!(move_target_for_set(&vec![0], 3), 2);
    // Backward: nothing before the target gap moved, so it is the
    // final index outright.
    assert_eq!(move_target_for_set(&vec![3], 1), 1);
    // Past the last frame of 5.
    assert_eq!(move_target_for_set(&vec![0], 5), 4);
    // A gappy selection of three: the gap sits before all of them, so
    // the whole run slides down by three.
    assert_eq!(move_target_for_set(&vec![2, 5, 7], 1), 1);
    // …and after two of them: the run lands two earlier than the gap.
    assert_eq!(move_target_for_set(&vec![2, 5, 7], 6), 4);
}

#[test]
fn move_target_for_set_round_trips_through_move_frames_to() {
    // [0,1,2,3,4], drag 0 to the gap before 3 (gap 3): lands just before it.
    let mut d = doc(5);
    d.move_frames_to(&vec![0], move_target_for_set(&vec![0], 3));
    assert_eq!(ids_at(&d), vec![1, 2, 0, 3, 4]);

    // Same document, drag 3 to the gap before 1 (gap 1): lands just before it.
    let mut d = doc(5);
    d.move_frames_to(&vec![3], move_target_for_set(&vec![3], 1));
    assert_eq!(ids_at(&d), vec![0, 3, 1, 2, 4]);

    // Drag 0 to the gap past the last frame: lands at the very end.
    let mut d = doc(5);
    d.move_frames_to(&vec![0], move_target_for_set(&vec![0], 5));
    assert_eq!(ids_at(&d), vec![1, 2, 3, 4, 0]);

    // A three-frame selection dropped between frames 1 and 2.
    let mut d = doc(8);
    d.move_frames_to(
        &vec![2, 5, 7],
        move_target_for_set(&vec![2, 5, 7], 2),
    );
    assert_eq!(ids_at(&d), vec![0, 1, 2, 5, 7, 3, 4, 6]);
}

#[test]
fn selection_nudge_gap_swaps_with_the_beside_neighbour() {
    // Contiguous run 2..5 of 8: earlier aims before frame 1.
    assert_eq!(selection_nudge_gap(&vec![2, 3, 4], true, 8), Some(1));
    // Later aims past frame 4, the neighbour after the run.
    assert_eq!(selection_nudge_gap(&vec![2, 3, 4], false, 8), Some(6));
    // A single frame nudges exactly like the old move-by-one.
    assert_eq!(selection_nudge_gap(&vec![3], true, 8), Some(2));
    assert_eq!(selection_nudge_gap(&vec![3], false, 8), Some(5));
    // Already at an edge: nothing to swap with.
    assert_eq!(selection_nudge_gap(&vec![0, 1], true, 8), None);
    assert_eq!(selection_nudge_gap(&vec![6, 7], false, 8), None);
    // Every frame selected: the nudge would be a no-op anyway.
    assert_eq!(selection_nudge_gap(&(0..8).collect(), true, 8), None);
    assert_eq!(selection_nudge_gap(&(0..8).collect(), false, 8), None);
}

#[test]
fn move_picked_moves_the_whole_selection_and_follows_it() {
    // In place means the picked frames already form the run `to` starts:
    // [2,3,4] dropped at gap 2 would land exactly where they are.
    let mut app = app_with(doc(8), ScopeChoice::Range, vec![2, 3, 4], 3);
    assert!(
        app.move_picked(&vec![2, 3, 4], 2).is_none(),
        "already in place"
    );

    // Dropping a gappy selection [2,5,7] between 0 and 1.
    let mut app = app_with(doc(8), ScopeChoice::Range, vec![2, 5, 7], 5);
    assert!(app.move_picked(&vec![2, 5, 7], 1).is_some());
    assert_eq!(ids(&app), vec![0, 2, 5, 7, 1, 3, 4, 6]);
    assert_eq!(
        app.selection,
        vec![1, 2, 3],
        "the selection is now the contiguous run at its new home"
    );
    assert_eq!(
        app.playhead, 2,
        "the frame the playhead was on (5) sits at index 2"
    );
    assert_eq!(app.scope, ScopeChoice::Range);

    // A one-frame drag with nothing selected moves just that frame.
    let mut app = app_with(doc(8), ScopeChoice::ThisFrame, Vec::new(), 4);
    assert!(app.move_picked(&vec![4], 1).is_some());
    assert_eq!(ids(&app), vec![0, 4, 1, 2, 3, 5, 6, 7]);
    assert!(app.selection.is_empty(), "no selection to carry");
    assert_eq!(app.playhead, 1);
}

#[test]
fn move_selection_earlier_swaps_the_block_with_its_neighbour() {
    let mut app = app_with(doc(8), ScopeChoice::Range, vec![2, 3, 4], 3);
    let gap = selection_nudge_gap(&vec![2, 3, 4], true, 8).expect("a neighbour");
    let to = move_target_for_set(&vec![2, 3, 4], gap);
    assert!(app.move_picked(&vec![2, 3, 4], to).is_some());
    assert_eq!(ids(&app), vec![0, 2, 3, 4, 1, 5, 6, 7]);
    assert_eq!(app.selection, vec![1, 2, 3]);

    // And as the message does it, towards the other end.
    let mut app = app_with(doc(8), ScopeChoice::Range, vec![2, 3, 4], 3);
    send(&mut app, Msg::MoveSelection { earlier: false });
    assert_eq!(ids(&app), vec![0, 1, 5, 2, 3, 4, 6, 7]);
    assert_eq!(app.selection, vec![3, 4, 5]);
}

#[test]
fn bands_pack_side_by_side_when_their_frames_do_not_overlap() {
    assert_eq!(
        pack_rows(&vec![0..5, 5..10, 10..15]),
        vec![0, 0, 0],
        "a chain shares one row"
    );
    assert_eq!(
        pack_rows(&vec![0..10, 2..4, 3..8]),
        vec![0, 1, 2],
        "overlaps stack"
    );
    // Touching ranges are not overlapping ranges: 0..5 ends where 5..10 starts.
    assert_eq!(
        pack_rows(&vec![0..5, 3..9, 5..7, 9..12]),
        vec![0, 1, 0, 0]
    );
    assert!(pack_rows(&Vec::new()).is_empty());
}

#[test]
fn an_overlay_edit_lands_where_the_scope_reaches() {
    // All-frames scope over a full-range overlay: everything, in place.
    assert_eq!(overlay_edit_span(0..10, 0..10, 3), 0..10);
    // This-frame scope inside the overlay: the one frame.
    assert_eq!(overlay_edit_span(0..10, 4..5, 4), 4..5);
    // A range scope reaching partway: the overlap.
    assert_eq!(overlay_edit_span(0..10, 5..20, 6), 5..10);
    // Scope elsewhere, playhead still on the overlay: the frame on screen.
    assert_eq!(overlay_edit_span(0..10, 7..9, 2), 2..3);
    // Scope elsewhere and the overlay nowhere near: nothing to edit.
    assert_eq!(overlay_edit_span(7..9, 0..2, 5), 0..0);
    // A scope that misses the overlay leaves the frame on screen.
    assert_eq!(overlay_edit_span(0..10, 12..15, 2), 2..3);
}

fn inside(t: (f32, f32, f32, f32), x: f32, y: f32) -> bool {
    (t.0..=t.0 + t.2).contains(&x) && (t.1..=t.1 + t.3).contains(&y)
}

fn corner_at(t: (f32, f32, f32, f32), x: f32, y: f32, grab: f32) -> Option<usize> {
    [
        (t.0, t.1),
        (t.0 + t.2, t.1),
        (t.0, t.1 + t.3),
        (t.0 + t.2, t.1 + t.3),
    ]
    .iter()
    .position(|(hx, hy)| (hx - x).abs() <= grab && (hy - y).abs() <= grab)
}

/// How many quarter turns a corner's diagonal has gone, rounded.
fn quarters(corner: usize, angle: f32) -> i32 {
    let base = octant_of(corner);
    let parity = base & 1;
    let rotated = base as f32 * 45.0 + angle.to_degrees();
    ((rotated - parity as f32 * 45.0) / 90.0).round() as i32
}

fn cursor(corner: usize, angle: f32) -> &'static str {
    corner_cursor(corner, quarters(corner, angle))
}

#[test]
fn the_body_of_any_overlay_offers_the_move_cursor() {
    let selected = (10.0, 10.0, 40.0, 20.0);
    let other = (100.0, 60.0, 30.0, 30.0);
    let named = |picked: bool, x: f32, y: f32, rotating: bool| {
        let over = inside(selected, x, y) || inside(other, x, y);
        match hover(picked, corner_at(selected, x, y, 4.0), rotating, over) {
            Hover::Rotate => "rotate",
            Hover::Grip(corner) => cursor(corner, 0.0),
            Hover::Move => "move",
            Hover::Plain => "default",
        }
    };
    let at = |x, y| named(true, x, y, false);

    assert_eq!(at(30.0, 20.0), "move", "inside the selected overlay");
    assert_eq!(at(115.0, 75.0), "move", "inside an unselected one too");
    assert_eq!(at(80.0, 40.0), "default", "bare canvas between them");

    // A corner of the selection outranks its own body.
    assert_eq!(at(10.0, 10.0), "nw-resize");
    // And the rotate modifier outranks both.
    assert_eq!(named(true, 30.0, 20.0, true), "rotate");

    // An unselected overlay has no grips, so its corner is still a move,
    // and rotate needs a selection to act on.
    assert_eq!(at(100.0, 60.0), "move");
    assert_eq!(
        named(false, 115.0, 75.0, true),
        "move",
        "the rotate modifier over nothing selected still just moves"
    );
}

#[test]
fn the_resize_cursor_turns_with_the_box() {
    assert_eq!(cursor(0, 0.0), "nw-resize", "top left, axis aligned");
    assert_eq!(cursor(3, 0.0), "se-resize", "bottom right");
    // A quarter turn clockwise carries the top-left corner round to the top right.
    assert_eq!(cursor(0, std::f32::consts::FRAC_PI_2), "ne-resize");
    // Half a turn puts it opposite itself, and the glyph is symmetric.
    assert_eq!(cursor(0, std::f32::consts::PI), "se-resize");
    assert_eq!(cursor(0, -std::f32::consts::PI * 2.0), "nw-resize");
    // Corners never borrow an edge glyph, whatever the angle.
    for corner in 0..4 {
        for step in 0..24 {
            let cursor = cursor(corner, step as f32 * 0.3);
            assert!(cursor.len() > "n-resize".len(), "{cursor} is an edge glyph");
        }
    }
}

#[test]
fn busy_gate_classification_covers_every_variant() {
    let press = || Msg::CanvasPress {
        x: f(0.0),
        y: f(0.0),
        state: NONE,
    };

    // Frame-moving edits: blocked in every kind of work.
    for msg in [
        Msg::Load,
        Msg::LoadAppend,
        Msg::Undo,
        Msg::Redo,
        Msg::DeleteSelection,
        Msg::FrameOp(FrameOp::Delete),
        Msg::MoveSelection { earlier: true },
        Msg::MoveSelectionTo { from: 0, gap: 2 },
        Msg::SetScopeDelay(5),
        Msg::SetAllFramesDelay(5),
        Msg::ApplyCrop,
        Msg::CropAll(0, 0, 1, 1),
        Msg::ApplyZoom,
        Msg::ApplyZoomAll,
        Msg::ApplyShrink,
        Msg::DropEveryNth(2),
        Msg::SmartDrop(30),
        Msg::Resize(10, 10),
        Msg::InsertImageFrame(0, None),
        Msg::MoveFrame(0, 1),
    ] {
        assert!(msg.changes_frames(), "{msg:?} must wait");
        assert!(msg.requires_idle(), "{msg:?} must wait");
    }

    // Snapshot/dialog openers: blocked too, or the follow-up edit lands
    // against a stale canvas.
    for msg in [
        Msg::Open,
        Msg::Export,
        Msg::CropAllDialog,
        Msg::DelayAllDialog,
        Msg::ImportMore,
    ] {
        assert!(!msg.changes_frames(), "{msg:?} does not move frames itself");
        assert!(msg.requires_idle(), "{msg:?} must wait");
    }

    // Overlay-only edits: live during resize/zoom (the landing work
    // scales them in), blocked only while an import would discard them.
    for msg in [
        Msg::AddOverlay(Tool::Text),
        Msg::EditText("hi".into()),
        Msg::SetOverlayProp(OverlayProp::TextSize(f(12.0))),
        Msg::ToggleCropTool,
        press(),
        Msg::CanvasDrag { state: NONE },
        Msg::CanvasRelease,
    ] {
        assert!(
            !msg.changes_frames(),
            "{msg:?} stays live during frame work"
        );
        assert!(msg.edits_document(), "{msg:?} must wait during import");
    }

    // Pure view/transport messages: never blocked.
    for msg in [
        Msg::Tick,
        Msg::Seek(0),
        Msg::TogglePlay,
        Msg::Toast(String::new()),
        Msg::SetScope(ScopeChoice::AllFrames),
        Msg::SelectOverlay(None),
        Msg::MoveFrameDialog(0),
    ] {
        assert!(
            !msg.changes_frames() && !msg.requires_idle() && !msg.edits_document(),
            "{msg:?} passes through"
        );
    }
}

#[test]
fn ctrl_toggles_single_frames_and_shift_takes_a_run_either_way() {
    let mut picked = Vec::new();
    toggle_frame(&mut picked, 2);
    toggle_frame(&mut picked, 7);
    toggle_frame(&mut picked, 4);
    assert_eq!(picked, vec![2, 4, 7], "a set, sorted, with the gaps kept");
    toggle_frame(&mut picked, 4);
    assert_eq!(
        picked,
        vec![2, 7],
        "clicking a picked frame takes it back out"
    );

    // Shift measures from the anchor, so clicking before it is a run too.
    assert_eq!(run_between(5, 8), vec![5, 6, 7, 8]);
    assert_eq!(
        run_between(5, 2),
        vec![2, 3, 4, 5],
        "backwards is the same run"
    );
    assert_eq!(run_between(3, 3), vec![3]);

    // The scope keeps the gaps, and only widens to span them for an
    // overlay, which has to be contiguous.
    let scope = Scope::Frames(vec![2, 7]);
    assert_eq!(scope.resolve(0, 10), vec![2, 7]);
    assert_eq!(scope.span(0, 10), 2..8);
}

#[test]
fn full_canvas_crop_is_not_an_edit() {
    assert!(!crop_changes_canvas((100, 80), (0, 0, 100, 80)));
    assert!(!crop_changes_canvas((100, 80), (0, 0, 500, 500)));
    assert!(crop_changes_canvas((100, 80), (1, 0, 99, 80)));
    assert!(crop_changes_canvas((100, 80), (0, 0, 99, 80)));
    assert!(!crop_changes_canvas((0, 0), (0, 0, 1, 1)));
}

#[test]
fn resize_budget_uses_checked_rgba_size() {
    assert!(resize_fits_budget(100, 100, 10, 400_000));
    assert!(!resize_fits_budget(100, 100, 11, 400_000));
    assert!(!resize_fits_budget(
        u32::MAX,
        u32::MAX,
        usize::MAX,
        u64::MAX
    ));
}

#[test]
fn echoing_a_property_back_unchanged_is_not_an_edit() {
    let text = OverlayKind::Text(TextOverlay {
        text: "hi".into(),
        font: "Sans Bold".into(),
        size_px: f(32.0),
        color: [255, 255, 255, 255],
        outline: Some(([0, 0, 0, 255], f(2.0))),
        align: TextAlign::Center,
        antialias: true,
    });
    let changes = |prop: OverlayProp, kind: &OverlayKind| {
        let resized = match (&prop, kind) {
            (OverlayProp::TextSize(px), OverlayKind::Text(t)) => {
                (f32::from_bits(t.size_px.to_bits()) - f32::from_bits(px.to_bits())).abs() > 0.01
            }
            _ => false,
        };
        prop.changes(kind, resized)
    };
    assert!(!changes(OverlayProp::Font("Sans Bold".into()), &text));
    assert!(changes(OverlayProp::Font("Serif".into()), &text));
    assert!(!changes(OverlayProp::TextSize(f(32.0)), &text));
    assert!(changes(OverlayProp::TextSize(f(33.0)), &text));
    assert!(!changes(
        OverlayProp::Outline(Some(([0, 0, 0, 255], f(2.0)))),
        &text
    ));
    assert!(
        changes(OverlayProp::Outline(None), &text),
        "turning it off is a change"
    );
    assert!(!changes(OverlayProp::Align(TextAlign::Center), &text));
    assert!(changes(OverlayProp::Align(TextAlign::Justify), &text));
    assert!(!changes(OverlayProp::Antialias(true), &text));
    assert!(changes(OverlayProp::Antialias(false), &text));

    let shape = OverlayKind::Shape(ShapeOverlay {
        shape: Shape::Rect,
        fill: None,
        stroke: Some(([255, 60, 60, 255], f(3.0))),
    });
    assert!(!changes(OverlayProp::Fill(None), &shape));
    assert!(changes(OverlayProp::Fill(Some([1, 2, 3, 255])), &shape));
    // A text property offered to a shape is not a change to anything.
    assert!(!changes(OverlayProp::Font("Serif".into()), &shape));
}

#[test]
fn every_edit_is_one_step_back() {
    let mut app = plain(4);
    let before = app.editor.doc.clone();
    assert!(matches!(
        send(&mut app, Msg::DropEveryNth(2)),
        Effect::Nothing
    ));
    assert_eq!(ids(&app), vec![0, 2]);
    send(&mut app, Msg::Undo);
    assert_eq!(app.editor.doc, before);
    send(&mut app, Msg::Redo);
    assert_eq!(ids(&app), vec![0, 2]);
    assert_eq!(app.rev, 3);
}

#[test]
fn a_message_that_waits_changes_nothing() {
    let mut app = plain(4);
    app.busy = Some(Busy {
        kind: BusyKind::Resize,
        done: 0,
        total: Some(4),
    });
    assert!(matches!(
        send(&mut app, Msg::FrameOp(FrameOp::Delete)),
        Effect::Nothing
    ));
    assert_eq!(ids(&app), vec![0, 1, 2, 3]);
    // Overlays stay live under frame work, and a picked one can be deleted.
    send(&mut app, Msg::AddOverlay(Tool::Rect));
    assert_eq!(app.editor.doc.overlays.len(), 1);
    send(&mut app, Msg::DeleteSelection);
    assert_eq!(app.editor.doc.overlays.len(), 0);
    // An import holds the whole document.
    app.busy = Some(Busy {
        kind: BusyKind::Import,
        done: 0,
        total: None,
    });
    send(&mut app, Msg::AddOverlay(Tool::Rect));
    assert_eq!(app.editor.doc.overlays.len(), 0);
    assert!(matches!(
        send(&mut app, Msg::CancelImport),
        Effect::StopImport
    ));
    send(&mut app, Msg::Seek(2));
    assert_eq!(app.playhead, 2, "looking around is never held up");
}

#[test]
fn deleting_frames_keeps_the_playhead_in_the_strip() {
    let mut app = app_with(doc(5), ScopeChoice::Range, vec![3, 4], 4);
    let effect = send(&mut app, Msg::DeleteSelection);
    assert!(matches!(effect, Effect::Nothing));
    assert_eq!(ids(&app), vec![0, 1, 2]);
    assert_eq!(app.playhead, 2);
    assert_eq!(app.scope, ScopeChoice::ThisFrame);
    assert!(app.selection.is_empty());

    app.scope = ScopeChoice::AllFrames;
    match send(&mut app, Msg::FrameOp(FrameOp::Cut)) {
        Effect::Toast(change) => {
            assert_eq!(change.label, "Frames cut");
            assert_eq!(change.frames_touched, 3);
        }
        other => panic!("{other:?}"),
    }
    assert_eq!(app.frame_count(), 0);
    assert_eq!(app.clipboard.len(), 3);
    assert_eq!(app.playhead, 0);
    send(&mut app, Msg::FramePaste);
    assert_eq!(ids(&app), vec![0, 1, 2]);
}

#[test]
fn duplicating_goes_back_to_front() {
    let mut app = app_with(doc(4), ScopeChoice::Range, vec![0, 2], 0);
    send(&mut app, Msg::FrameOp(FrameOp::Duplicate));
    assert_eq!(ids(&app), vec![0, 0, 1, 2, 2, 3]);
    let mut app = app_with(doc(5), ScopeChoice::Range, vec![1, 3], 0);
    send(&mut app, Msg::FrameOp(FrameOp::Reverse));
    assert_eq!(ids(&app), vec![0, 3, 2, 1, 4], "what they span");
}

#[test]
fn a_new_overlay_follows_the_scope_and_is_picked_where_it_shows() {
    let mut app = app_with(doc(6), ScopeChoice::Range, vec![0, 1, 4], 4);
    let effect = send(&mut app, Msg::AddOverlay(Tool::Text));
    assert!(matches!(effect, Effect::Nothing));
    let ranges: Vec<_> = app
        .editor
        .doc
        .overlays
        .iter()
        .map(|o| o.range.clone())
        .collect();
    assert_eq!(ranges, vec![0..2, 4..5]);
    assert_eq!(app.selected_overlay, Some(OverlayId(1)), "the one on screen");
    let o = &app.editor.doc.overlays[0];
    assert_eq!(o.name, "Text");
    assert_eq!(o.transform, at(1.0, 2.0, 3.0, 4.0));
    match &o.kind {
        OverlayKind::Text(t) => {
            assert_eq!(t.text, "Text");
            assert_eq!(t.size_px, f(12.0));
        }
        other => panic!("{other:?}"),
    }
    send(&mut app, Msg::AddOverlay(Tool::Arrow));
    match &app.editor.doc.overlays[2].kind {
        OverlayKind::Shape(s) => {
            assert_eq!(s.shape, Shape::Arrow);
            assert_eq!(s.fill, Some([255, 60, 60, 255]));
            assert!(s.stroke.is_none());
        }
        other => panic!("{other:?}"),
    }
    send(&mut app, Msg::AddOverlay(Tool::Ellipse));
    match &app.editor.doc.overlays[4].kind {
        OverlayKind::Shape(s) => {
            assert_eq!(s.shape, Shape::Ellipse);
            assert_eq!(s.stroke, Some(([255, 60, 60, 255], f(3.0))));
        }
        other => panic!("{other:?}"),
    }
}

#[test]
fn typing_splits_the_overlay_at_the_scope() {
    let mut app = plain(6);
    let id = app.editor.doc.add_overlay(
        "cap".to_string(),
        text("hi"),
        at(0.0, 0.0, 8.0, 8.0),
        0..6,
    );
    app.selected_overlay = Some(id);
    app.playhead = 2;
    send(&mut app, Msg::EditText("there".into()));
    let texts: Vec<(std::ops::Range<usize>, String)> = app
        .editor
        .doc
        .overlays
        .iter()
        .map(|o| match &o.kind {
            OverlayKind::Text(t) => (o.range.clone(), t.text.clone()),
            other => panic!("{other:?}"),
        })
        .collect();
    assert_eq!(
        texts,
        vec![
            (0..2, "hi".to_string()),
            (2..3, "there".to_string()),
            (3..6, "hi".to_string()),
        ]
    );
    assert_ne!(app.selected_overlay, Some(id), "the piece is what is edited");
}

#[test]
fn restyling_seeks_to_the_overlay_first() {
    let mut app = plain(6);
    let id = app.editor.doc.add_overlay(
        "cap".to_string(),
        text("hi"),
        at(0.0, 0.0, 8.0, 8.0),
        3..5,
    );
    app.selected_overlay = Some(id);
    send(&mut app, Msg::SetOverlayProp(OverlayProp::Antialias(true)));
    assert_eq!(app.playhead, 0, "nothing to change, nothing done");
    assert!(!app.editor.can_undo());
    send(&mut app, Msg::SetOverlayProp(OverlayProp::Antialias(false)));
    assert_eq!(app.playhead, 3);
    assert_eq!(app.editor.undo_label(), Some("Overlay restyled"));
    let piece = app
        .editor
        .doc
        .overlay(app.selected_overlay.expect("the piece"))
        .expect("still there");
    assert_eq!(piece.range, 3..4);
}

#[test]
fn a_drag_is_one_step_that_starts_where_it_started() {
    let mut app = plain(3);
    app.scope = ScopeChoice::AllFrames;
    let start = at(1.0, 1.0, 4.0, 4.0);
    let id = app
        .editor
        .doc
        .add_overlay("a".to_string(), shape(), start, 0..3);
    let press = Msg::CanvasPress {
        x: f(2.0),
        y: f(2.0),
        state: NONE,
    };
    app.update(
        press,
        &Aid {
            inside: vec![true],
            ..aid()
        },
    );
    assert_eq!(app.selected_overlay, Some(id));
    assert_eq!(app.drag.map(|d| d.mode), Some(DragMode::Move));

    let moved = at(3.0, 1.0, 4.0, 4.0);
    app.update(Msg::CanvasDrag { state: NONE }, &aid());
    assert!(!app.drag.expect("still pressed").moved, "too short to count");
    app.update(
        Msg::CanvasDrag { state: NONE },
        &Aid {
            away: true,
            dragged: moved,
            ..aid()
        },
    );
    assert_eq!(app.editor.doc.overlays[0].transform, moved, "live");
    assert!(!app.editor.can_undo(), "and outside the history");

    match app.update(Msg::CanvasRelease, &aid()) {
        Effect::Toast(change) => assert_eq!(change.label, "Overlay moved"),
        other => panic!("{other:?}"),
    }
    assert_eq!(app.editor.doc.overlays[0].transform, moved);
    send(&mut app, Msg::Undo);
    assert_eq!(app.editor.doc.overlays[0].transform, start);
}

#[test]
fn the_grip_and_the_rotate_key_decide_what_a_press_starts() {
    let mut app = plain(1);
    let box_at = at(1.0, 1.0, 4.0, 4.0);
    let id = app
        .editor
        .doc
        .add_overlay("a".to_string(), shape(), box_at, 0..1);
    app.selected_overlay = Some(id);
    let press = |state| Msg::CanvasPress {
        x: f(1.0),
        y: f(1.0),
        state,
    };
    let gripped = Aid {
        inside: vec![false],
        grip: Some(2),
        ..aid()
    };
    app.update(press(NONE), &gripped);
    assert_eq!(app.drag.map(|d| d.mode), Some(DragMode::Resize(2)));
    app.update(press(app.keymap.mods(Modal::Rotate)), &gripped);
    assert_eq!(app.drag.map(|d| d.mode), Some(DragMode::Rotate));
    // Off every box the selection goes.
    app.drag = None;
    app.update(
        press(NONE),
        &Aid {
            inside: vec![false],
            ..aid()
        },
    );
    assert_eq!(app.selected_overlay, None);
    assert!(app.drag.is_none());
}

#[test]
fn the_crop_tool_draws_a_box_and_spends_it() {
    let mut app = plain(2);
    send(&mut app, Msg::ToggleCropTool);
    assert!(app.crop_tool);
    app.update(
        Msg::CanvasPress {
            x: f(1.0),
            y: f(1.0),
            state: NONE,
        },
        &aid(),
    );
    app.update(
        Msg::CanvasDrag { state: NONE },
        &Aid {
            away: true,
            crop: (f(1.0), f(1.0), f(4.0), f(3.0)),
            ..aid()
        },
    );
    assert_eq!(app.crop_rect, Some((f(1.0), f(1.0), f(4.0), f(3.0))));
    let rect = Rect {
        x: 1,
        y: 1,
        w: 4,
        h: 3,
    };
    let effect = app.update(
        Msg::ApplyCrop,
        &Aid {
            rect: Some(rect),
            ..aid()
        },
    );
    let work = match effect {
        Effect::Work(work) => work,
        other => panic!("{other:?}"),
    };
    assert!(!app.crop_tool && app.crop_rect.is_none());
    assert_eq!(app.busy.map(|b| (b.kind, b.total)), Some((BusyKind::Crop, Some(2))));

    // The work runs on the document, and lands as one step.
    assert!(work.can_run(&app.editor.doc));
    let mut seen = Vec::new();
    let mut keys = FrameKeys { next: 50 };
    let frames = work.run(
        &app.editor.doc,
        |done, total| seen.push((done, total)),
        &mut keys,
    );
    assert_eq!(seen, vec![(1, 2), (2, 2)]);
    let done = WorkDone {
        label: work.label(),
        frames,
        boxes: Vec::new(),
        drag: None,
        crop_rect: None,
    };
    match app.update_cmd(Cmd::Worked(Ok(done))) {
        Effect::Toast(change) => assert_eq!(change.label, "Cropped"),
        other => panic!("{other:?}"),
    }
    assert_eq!(app.editor.doc.size(), (4, 3));
    assert!(app.busy.is_none());
    send(&mut app, Msg::Undo);
    assert_eq!(app.editor.doc.size(), (8, 8));
}

#[test]
fn a_resize_over_the_budget_is_refused() {
    let mut app = plain(2);
    app.max_import_bytes = 1000;
    match send(&mut app, Msg::Resize(100, 100)) {
        Effect::Say(text) => assert_eq!(
            text,
            "That resize would use more memory than the configured limit."
        ),
        other => panic!("{other:?}"),
    }
    assert!(app.busy.is_none());
    assert!(matches!(
        send(&mut app, Msg::Resize(8, 8)),
        Effect::Nothing
    ));
    match send(&mut app, Msg::Resize(0, 4)) {
        Effect::Work(FrameWork::Resize(1, 4)) => {}
        other => panic!("{other:?}"),
    }
}

#[test]
fn a_worker_that_failed_frees_the_bar() {
    let mut app = plain(2);
    send(&mut app, Msg::Resize(4, 4));
    assert!(matches!(
        app.update_cmd(Cmd::WorkProgress(1, 2)),
        Effect::Nothing
    ));
    assert_eq!(app.busy.map(|b| b.done), Some(1));
    match app.update_cmd(Cmd::Worked(Err("The frame operation failed."))) {
        Effect::Say(text) => assert_eq!(text, "The frame operation failed."),
        other => panic!("{other:?}"),
    }
    assert!(app.busy.is_none());
}

#[test]
fn a_landed_resize_carries_the_gesture_with_it() {
    let mut app = plain(1);
    app.editor
        .doc
        .add_overlay("a".to_string(), shape(), at(2.0, 2.0, 4.0, 4.0), 0..1);
    let mut keys = FrameKeys { next: 50 };
    let frames = FrameWork::Resize(4, 4).run(&app.editor.doc, |_, _| {}, &mut keys);
    let drag = Drag {
        mode: DragMode::Move,
        from: (f(1.0), f(1.0)),
        origin: at(1.0, 1.0, 2.0, 2.0),
        current: at(1.0, 1.0, 2.0, 2.0),
        moved: true,
    };
    app.update_cmd(Cmd::Worked(Ok(WorkDone {
        label: "Resized",
        frames,
        boxes: vec![OverlayBox {
            x: f(1.0),
            y: f(1.0),
            w: f(2.0),
            h: f(2.0),
            size_px: f(0.0),
        }],
        drag: Some(drag),
        crop_rect: None,
    })));
    assert_eq!(app.editor.doc.size(), (4, 4));
    assert_eq!(app.editor.doc.overlays[0].transform, at(1.0, 1.0, 2.0, 2.0));
    assert_eq!(app.drag.map(|d| d.from), Some((f(1.0), f(1.0))));
}

#[test]
fn opening_replaces_and_appending_extends() {
    let mut app = plain(2);
    assert!(matches!(send(&mut app, Msg::Load), Effect::PlanImport));
    assert!(matches!(
        app.update_cmd(Cmd::Planned(Ok(true))),
        Effect::ConfirmOversize
    ));
    assert!(app.busy.is_none());
    assert!(matches!(
        send(&mut app, Msg::LoadConfirmed),
        Effect::StartLoad
    ));
    app.update_cmd(Cmd::ImportProgress(3, Some(5)));
    app.update_cmd(Cmd::Imported(ImportOutcome::Loaded(doc(3).frames)));
    assert_eq!(ids(&app), vec![0, 1, 2]);
    assert!(!app.editor.can_undo(), "a new document has no history");

    assert!(matches!(
        send(&mut app, Msg::LoadAppend),
        Effect::PlanImport
    ));
    assert!(matches!(
        app.update_cmd(Cmd::Planned(Ok(false))),
        Effect::StartLoad
    ));
    let mut keys = FrameKeys { next: 70 };
    let other = Frame::new(solid(4, 4, [9, 9, 9, 255]), 7, &mut keys);
    match app.update_cmd(Cmd::Imported(ImportOutcome::Loaded(vec![other]))) {
        Effect::Toast(change) => assert_eq!(change.label, "Frames added"),
        other => panic!("{other:?}"),
    }
    assert_eq!(ids(&app), vec![0, 1, 2, 9]);
    let last = &app.editor.doc.frames[3];
    assert_eq!((last.pixels.width, last.pixels.height), (8, 8));
    assert_eq!(last.delay_cs, 7);

    send(&mut app, Msg::LoadAppend);
    assert!(matches!(
        app.update_cmd(Cmd::Imported(ImportOutcome::Cancelled)),
        Effect::Nothing
    ));
    assert_eq!(app.frame_count(), 4);
    match app.update_cmd(Cmd::Imported(ImportOutcome::Failed("no".into()))) {
        Effect::Tell(text) => assert_eq!(text, "no"),
        other => panic!("{other:?}"),
    }

    let mut empty = App::new(Keymap::default(), 0);
    assert!(matches!(
        send(&mut empty, Msg::LoadAppend),
        Effect::OpenInstead
    ));
}

#[test]
fn an_image_joins_at_the_canvas_size_and_its_neighbours_pace() {
    let mut app = plain(2);
    send(
        &mut app,
        Msg::InsertImageFrame(0, Some(solid(3, 5, [7, 7, 7, 255]))),
    );
    assert_eq!(ids(&app), vec![0, 7, 1]);
    let frame = &app.editor.doc.frames[1];
    assert_eq!((frame.pixels.width, frame.pixels.height), (8, 8));
    assert_eq!(frame.delay_cs, 5);
    assert_eq!(app.playhead, 1);
    match send(&mut app, Msg::AppendImageFrame(None)) {
        Effect::Say(text) => assert_eq!(text, "Could not read that image."),
        other => panic!("{other:?}"),
    }

    let mut empty = App::new(Keymap::default(), 0);
    match send(
        &mut empty,
        Msg::AppendImageFrame(Some(solid(3, 5, [7, 7, 7, 255]))),
    ) {
        Effect::Toast(change) => assert_eq!(change.label, "Frame added"),
        other => panic!("{other:?}"),
    }
    assert_eq!(empty.editor.doc.size(), (3, 5));
    assert_eq!(empty.editor.doc.frames[0].delay_cs, 10);
}

#[test]
fn playing_paces_itself_by_each_frame() {
    let mut app = plain(2);
    match send(&mut app, Msg::TogglePlay) {
        Effect::Tick { ms } => assert_eq!(ms, 50),
        other => panic!("{other:?}"),
    }
    assert!(matches!(
        send(&mut app, Msg::Tick),
        Effect::Tick { ms: 50 }
    ));
    assert_eq!(app.playhead, 1);
    send(&mut app, Msg::Tick);
    assert_eq!(app.playhead, 0, "round again");
    assert!(matches!(
        send(&mut app, Msg::TogglePlay),
        Effect::Nothing
    ));
    assert!(matches!(send(&mut app, Msg::Tick), Effect::Nothing));
    let mut single = plain(1);
    assert!(matches!(
        send(&mut single, Msg::TogglePlay),
        Effect::Nothing
    ));
    assert!(!single.playing);
}

#[test]
fn clicks_pick_frames_the_way_their_keys_say() {
    let mut app = plain(6);
    send(&mut app, Msg::Seek(2));
    send(&mut app, Msg::ExtendSelection(4));
    assert_eq!(app.selection, vec![2, 3, 4]);
    send(&mut app, Msg::ExtendSelection(0));
    assert_eq!(app.selection, vec![0, 1, 2], "from the same anchor");
    send(&mut app, Msg::ToggleSelection(5));
    assert_eq!(app.selection, vec![0, 1, 2, 5]);
    send(&mut app, Msg::ToggleSelection(1));
    assert_eq!(app.selection, vec![0, 2, 5]);
    send(&mut app, Msg::ToggleSelection(1));
    assert_eq!(app.selection, vec![0, 1, 2, 5], "twice is nothing");
    send(&mut app, Msg::SeekKeepSelection(3));
    assert_eq!(app.selection, vec![0, 1, 2, 5]);
    send(&mut app, Msg::Seek(99));
    assert_eq!(app.playhead, 5);
    assert!(app.selection.is_empty());
    send(&mut app, Msg::SetScope(ScopeChoice::Range));
    assert_eq!(app.scope, ScopeChoice::ThisFrame, "no range to name");
    send(&mut app, Msg::SelectAllFrames);
    assert_eq!(app.scope, ScopeChoice::AllFrames);
    // With nothing picked, the frame on screen counts as picked.
    send(&mut app, Msg::Seek(1));
    send(&mut app, Msg::ToggleSelection(3));
    assert_eq!(app.selection, vec![1, 3]);
    // A drop moves the whole selection when it was dragged from inside it.
    send(&mut app, Msg::MoveSelectionTo { from: 3, gap: 6 });
    assert_eq!(ids(&app), vec![0, 2, 4, 5, 1, 3]);
    send(&mut app, Msg::MoveSelectionTo { from: 0, gap: 2 });
    assert_eq!(ids(&app), vec![2, 0, 4, 5, 1, 3]);
}

#[test]
fn delays_apply_to_what_the_scope_names() {
    let mut app = app_with(doc(3), ScopeChoice::Range, vec![0, 2], 0);
    send(&mut app, Msg::SetScopeDelay(0));
    let delays = |app: &App| {
        app.editor
            .doc
            .frames
            .iter()
            .map(|f| f.delay_cs)
            .collect::<Vec<_>>()
    };
    assert_eq!(delays(&app), vec![1, 5, 1], "never less than one");
    match send(&mut app, Msg::DelayAllDialog) {
        Effect::DelayAllDialog { count, delay_cs } => assert_eq!((count, delay_cs), (3, 1)),
        other => panic!("{other:?}"),
    }
    match send(&mut app, Msg::SetAllFramesDelay(9)) {
        Effect::Toast(change) => assert_eq!(change.frames_touched, 3),
        other => panic!("{other:?}"),
    }
    assert_eq!(delays(&app), vec![9, 9, 9]);
    app.playhead = 2;
    assert_eq!(app.elapsed_cs(), 18);
}

#[test]
fn thinning_takes_what_the_percentage_says() {
    let mut app = plain(10);
    send(&mut app, Msg::SmartDrop(30));
    assert_eq!(app.frame_count(), 7);
    assert_eq!(app.playhead, 0);
    send(&mut app, Msg::SmartDrop(1));
    assert_eq!(app.frame_count(), 7, "less than one frame is none");
    send(&mut app, Msg::MoveFrame(0, 6));
    assert_eq!(app.playhead, 6);
    assert!(matches!(
        send(&mut app, Msg::MoveFrame(0, 7)),
        Effect::Nothing
    ));
    assert!(matches!(
        send(&mut app, Msg::MoveFrameDialog(2)),
        Effect::MoveFrameDialog { index: 2, count: 7 }
    ));
}

#[test]
fn copies_are_counted_and_texts_shown() {
    let mut app = app_with(doc(3), ScopeChoice::AllFrames, Vec::new(), 0);
    assert!(matches!(
        send(&mut app, Msg::FrameCopy),
        Effect::Copied(3)
    ));
    match send(&mut app, Msg::Toast("done".into())) {
        Effect::Show { text, undo } => assert_eq!((text.as_str(), undo), ("done", true)),
        other => panic!("{other:?}"),
    }
    match send(&mut app, Msg::Notice("copied".into())) {
        Effect::Show { undo, .. } => assert!(!undo),
        other => panic!("{other:?}"),
    }
    assert!(matches!(
        send(&mut app, Msg::StripZoom(ZoomStep::In)),
        Effect::StripZoom(ZoomStep::In)
    ));
    assert!(matches!(
        send(&mut app, Msg::SetKeymap(Keymap::default())),
        Effect::SaveKeymap
    ));
    assert!(matches!(send(&mut app, Msg::Open), Effect::OpenDialog));
    assert!(matches!(
        send(&mut app, Msg::ImportMore),
        Effect::ImportMoreDialog
    ));
    assert!(matches!(send(&mut app, Msg::Export), Effect::ExportDialog));
    assert!(matches!(
        send(&mut app, Msg::CropAllDialog),
        Effect::CropDialog {
            width: 8,
            height: 8
        }
    ));
}

#[test]
fn a_size_is_measured_once_per_revision() {
    let mut app = plain(2);
    assert_eq!(app.schedule_estimate(), Some(0));
    assert_eq!(app.schedule_estimate(), None, "already queued");
    assert!(matches!(
        send(&mut app, Msg::Estimate(0)),
        Effect::Measure { rev: 0, total: 2 }
    ));
    app.update_cmd(Cmd::Estimated(0, Some(1234)));
    assert_eq!(app.estimate, Some((0, 1234)));
    assert_eq!(app.schedule_estimate(), None, "measured");
    send(&mut app, Msg::SetAllFramesDelay(3));
    assert_eq!(app.schedule_estimate(), Some(1));
    assert!(matches!(
        send(&mut app, Msg::Estimate(0)),
        Effect::Nothing
    ));
    app.update_cmd(Cmd::Estimated(1, None));
    assert_eq!(app.estimate, Some((0, 1234)), "kept on show");
}

#[test]
fn the_controls_follow_what_the_app_is_doing() {
    let mut app = plain(2);
    let c = app.controls(true);
    assert!(!c.empty && !c.bar && c.open && c.export && c.frames && c.crop && c.tools);
    assert!(!c.undo && !c.redo && !c.range);
    assert_eq!(c.scope, 0);
    send(&mut app, Msg::DropEveryNth(2));
    assert!(app.controls(false).undo && !app.controls(false).crop);
    app.busy = Some(Busy {
        kind: BusyKind::Import,
        done: 0,
        total: None,
    });
    let c = app.controls(true);
    assert!(c.bar && c.cancel && !c.undo && !c.properties && !c.tools && !c.open);
    app.busy = Some(Busy {
        kind: BusyKind::Zoom,
        done: 0,
        total: Some(1),
    });
    let c = app.controls(true);
    assert!(c.bar && !c.cancel && c.properties && c.tools && !c.frames);
    assert!(App::new(Keymap::default(), 0).controls(false).empty);
}

#[test]
fn the_sidebar_shows_what_can_be_edited() {
    let mut app = plain(3);
    let id = app.editor.doc.add_overlay(
        "cap".to_string(),
        text("hi"),
        at(0.0, 0.0, 8.0, 8.0),
        0..1,
    );
    app.editor
        .doc
        .add_overlay("box".to_string(), shape(), at(1.0, 0.0, 8.0, 8.0), 0..3);
    app.selected_overlay = Some(id);
    let p = app.panel();
    assert!(!p.multi && p.layers && p.overlay && p.text_rows && !p.shape_rows);
    let (rows, picked) = app.layer_rows();
    let names: Vec<(&str, bool, bool)> = rows
        .iter()
        .map(|r| (r.name.as_str(), r.can_raise, r.can_lower))
        .collect();
    assert_eq!(names, vec![("box", false, true), ("cap", true, false)]);
    assert_eq!(picked, Some(1));
    assert_eq!(app.boxed(), Some(at(0.0, 0.0, 8.0, 8.0)));
    assert_eq!(app.movable().len(), 2);
    app.crop_tool = true;
    assert!(app.boxed().is_none() && app.movable().is_empty() && !app.panel().layers);
    app.crop_tool = false;
    app.scope = ScopeChoice::AllFrames;
    let p = app.panel();
    assert!(p.multi && !p.layers && !p.overlay && !p.text_group);
    let catalog = Catalog::new();
    assert_eq!(app.frame_heading(&catalog), "All 3 frames selected");
    assert_eq!(app.delay_subtitle(&catalog), "Applies to 3 selected frames");
    let marks = app.thumb_marks();
    assert!(marks[0].playhead && !marks[0].in_scope && marks[1].in_scope);
}

#[test]
fn the_band_area_shows_five_rows_before_it_folds() {
    let mut app = plain(4);
    for i in 0..7 {
        app.editor
            .doc
            .add_overlay(format!("o{i}"), shape(), at(0.0, 0.0, 1.0, 1.0), 0..4);
    }
    let (bands, rows) = app.bands();
    assert_eq!(
        bands.iter().map(|b| b.row).collect::<Vec<_>>(),
        (0..7).collect::<Vec<_>>()
    );
    assert_eq!((rows.used, rows.shown, rows.hidden), (7, 5, 2));
    send(&mut app, Msg::ToggleBandsExpanded);
    let (_, rows) = app.bands();
    assert_eq!((rows.used, rows.shown, rows.hidden), (7, 7, 2));
}

#[test]
fn dividers_and_list_heights_follow_their_counts() {
    assert_eq!(divider(1, 3, Some(1)), Divider::Before);
    assert_eq!(divider(2, 3, Some(3)), Divider::After);
    assert_eq!(divider(1, 3, Some(3)), Divider::Hidden);
    assert_eq!(divider(1, 3, None), Divider::Hidden);
    assert_eq!(layer_list_heights(Some(50), 2), (100, 300));
    assert_eq!(layer_list_heights(Some(50), 9), (150, 300));
    assert_eq!(layer_list_heights(None, 0), (0, 0));
    assert!(ceiling_first(100, 0) && !ceiling_first(100, 300));
}

#[test]
fn joining_frames_take_the_canvas_size() {
    let mut keys = FrameKeys::new();
    let frames = vec![
        Frame::new(solid(4, 4, [3, 3, 3, 255]), 2, &mut keys),
        Frame::new(solid(8, 8, [4, 4, 4, 255]), 3, &mut keys),
    ];
    let key = frames[1].key;
    let joined = resize_frames_to(frames, (8, 8), &mut keys);
    assert_eq!((joined[0].pixels.width, joined[0].pixels.height), (8, 8));
    assert_eq!(joined[0].pixels.pixel_or_clear(4, 4), [3, 3, 3, 255]);
    assert_eq!(joined[1].key, key, "one that fits is left alone");
    let kept = resize_frames_to(joined, (0, 0), &mut keys);
    assert_eq!(kept.len(), 2);
}

#[test]
fn a_full_counter_refuses_the_next_edit() {
    let mut app = plain(2);
    assert!(app.has_room());
    app.editor.doc.next_id = u32::MAX - 2;
    assert!(!app.has_room());
}

#[test]
fn a_message_comes_with_what_it_needs() {
    let mut app = plain(3);
    app.editor
        .doc
        .add_overlay("a".to_string(), shape(), at(0., 0., 1., 1.), 0..3);
    let press = Msg::CanvasPress {
        x: f(0.0),
        y: f(0.0),
        state: NONE,
    };
    assert!(!app.takes(&press, &aid()), "a flag for each overlay");
    let one = Aid {
        inside: vec![true],
        ..aid()
    };
    assert!(app.takes(&press, &one));
    assert!(app.takes(&Msg::MoveSelectionTo { from: 0, gap: 3 }, &aid()));
    let far = Msg::MoveSelectionTo {
        from: 0,
        gap: usize::MAX,
    };
    assert!(!app.takes(&far, &aid()));
    let whole = solid(5, 4, [1, 2, 3, 255]);
    let short = Raster {
        width: 5,
        height: 4,
        data: vec![0; 79],
    };
    assert!(app.takes(&Msg::AppendImageFrame(Some(whole)), &aid()));
    assert!(!app.takes(&Msg::AppendImageFrame(Some(short)), &aid()));
}

#[test]
fn a_picture_joins_at_the_size_of_the_canvas() {
    let mut app = plain(2);
    let picture = solid(5, 4, [1, 2, 3, 255]);
    send(&mut app, Msg::AppendImageFrame(Some(picture)));
    let last = &app.editor.doc.frames[2].pixels;
    assert_eq!((last.width, last.height), (8, 8));
    assert_eq!(last.pixel_or_clear(7, 7), [1, 2, 3, 255]);
}

#[test]
fn the_playhead_rides_the_frame_it_was_on() {
    // The frame on screen is not one of those that move.
    let mut app = app_with(doc(6), ScopeChoice::ThisFrame, Vec::new(), 1);
    send(&mut app, Msg::MoveSelectionTo { from: 4, gap: 0 });
    assert_eq!(ids(&app), vec![4, 0, 1, 2, 3, 5]);
    assert_eq!(app.playhead, 2, "pushed along");
    let mut app = app_with(doc(6), ScopeChoice::Range, vec![0, 1], 3);
    send(&mut app, Msg::MoveSelectionTo { from: 0, gap: 6 });
    assert_eq!(ids(&app), vec![2, 3, 4, 5, 0, 1]);
    assert_eq!(app.playhead, 1, "closed up");
    // A drop of nothing that is there moves nothing.
    let mut app = app_with(doc(3), ScopeChoice::ThisFrame, Vec::new(), 2);
    send(&mut app, Msg::MoveSelectionTo { from: 9, gap: 0 });
    assert_eq!((ids(&app), app.playhead), (vec![0, 1, 2], 2));
}

#[test]
fn a_frame_put_into_a_document_of_one_reaches_all_there_was() {
    let picture = || Some(solid(8, 8, [1, 2, 3, 255]));
    let mut app = plain(1);
    let effect = send(&mut app, Msg::AppendImageFrame(picture()));
    assert!(matches!(effect, Effect::Toast(_)), "{effect:?}");
    let effect = send(&mut app, Msg::AppendImageFrame(picture()));
    assert!(matches!(effect, Effect::Nothing), "{effect:?}");
}

#[test]
fn one_pasted_frame_is_what_the_next_edit_acts_on() {
    let mut app = app_with(doc(4), ScopeChoice::ThisFrame, Vec::new(), 1);
    send(&mut app, Msg::FrameCopy);
    send(&mut app, Msg::SetScope(ScopeChoice::AllFrames));
    send(&mut app, Msg::FramePaste);
    assert_eq!(ids(&app), vec![0, 1, 1, 2, 3]);
    assert_eq!((app.playhead, app.scope), (2, ScopeChoice::ThisFrame));
    send(&mut app, Msg::SetScopeDelay(42));
    let delays: Vec<u16> = app.editor.doc.frames.iter().map(|f| f.delay_cs).collect();
    assert_eq!(delays, vec![5, 5, 42, 5, 5]);
}

#[test]
fn a_zoom_without_a_box_changes_nothing() {
    let mut app = plain(3);
    app.crop_tool = true;
    app.crop_rect = Some((f(1.0), f(1.0), f(0.0), f(0.0)));
    // Nothing of the canvas lies in the box.
    let effect = send(&mut app, Msg::ApplyZoom);
    assert!(matches!(effect, Effect::Nothing));
    assert!(app.crop_tool && app.crop_rect.is_some() && app.busy.is_none());
    let boxed = Aid {
        rect: Some(Rect {
            x: 1,
            y: 1,
            w: 2,
            h: 2,
        }),
        ..aid()
    };
    assert!(matches!(app.update(Msg::ApplyZoom, &boxed), Effect::Work(_)));
    assert!(!app.crop_tool && app.crop_rect.is_none() && app.busy.is_some());
}
