//! Undo as a pure function of the history position.

use gifkino::document::Document;
use gifkino::history::{Change, Editor, LIMIT};
use gifkino::i18n::{parse_po, Catalog};
use gifkino::model::{
    Frame, FrameKeys, OverlayKind, Shape, ShapeOverlay, TextOverlay, Transform,
};
use gifkino::raster::Raster;
use gifkino::single::Single;

fn f(x: f32) -> Single {
    Single::from_bits(x.to_bits())
}

fn at(x: f32, y: f32, w: f32, h: f32) -> Transform {
    Transform::at(f(x), f(y), f(w), f(h))
}

/// A small deterministic generator, so a failure reproduces.
struct Lcg(u64);

impl Lcg {
    fn next(&mut self, n: usize) -> usize {
        self.0 = self
            .0
            .wrapping_mul(6364136223846793005)
            .wrapping_add(1442695040888963407);
        (self.0 >> 33) as usize % n.max(1)
    }
}

fn seeded() -> Editor {
    let mut keys = FrameKeys::new();
    let doc = Document::from_frames(
        (0..24)
            .map(|i| Frame::new(Raster::blank(4, 4), 3 + (i % 2) as u16, &mut keys))
            .collect(),
    );
    Editor::new(doc)
}

fn shape() -> OverlayKind {
    OverlayKind::Shape(ShapeOverlay {
        shape: Shape::Rect,
        fill: Some([9, 9, 9, 255]),
        stroke: None,
    })
}

fn rng_f(step: usize) -> f32 {
    (step % 17) as f32
}

#[test]
fn history_round_trips_losslessly() {
    let mut ed = seeded();
    let initial = ed.doc.clone();
    let mut rng = Lcg(0x5eed);

    for step in 0..60 {
        let n = ed.doc.frames.len().max(1);
        match rng.next(7) {
            0 => {
                let start = rng.next(n);
                let end = (start + 1 + rng.next(4)).min(n);
                ed.edit("Add text", end - start, |d| {
                    d.add_overlay(
                        format!("text {step}"),
                        OverlayKind::Text(TextOverlay {
                            text: format!("caption {step}"),
                            ..Default::default()
                        }),
                        at(rng_f(step), 4.0, 20.0, 8.0),
                        start..end,
                    );
                });
            }
            1 => {
                ed.edit("Add shape", n, |d| {
                    d.add_overlay("rect".to_string(), shape(), at(1.0, 1.0, 3.0, 3.0), 0..n);
                });
            }
            2 => {
                if let Some(id) = ed.doc.overlays.first().map(|o| o.id) {
                    ed.edit("Delete overlay", 1, |d| {
                        d.remove_overlay(id);
                    });
                }
            }
            3 => {
                if let Some(id) = ed.doc.overlays.last().map(|o| o.id) {
                    ed.edit("Lower overlay", 1, |d| d.move_overlay_z(id, false));
                }
            }
            4 if n > 2 => {
                let start = rng.next(n - 1);
                ed.edit("Delete frames", 1, |d| d.delete_frames(start..start + 1));
            }
            5 => {
                let i = rng.next(n);
                ed.edit("Duplicate frame", 1, |d| d.duplicate_frame(i));
            }
            _ => {
                ed.edit("Set delay", n, |d| d.set_delay(0..n, 4 + (step % 3) as u16));
            }
        }
    }

    let final_doc = ed.doc.clone();
    let depth = {
        let mut depth = 0;
        while ed.undo() {
            depth += 1;
        }
        depth
    };
    assert!(depth > 20, "the script should have produced real history");
    assert_eq!(
        ed.doc, initial,
        "stepping to the first item rebuilds everything"
    );

    while ed.redo() {}
    assert_eq!(
        ed.doc, final_doc,
        "redo to the end lands on the same document"
    );

    // forward → back → forward is identical, repeatedly
    for _ in 0..3 {
        let mut marks = Vec::new();
        while ed.undo() {
            marks.push(ed.doc.clone());
        }
        for expected in marks.iter().rev().skip(1) {
            assert!(ed.redo());
            assert_eq!(&ed.doc, expected);
        }
        while ed.redo() {}
        assert_eq!(ed.doc, final_doc);
    }
}

#[test]
fn a_new_edit_clears_the_redo_branch() {
    let mut ed = seeded();
    ed.edit("Add shape", 1, |d| {
        d.add_overlay("a".to_string(), shape(), at(0., 0., 1., 1.), 0..1);
    });
    ed.undo();
    assert!(ed.can_redo());
    ed.edit("Add shape", 1, |d| {
        d.add_overlay("b".to_string(), shape(), at(0., 0., 1., 1.), 0..1);
    });
    assert!(!ed.can_redo());
    assert_eq!(ed.doc.overlays.len(), 1);
}

#[test]
fn toast_names_the_scope() {
    let catalog = Catalog::new();
    let c = Change {
        label: "Text added".into(),
        frames_touched: 24,
    };
    assert_eq!(c.message(&catalog), "Text added on 24 frames");
    let c = Change {
        label: "Text added".into(),
        frames_touched: 1,
    };
    assert_eq!(c.message(&catalog), "Text added");

    let german = parse_po(
        "msgid \"Text added\"\nmsgstr \"Text eingefügt\"\n\n\
         msgid \"{change} on {count} frames\"\nmsgstr \"{count} Bilder: {change}\"\n",
    );
    let c = Change {
        label: "Text added".into(),
        frames_touched: 3,
    };
    assert_eq!(c.message(&german), "3 Bilder: Text eingefügt");
}

#[test]
fn history_forgets_its_oldest_step() {
    let mut ed = seeded();
    for i in 0..LIMIT + 5 {
        ed.edit("Set delay", 1, |d| d.set_delay(0..1, 1 + i as u16));
    }
    let mut steps = 0;
    while ed.undo() {
        steps += 1;
    }
    assert_eq!(steps, LIMIT);
    assert_eq!(ed.doc.frames[0].delay_cs, 5, "the first five are gone");
}

#[test]
fn the_labels_name_the_next_step_each_way() {
    let mut ed = seeded();
    assert_eq!(ed.undo_label(), None);
    ed.edit("First", 1, |d| d.set_delay(0..1, 9));
    ed.edit("Second", 1, |d| d.set_delay(0..1, 8));
    assert_eq!(ed.undo_label(), Some("Second"));
    assert_eq!(ed.redo_label(), None);
    assert!(ed.undo());
    assert_eq!(ed.undo_label(), Some("First"));
    assert_eq!(ed.redo_label(), Some("Second"));
    assert_eq!(ed.doc.frames[0].delay_cs, 9);
}
