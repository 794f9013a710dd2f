//! Compositing, with the float geometry a window would bring.

use gifkino::document::Document;
use gifkino::model::{
    Frame, FrameKeys, Overlay, OverlayKind, Shape, ShapeOverlay, TextOverlay, Transform,
};
use gifkino::raster::Raster;
use gifkino::render::{composite, draw_upright, no_text, paint_list, paint_shape, pick};
use gifkino::single::Single;
use gifkino::turned::draw_turned;

fn f(x: f32) -> Single {
    Single::from_bits(x.to_bits())
}

fn num(x: Single) -> f32 {
    f32::from_bits(x.to_bits())
}

fn at(x: f32, y: f32, w: f32, h: f32) -> Transform {
    Transform::at(f(x), f(y), f(w), f(h))
}

fn mix(src: [u8; 4], d: [u8; 4], opacity: f32) -> [u8; 4] {
    let a = src[3] as f32 / 255.0 * opacity;
    if a <= 0.0 {
        return d;
    }
    let da = d[3] as f32 / 255.0;
    let out_a = a + da * (1.0 - a);
    let one = |s: u8, d: u8| ((s as f32 * a + d as f32 * da * (1.0 - a)) / out_a).round() as u8;
    [
        one(src[0], d[0]),
        one(src[1], d[1]),
        one(src[2], d[2]),
        (out_a * 255.0).round() as u8,
    ]
}

/// Whether a pixel of the shape is on its edge, if it is of it at all.
fn place(o: &ShapeOverlay, w: u32, h: u32, x: u32, y: u32) -> Option<bool> {
    let stroke_w = o.stroke.map_or(0.0, |(_, sw)| num(sw).max(0.0));
    match o.shape {
        Shape::Rect => Some(
            (x as f32) < stroke_w
                || (y as f32) < stroke_w
                || ((w - 1 - x) as f32) < stroke_w
                || ((h - 1 - y) as f32) < stroke_w,
        ),
        Shape::Ellipse => None,
        Shape::Arrow => {
            let head_len = (w as f32 * 0.35).min(h as f32 * 1.5);
            let shaft_h = (h as f32 * 0.3).max(1.0);
            let mid = h as f32 / 2.0;
            let inner_head_len = (head_len - stroke_w).max(0.0);
            let inner_shaft_h = (shaft_h - stroke_w * 2.0).max(0.0);
            let (fx, fy) = (x as f32 + 0.5, y as f32 + 0.5);
            let in_shaft = fx < w as f32 - head_len && (fy - mid).abs() <= shaft_h / 2.0;
            let head_t = ((w as f32 - fx) / head_len).clamp(0.0, 1.0);
            let in_head = fx >= w as f32 - head_len && (fy - mid).abs() <= head_t * mid;
            if !in_shaft && !in_head {
                return None;
            }
            let in_inner_shaft = fx >= stroke_w
                && fx < w as f32 - inner_head_len
                && (fy - mid).abs() <= inner_shaft_h / 2.0;
            let inner_head_t =
                ((w as f32 - fx - stroke_w) / inner_head_len.max(0.001)).clamp(0.0, 1.0);
            let in_inner_head = fx >= w as f32 - inner_head_len
                && fx <= w as f32 - stroke_w
                && (fy - mid).abs() <= inner_head_t * (mid - stroke_w).max(0.0);
            Some(!(in_inner_shaft || in_inner_head))
        }
    }
}

fn stamp(under: Raster, o: &Overlay) -> Raster {
    let t = o.transform;
    let (x, y, w, h) = (num(t.x), num(t.y), num(t.w), num(t.h));
    let (pw, ph) = (w.abs().round() as u32, h.abs().round() as u32);
    let opacity = num(o.opacity);
    if pw == 0 || ph == 0 || opacity <= 0.0 {
        return under;
    }
    let src = match &o.kind {
        OverlayKind::Shape(s) => paint_shape(s, pw, ph, |px, py| place(s, pw, ph, px, py)),
        _ => no_text(pw, ph),
    };
    let blend = |d, s| mix(s, d, opacity.clamp(0.0, 1.0));
    let angle = num(t.angle);
    if angle != 0.0 {
        let (cx, cy) = (x + w / 2.0, y + h / 2.0);
        let (sin, cos) = angle.sin_cos();
        // The source pixel under a canvas pixel, found by turning it back.
        let turn = |dx: u32, dy: u32| {
            let (ux, uy) = (dx as f32 + 0.5 - cx, dy as f32 + 0.5 - cy);
            let sx = ((cx + ux * cos + uy * sin - x) / w * src.width as f32).floor();
            let sy = ((cy - ux * sin + uy * cos - y) / h * src.height as f32).floor();
            if sx < 0.0 || sy < 0.0 {
                return None;
            }
            Some((sx as u32, sy as u32))
        };
        return draw_turned(&under, &src, turn, blend);
    }
    draw_upright(
        &under,
        &src,
        x.min(x + w).round() as i64,
        y.min(y + h).round() as i64,
        w < 0.0,
        h < 0.0,
        blend,
    )
}

fn red_rect() -> OverlayKind {
    OverlayKind::Shape(ShapeOverlay {
        shape: Shape::Rect,
        fill: Some([255, 0, 0, 255]),
        stroke: None,
    })
}

fn blank(w: u32, h: u32, n: usize) -> Document {
    let mut keys = FrameKeys::new();
    Document::from_frames(
        (0..n)
            .map(|_| Frame::new(Raster::blank(w, h), 10, &mut keys))
            .collect(),
    )
}

fn painted(d: &Document, i: usize, x: u64, y: u64) -> [u8; 4] {
    composite(d, i, &stamp)
        .expect("a frame of the document")
        .pixel_or_clear(x, y)
}

#[test]
fn one_overlay_paints_only_its_range() {
    let mut d = blank(10, 10, 4);
    d.add_overlay("r".to_string(), red_rect(), at(2.0, 2.0, 4.0, 4.0), 1..3);
    assert_eq!(painted(&d, 0, 3, 3), [0, 0, 0, 0]);
    assert_eq!(painted(&d, 1, 3, 3), [255, 0, 0, 255]);
    assert_eq!(painted(&d, 2, 3, 3), [255, 0, 0, 255]);
    assert_eq!(painted(&d, 3, 3, 3), [0, 0, 0, 0]);
    // and only inside the box
    assert_eq!(painted(&d, 1, 8, 8), [0, 0, 0, 0]);
    assert!(composite(&d, 4, &stamp).is_none(), "past the end");
    assert_eq!(paint_list(&d, 1), Some(vec![0]));
}

#[test]
fn detached_frames_skip_overlays() {
    let mut d = blank(10, 10, 4);
    d.add_overlay("r".to_string(), red_rect(), at(0.0, 0.0, 10.0, 10.0), 0..4);
    d.frames[2].detached = true;
    assert_eq!(painted(&d, 1, 5, 5), [255, 0, 0, 255]);
    assert_eq!(painted(&d, 2, 5, 5), [0, 0, 0, 0]);
}

#[test]
fn hidden_and_transparent_overlays_do_nothing() {
    let mut d = blank(10, 10, 4);
    let id = d.add_overlay("r".to_string(), red_rect(), at(0.0, 0.0, 10.0, 10.0), 0..4);
    d.overlay_mut(id).expect("just added").hidden = true;
    assert_eq!(painted(&d, 0, 5, 5), [0, 0, 0, 0]);
    d.overlay_mut(id).expect("just added").hidden = false;
    d.overlay_mut(id).expect("just added").opacity = f(0.5);
    assert_eq!(painted(&d, 0, 5, 5)[3], 128);
}

#[test]
fn quarter_turn_lands_where_it_should() {
    let mut d = blank(20, 20, 1);
    // a wide bar across the middle, rotated a quarter turn, becomes a tall one
    let id = d.add_overlay("r".to_string(), red_rect(), at(2.0, 8.0, 16.0, 4.0), 0..1);
    d.overlay_mut(id).expect("just added").transform.angle = f(std::f32::consts::FRAC_PI_2);
    assert_eq!(
        painted(&d, 0, 10, 3),
        [255, 0, 0, 255],
        "tall after rotation"
    );
    assert_eq!(painted(&d, 0, 3, 10), [0, 0, 0, 0], "no longer wide");
}

#[test]
fn z_order_is_bottom_to_top() {
    let mut d = blank(10, 10, 4);
    d.add_overlay(
        "under".to_string(),
        red_rect(),
        at(0.0, 0.0, 10.0, 10.0),
        0..4,
    );
    d.add_overlay(
        "over".to_string(),
        OverlayKind::Shape(ShapeOverlay {
            shape: Shape::Rect,
            fill: Some([0, 0, 255, 255]),
            stroke: None,
        }),
        at(0.0, 0.0, 10.0, 10.0),
        0..4,
    );
    assert_eq!(painted(&d, 0, 5, 5), [0, 0, 255, 255]);
}

#[test]
fn a_flipped_box_paints_within_its_own_bounding_box_not_beyond_it() {
    let mut d = blank(10, 10, 1);
    d.add_overlay("r".to_string(), red_rect(), at(8.0, 2.0, -6.0, 6.0), 0..1);
    assert_eq!(
        painted(&d, 0, 3, 5),
        [255, 0, 0, 255],
        "inside the flipped box, which spans x 2..8"
    );
    assert_eq!(
        painted(&d, 0, 9, 5),
        [0, 0, 0, 0],
        "outside it, whatever the sign of the width"
    );
}

#[test]
fn arrow_stroke_draws_a_distinct_band_from_fill() {
    let mut d = blank(40, 40, 1);
    let arrow = OverlayKind::Shape(ShapeOverlay {
        shape: Shape::Arrow,
        fill: Some([0, 255, 0, 255]),
        stroke: Some(([255, 0, 0, 255], f(2.0))),
    });
    d.add_overlay("a".to_string(), arrow, at(0.0, 0.0, 40.0, 40.0), 0..1);
    assert_eq!(
        painted(&d, 0, 3, 20),
        [0, 255, 0, 255],
        "shaft centre is fill"
    );
    assert_eq!(
        painted(&d, 0, 3, 14),
        [255, 0, 0, 255],
        "near the shaft's outer edge is stroke, not flattened to one solid colour"
    );
}

#[test]
fn arrow_with_only_a_stroke_is_hollow() {
    let mut d = blank(40, 40, 1);
    let arrow = OverlayKind::Shape(ShapeOverlay {
        shape: Shape::Arrow,
        fill: None,
        stroke: Some(([255, 0, 0, 255], f(2.0))),
    });
    d.add_overlay("a".to_string(), arrow, at(0.0, 0.0, 40.0, 40.0), 0..1);
    assert_eq!(
        painted(&d, 0, 3, 20),
        [0, 0, 0, 0],
        "no fill leaves the interior see-through, like Rect and Ellipse"
    );
    assert_eq!(
        painted(&d, 0, 3, 14),
        [255, 0, 0, 255],
        "the stroke band still draws"
    );
}

#[test]
fn an_edge_without_a_stroke_takes_the_fill() {
    let filled = ShapeOverlay {
        shape: Shape::Rect,
        fill: Some([1, 2, 3, 4]),
        stroke: None,
    };
    assert_eq!(pick(&filled, true), Some([1, 2, 3, 4]));
    assert_eq!(pick(&filled, false), Some([1, 2, 3, 4]));
    let lined = ShapeOverlay {
        stroke: Some(([9, 9, 9, 9], f(1.0))),
        ..filled
    };
    assert_eq!(pick(&lined, true), Some([9, 9, 9, 9]));
    assert_eq!(pick(&lined, false), Some([1, 2, 3, 4]));
}

#[test]
fn text_without_fonts_draws_nothing() {
    let mut d = blank(10, 10, 1);
    d.add_overlay(
        "t".to_string(),
        OverlayKind::Text(TextOverlay::default()),
        at(0.0, 0.0, 10.0, 10.0),
        0..1,
    );
    assert_eq!(painted(&d, 0, 5, 5), [0, 0, 0, 0]);
    assert_eq!((no_text(0, 3).width, no_text(0, 3).height), (1, 3));
}
