//! Hex colors, surfaces and canvas guides.

use gifkino::color::{hex_of, parse_hex, to_rgba};
use gifkino::single::Single;
use gifkino::snap::{snap_extent, Guide, Guides, Landing};

fn f(x: f32) -> Single {
    Single::from_bits(x.to_bits())
}

#[test]
fn hex_round_trips_and_rejects_the_rest() {
    assert_eq!(parse_hex("#FF3C3C"), Some([255, 60, 60, 255]));
    assert_eq!(parse_hex("ff3c3c80"), Some([255, 60, 60, 128]));
    assert_eq!(hex_of([255, 60, 60, 255]), "#FF3C3C");
    assert_eq!(hex_of([255, 60, 60, 128]), "#FF3C3C80");
    for bad in ["", "#12345", "#GGGGGG", "#FF3C3C3", "rgb(1,2,3)"] {
        assert_eq!(parse_hex(bad), None, "{bad}");
    }
}

#[test]
fn every_color_reads_back_from_its_hex() {
    for color in [[0, 0, 0, 0], [1, 2, 3, 255], [255, 255, 255, 254], [16, 32, 64, 128]] {
        assert_eq!(parse_hex(&hex_of(color)), Some(color));
    }
}

#[test]
fn surfaces_lose_their_premultiplication() {
    // Two pixels a row, four bytes of padding behind it.
    let data = vec![
        0, 0, 128, 128, 255, 0, 0, 255, 9, 9, 9, 9, 0, 0, 0, 0, 10, 20, 30, 255, 9, 9, 9, 9,
    ];
    let out = to_rgba(&data, 2, 2, 12);
    assert_eq!(out.pixel_or_clear(0, 0), [255, 0, 0, 128]);
    assert_eq!(out.pixel_or_clear(1, 0), [0, 0, 255, 255]);
    assert_eq!(out.pixel_or_clear(0, 1), [0, 0, 0, 0]);
    assert_eq!(out.pixel_or_clear(1, 1), [30, 20, 10, 255]);
}

/// Where a span's leading edge, centre and trailing edge could land.
fn landings(origin: f32, size: f32, extent: f32) -> Vec<Landing> {
    let mut out = Vec::new();
    for guide in Guide::all() {
        let line = match guide {
            Guide::Start => 0.0,
            Guide::Center => extent / 2.0,
            Guide::End => extent,
        };
        for offset in [0.0, size / 2.0, size] {
            out.push(Landing {
                guide,
                distance: f((origin + offset - line).abs()),
                origin: f(line - offset),
            });
        }
    }
    out
}

fn snapped(origin: f32, size: f32, extent: f32, tolerance: f32) -> (f32, Option<Guide>) {
    let all = landings(origin, size, extent);
    match snap_extent(&all, f(tolerance)) {
        Some(i) => (f32::from_bits(all[i].origin.to_bits()), Some(all[i].guide)),
        None => (origin, None),
    }
}

#[test]
fn a_span_near_the_centre_line_lands_centred() {
    assert_eq!(
        snapped(96.0, 100.0, 300.0, 8.0),
        (100.0, Some(Guide::Center))
    );
}

#[test]
fn a_trailing_edge_near_the_far_side_lands_flush() {
    assert_eq!(
        snapped(196.0, 100.0, 300.0, 8.0),
        (200.0, Some(Guide::End))
    );
}

#[test]
fn the_nearest_of_two_guides_in_reach_wins() {
    // Leading edge 5 from the left edge, centre (48) 2 from the centre line.
    assert_eq!(snapped(5.0, 86.0, 100.0, 8.0), (7.0, Some(Guide::Center)));
}

#[test]
fn a_point_snaps_each_axis_on_its_own() {
    let (x, gx) = snapped(197.0, 0.0, 200.0, 8.0);
    let (y, gy) = snapped(60.0, 0.0, 100.0, 8.0);
    assert_eq!((x, y), (200.0, 60.0));
    assert_eq!(
        Guides { x: gx, y: gy },
        Guides {
            x: Some(Guide::End),
            y: None
        }
    );
    assert_eq!(Guides::default(), Guides { x: None, y: None });
}

#[test]
fn a_negative_tolerance_holds_everything_off() {
    assert_eq!(snapped(100.0, 100.0, 300.0, -1.0), (100.0, None));
    assert_eq!(snapped(100.0, 100.0, 300.0, 0.0), (100.0, None));
    assert_eq!(
        snapped(100.0, 100.0, 300.0, 0.5),
        (100.0, Some(Guide::Center)),
        "on the line already"
    );
}
